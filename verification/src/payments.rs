//! Periodic payments to the members of the oversight community and the arbiter pool, out of
//! the rewards the contract holds; what is left goes to the engagement contract.
use crate::common::{BlockInfo, Decimal, DECIMAL_FRACTIONAL, NANOS_PER_SECOND};
use crate::version::{semver_parse, spec_version_le, version_text_le};
use chrono::{Datelike, Timelike};
use vstd::prelude::*;

verus! {

/// Seconds in a day.
pub const SECONDS_PER_DAY: u64 = 86400u64;

/// Largest number of whole seconds a block time in nanoseconds can hold.
pub const MAX_BLOCK_SECONDS: u64 = 18_446_744_073u64;

/// How often members are paid.
#[derive(Clone, Copy, Debug, PartialEq, Eq, Structural)]
pub enum Period {
    Daily,
    Monthly,
    Yearly,
}

impl Period {
    /// Length of the period in seconds: a day, 28 days or 365 days.
    pub fn seconds(&self) -> (s: u64)
        ensures
            s == (match *self {
                Period::Daily => 86400,
                Period::Monthly => 86400 * 28,
                Period::Yearly => 86400 * 365,
            }),
    {
        match self {
            Period::Daily => SECONDS_PER_DAY,
            Period::Monthly => SECONDS_PER_DAY * 28,
            Period::Yearly => SECONDS_PER_DAY * 365,
        }
    }
}

/// Day of the month (1 to 31) of the UTC date of a UNIX time in seconds, as chrono computes it.
pub uninterp spec fn utc_day(secs: u64) -> u32;

/// Month (1 to 12) of the UTC date of a UNIX time in seconds, as chrono computes it.
pub uninterp spec fn utc_month(secs: u64) -> u32;

/// Hour of the day (0 to 23) of a UNIX time in seconds: the seconds since midnight UTC, in
/// whole hours.
pub open spec fn utc_hour(secs: u64) -> int {
    ((secs % 86400) / 3600) as int
}

/// Hour, day of the month and month of the UTC date and time of a UNIX time in seconds, through
/// `chrono::NaiveDateTime::from_timestamp` and its `hour`, `day` and `month`. Claimed: the hour
/// is the whole hours since midnight of that UNIX time (chrono counts no leap seconds in it);
/// day and month are `utc_day` and `utc_month` of the time, in 1 to 31 and 1 to 12.
#[verifier::external_body]
#[allow(deprecated)]
fn utc_hour_day_month(secs: u64) -> (r: (u32, u32, u32))
    requires
        secs <= MAX_BLOCK_SECONDS,
    ensures
        r.0 == utc_hour(secs),
        r.1 == utc_day(secs),
        r.2 == utc_month(secs),
        1 <= r.1 <= 31,
        1 <= r.2 <= 12,
{
    let dt = chrono::NaiveDateTime::from_timestamp(secs as i64, 0);
    (dt.hour(), dt.day(), dt.month())
}

/// Settings of the payments contract.
#[derive(Debug, PartialEq, Eq)]
pub struct PaymentsConfig {
    /// Oversight community group contract.
    pub oc_addr: String,
    /// Arbiter pool group contract.
    pub ap_addr: String,
    /// Where what is not paid to members goes.
    pub engagement_addr: String,
    pub denom: String,
    /// What each member is paid per period.
    pub payment_amount: u128,
    pub payment_period: Period,
    /// Share of received rewards kept for payments.
    pub funds_ratio: Decimal,
}

/// Whether payments are made at UNIX time `secs` for the period: at the first hour of a day,
/// of the first day of a month, or of the first of January.
pub open spec fn spec_should_apply(period: Period, secs: u64) -> bool {
    match period {
        Period::Daily => utc_hour(secs) == 0,
        Period::Monthly => utc_day(secs) == 1 && utc_hour(secs) == 0,
        Period::Yearly => utc_month(secs) == 1 && utc_day(secs) == 1 && utc_hour(secs) == 0,
    }
}

impl PaymentsConfig {
    /// Whether payments are due at UNIX time `secs` by the payment period.
    pub fn should_apply(&self, secs: u64) -> (b: bool)
        requires
            secs <= MAX_BLOCK_SECONDS,
        ensures
            b == spec_should_apply(self.payment_period, secs),
    {
        let (hour, day, month) = utc_hour_day_month(secs);
        match self.payment_period {
            Period::Daily => hour == 0,
            Period::Monthly => day == 1 && hour == 0,
            Period::Yearly => month == 1 && day == 1 && hour == 0,
        }
    }
}

/// Whether UNIX time `secs` falls in the first hour of its day (UTC).
pub fn hour_after_midnight(secs: u64) -> (b: bool)
    requires
        secs <= MAX_BLOCK_SECONDS,
    ensures
        b == (utc_hour(secs) == 0),
{
    let (hour, _, _) = utc_hour_day_month(secs);
    hour == 0
}

/// A payment made to the members.
#[derive(Clone, Copy, Debug, PartialEq, Eq, Structural)]
pub struct Payment {
    /// Number of members paid.
    pub num_members: u32,
    /// Amount paid to each member.
    pub amount: u128,
    /// UNIX time of the payment, in seconds.
    pub payment_time: u64,
    /// Block height of the payment.
    pub payment_height: u64,
}

impl Payment {
    /// The payment at block time `pay_time` (nanoseconds) and height `pay_height`.
    pub fn new(num_members: u32, amount: u128, pay_time: u64, pay_height: u64) -> (p: Payment)
        ensures
            p == (Payment { num_members, amount, payment_time: pay_time / NANOS_PER_SECOND, payment_height: pay_height }),
    {
        Payment { num_members, amount, payment_time: pay_time / NANOS_PER_SECOND, payment_height: pay_height }
    }
}

/// Errors of the payments contract.
#[derive(Debug, PartialEq, Eq)]
pub enum PaymentsError {
    /// A payment at that time (seconds) is already recorded.
    PaymentAlreadyExists(u64),
    /// A funds ratio above 100%.
    WrongFundsRatio,
    /// The stored contract version is no semantic version.
    InvalidVersion,
}

/// The payments made, one per time, by time.
pub struct Payments {
    pub payments: Vec<Payment>,
}

/// Payments in strictly increasing time.
pub open spec fn payments_sorted(s: Seq<Payment>) -> bool {
    forall|i: int, j: int| 0 <= i < j < s.len() ==> #[trigger] s[i].payment_time < #[trigger] s[j].payment_time
}

/// Whether a payment at time `t` is among `s`.
pub open spec fn has_payment_at(s: Seq<Payment>, t: u64) -> bool {
    exists|i: int| 0 <= i < s.len() && #[trigger] s[i].payment_time == t
}

impl Payments {
    pub open spec fn wf(&self) -> bool {
        payments_sorted(self.payments@)
    }

    /// Whether the payments are stored by strictly increasing time, as every operation needs.
    pub fn is_well_formed(&self) -> (b: bool)
        ensures
            b == self.wf(),
    {
        let mut i: usize = 1;
        if self.payments.len() == 0 {
            return true;
        }
        while i < self.payments.len()
            invariant
                1 <= i <= self.payments@.len(),
                forall|a: int, c: int| 0 <= a < c < i ==> #[trigger] self.payments@[a].payment_time < #[trigger] self.payments@[c].payment_time,
            decreases self.payments@.len() - i,
        {
            if self.payments[i - 1].payment_time >= self.payments[i].payment_time {
                return false;
            }
            proof {
                assert forall|a: int, c: int| 0 <= a < c < i + 1 implies #[trigger] self.payments@[a].payment_time < #[trigger] self.payments@[c].payment_time by {
                    if c == i && a < i - 1 {
                        assert(self.payments@[a].payment_time < self.payments@[i - 1].payment_time);
                    }
                }
            }
            i = i + 1;
        }
        true
    }

    /// No payments.
    pub fn new() -> (p: Payments)
        ensures
            p.wf(),
            p.payments@.len() == 0,
    {
        Payments { payments: Vec::new() }
    }

    /// Records a payment of `amount` to each of `num_members` members at `block`; refused if a
    /// payment at that second is already recorded.
    pub fn create_payment(&mut self, num_members: u32, amount: u128, block: &BlockInfo) -> (r: Result<Payment, PaymentsError>)
        requires
            old(self).wf(),
        ensures
            final(self).wf(),
            has_payment_at(old(self).payments@, block.time / NANOS_PER_SECOND) ==> r == Err::<Payment, PaymentsError>(
                PaymentsError::PaymentAlreadyExists((block.time / NANOS_PER_SECOND) as u64),
            ) && final(self).payments@ == old(self).payments@,
            !has_payment_at(old(self).payments@, block.time / NANOS_PER_SECOND) ==> {
                let p = Payment { num_members, amount, payment_time: (block.time / NANOS_PER_SECOND) as u64, payment_height: block.height };
                &&& r == Ok::<Payment, PaymentsError>(p)
                &&& exists|i: int| 0 <= i <= old(self).payments@.len() && final(self).payments@ == old(self).payments@.insert(i, p)
            },
    {
        let time = block.time / NANOS_PER_SECOND;
        let ghost s = self.payments@;
        let mut i: usize = 0;
        while i < self.payments.len()
            invariant
                self.payments@ == s,
                payments_sorted(s),
                i <= s.len(),
                forall|k: int| 0 <= k < i ==> #[trigger] s[k].payment_time < time,
            ensures
                i <= s.len(),
                forall|k: int| 0 <= k < i ==> #[trigger] s[k].payment_time < time,
                i < s.len() ==> s[i as int].payment_time >= time,
            decreases s.len() - i,
        {
            if self.payments[i].payment_time >= time {
                break;
            }
            i = i + 1;
        }
        if i < self.payments.len() && self.payments[i].payment_time == time {
            return Err(PaymentsError::PaymentAlreadyExists(time));
        }
        proof {
            assert(!has_payment_at(s, time)) by {
                if has_payment_at(s, time) {
                    let k = choose|k: int| 0 <= k < s.len() && #[trigger] s[k].payment_time == time;
                    if k > i {
                        assert(s[i as int].payment_time < s[k].payment_time);
                    }
                }
            }
        }
        let p = Payment { num_members, amount, payment_time: time, payment_height: block.height };
        self.payments.insert(i, p);
        proof {
            let t = self.payments@;
            assert(t == s.insert(i as int, p));
            assert forall|a: int, b: int| 0 <= a < b < t.len() implies #[trigger] t[a].payment_time < #[trigger] t[b].payment_time by {
                if b < i {
                    assert(s[a].payment_time < s[b].payment_time);
                } else if b == i {
                    assert(s[a].payment_time < time);
                } else if a == i {
                    if b - 1 > i {
                        assert(s[i as int].payment_time < s[b - 1].payment_time);
                    }
                } else if a < i {
                    assert(s[a].payment_time < s[b - 1].payment_time);
                } else {
                    assert(s[a - 1].payment_time < s[b - 1].payment_time);
                }
            }
        }
        Ok(p)
    }

    /// Time of the most recent payment, if any.
    pub fn last(&self) -> (r: Option<u64>)
        requires
            self.wf(),
        ensures
            self.payments@.len() == 0 ==> r is None,
            self.payments@.len() > 0 ==> r == Some(self.payments@.last().payment_time)
                && forall|i: int| 0 <= i < self.payments@.len() ==> #[trigger] self.payments@[i].payment_time <= r->0,
    {
        let n = self.payments.len();
        if n == 0 {
            None
        } else {
            Some(self.payments[n - 1].payment_time)
        }
    }

    /// Up to `limit` (30 unless given, at most 100) payments after time `start_after`, by time.
    pub fn query_payments(&self, limit: Option<u32>, start_after: Option<u64>) -> (r: Vec<Payment>)
        requires
            self.wf(),
        ensures
            exists|p: int| #[trigger] first_after(self.payments@, start_after, p)
                && r@ == self.payments@.subrange(p, if p + page_size(limit) < self.payments@.len() { p + page_size(limit) } else { self.payments@.len() as int }),
    {
        let size = payments_page_size(limit);
        let mut start: usize = 0;
        let ghost s = self.payments@;
        match start_after {
            None => {},
            Some(after) => {
                while start < self.payments.len()
                    invariant
                        self.payments@ == s,
                        payments_sorted(s),
                        start <= s.len(),
                        forall|k: int| 0 <= k < start ==> #[trigger] s[k].payment_time <= after,
                    ensures
                        start <= s.len(),
                        forall|k: int| 0 <= k < start ==> #[trigger] s[k].payment_time <= after,
                        start < s.len() ==> s[start as int].payment_time > after,
                    decreases s.len() - start,
                {
                    if self.payments[start].payment_time > after {
                        break;
                    }
                    start = start + 1;
                }
                proof {
                    assert forall|k: int| start <= k < s.len() implies #[trigger] s[k].payment_time > after by {
                        if k > start {
                            assert(s[start as int].payment_time < s[k].payment_time);
                        }
                    }
                }
            },
        }
        let mut out: Vec<Payment> = Vec::new();
        let mut i: usize = start;
        while i < self.payments.len() && out.len() < size
            invariant
                self.payments@ == s,
                start <= i <= s.len(),
                out@ == s.subrange(start as int, i as int),
                out@.len() <= size,
            decreases s.len() - i,
        {
            out.push(self.payments[i]);
            proof {
                assert(out@ =~= s.subrange(start as int, i + 1));
            }
            i = i + 1;
        }
        proof {
            assert(i == (if start + size < s.len() { start + size } else { s.len() as int }));
            assert(first_after(s, start_after, start as int));
        }
        out
    }
}

/// Whether `p` is the position of the first payment after `start_after` (the first one when
/// it is `None`).
pub open spec fn first_after(s: Seq<Payment>, start_after: Option<u64>, p: int) -> bool {
    &&& 0 <= p <= s.len()
    &&& forall|k: int| 0 <= k < p ==> (start_after matches Some(a) && #[trigger] s[k].payment_time <= a)
    &&& forall|k: int| p <= k < s.len() ==> (start_after matches Some(a) ==> #[trigger] s[k].payment_time > a)
}

/// Page size for listing payments: 30 unless given, at most 100.
pub open spec fn page_size(limit: Option<u32>) -> int {
    match limit {
        None => 30,
        Some(l) => if l < 100 { l as int } else { 100 },
    }
}

fn payments_page_size(limit: Option<u32>) -> (r: usize)
    ensures
        r == page_size(limit),
{
    match limit {
        None => 30,
        Some(l) => if l < 100 { l as usize } else { 100 },
    }
}

/// Whether the end of block `secs` (UNIX seconds) pays: in the first hour of a day on which the
/// period applies, and no earlier than an hour before a full period after the last payment.
pub open spec fn spec_payment_due(period: Period, secs: u64, last: Option<u64>) -> bool {
    &&& utc_hour(secs) == 0
    &&& spec_should_apply(period, secs)
    &&& match last {
        None => true,
        Some(lp) => secs + 3600 >= lp + period_seconds(period),
    }
}

/// Length of a period in seconds.
pub open spec fn period_seconds(period: Period) -> int {
    match period {
        Period::Daily => 86400int,
        Period::Monthly => 86400int * 28,
        Period::Yearly => 86400int * 365,
    }
}

/// Whether payments are due at the end of `block`, given the time of the last payment.
pub fn payment_due(config: &PaymentsConfig, block: &BlockInfo, last: Option<u64>) -> (b: bool)
    ensures
        b == spec_payment_due(config.payment_period, (block.time / NANOS_PER_SECOND) as u64, last),
{
    let secs = block.time / NANOS_PER_SECOND;
    if !hour_after_midnight(secs) {
        return false;
    }
    if !config.should_apply(secs) {
        return false;
    }
    let period = config.payment_period.seconds();
    match last {
        None => true,
        Some(lp) => (secs as u128) + 3600 >= (lp as u128) + (period as u128),
    }
}

/// What each member is paid out of `total_funds` shared by `num_members`: the payment amount
/// when there are members and the funds cover it for each, else nothing.
pub open spec fn spec_member_pay(total_funds: u128, num_members: u128, payment_amount: u128) -> u128 {
    if num_members == 0 || total_funds / num_members < payment_amount {
        0
    } else {
        payment_amount
    }
}

/// The outcome of a payment: what each member gets and what goes to the engagement contract.
#[derive(Clone, Copy, Debug, PartialEq, Eq, Structural)]
pub struct Settlement {
    pub num_members: u128,
    pub member_pay: u128,
    pub engagement_rewards: u128,
}

/// Pays out `total_funds` (not zero) at `block` to `num_members` members: records the payment
/// and returns the member pay and the rest, which goes to the engagement contract.
pub fn settle_payment(
    payments: &mut Payments,
    config: &PaymentsConfig,
    block: &BlockInfo,
    total_funds: u128,
    num_members: u128,
) -> (r: Result<Settlement, PaymentsError>)
    requires
        old(payments).wf(),
    ensures
        final(payments).wf(),
        ({
            let pay = spec_member_pay(total_funds, num_members, config.payment_amount);
            let time = block.time / NANOS_PER_SECOND;
            &&& has_payment_at(old(payments).payments@, time) ==> r == Err::<Settlement, PaymentsError>(
                PaymentsError::PaymentAlreadyExists(time as u64)) && final(payments).payments@ == old(payments).payments@
            &&& !has_payment_at(old(payments).payments@, time) ==> {
                &&& r == Ok::<Settlement, PaymentsError>(Settlement {
                    num_members,
                    member_pay: pay,
                    engagement_rewards: (total_funds - pay * num_members) as u128,
                })
                &&& exists|i: int| 0 <= i <= old(payments).payments@.len() && final(payments).payments@ == #[trigger] old(payments).payments@.insert(i,
                    Payment { num_members: num_members as u32, amount: pay, payment_time: time as u64, payment_height: block.height })
            }
            &&& pay * num_members <= total_funds
        }),
{
    let mut member_pay = config.payment_amount;
    if num_members == 0 || total_funds / num_members < member_pay {
        member_pay = 0;
    }
    proof {
        if member_pay > 0 {
            assert(member_pay * num_members <= total_funds) by (nonlinear_arith)
                requires
                    num_members > 0,
                    total_funds / num_members >= member_pay,
            ;
        }
    }
    #[verifier::truncate]
    let count = num_members as u32;
    let _p = payments.create_payment(count, member_pay, block)?;
    Ok(Settlement { num_members, member_pay, engagement_rewards: total_funds - member_pay * num_members })
}

/// Records that nothing was paid at `block` because the contract held nothing.
pub fn record_empty_payment(payments: &mut Payments, block: &BlockInfo) -> (r: Result<(), PaymentsError>)
    requires
        old(payments).wf(),
    ensures
        final(payments).wf(),
        ({
            let time = block.time / NANOS_PER_SECOND;
            &&& has_payment_at(old(payments).payments@, time) ==> r == Err::<(), PaymentsError>(
                PaymentsError::PaymentAlreadyExists(time as u64)) && final(payments).payments@ == old(payments).payments@
            &&& !has_payment_at(old(payments).payments@, time) ==> r is Ok
                && exists|i: int| 0 <= i <= old(payments).payments@.len() && final(payments).payments@ == #[trigger] old(payments).payments@.insert(i,
                    Payment { num_members: 0, amount: 0, payment_time: time as u64, payment_height: block.height })
        }),
{
    let _p = payments.create_payment(0, 0, block)?;
    Ok(())
}

/// Applies a migration from contract version `version`: a new payment amount if given; a new
/// funds ratio if given, which may not exceed 100%; without one, contracts from version 0.16.0
/// or older get 1%.
pub fn migrate_payments_config(
    config: &mut PaymentsConfig,
    payment_amount: Option<u128>,
    funds_ratio: Option<Decimal>,
    version: &str,
) -> (r: Result<(), PaymentsError>)
    ensures
        semver_parse(version@) is None ==> r == Err::<(), PaymentsError>(PaymentsError::InvalidVersion),
        semver_parse(version@) is Some && (funds_ratio matches Some(f) && f.atomics > DECIMAL_FRACTIONAL)
            ==> r == Err::<(), PaymentsError>(PaymentsError::WrongFundsRatio),
        r is Err ==> *final(config) == *old(config),
        r is Ok <==> semver_parse(version@) is Some && !(funds_ratio matches Some(f) && f.atomics > DECIMAL_FRACTIONAL),
        r is Ok ==> {
            &&& final(config).payment_amount == (match payment_amount { Some(a) => a, None => old(config).payment_amount })
            &&& final(config).funds_ratio == (match funds_ratio {
                Some(f) => f,
                None => if spec_version_le(semver_parse(version@)->0, 0, 16, 0) {
                    Decimal { atomics: DECIMAL_FRACTIONAL / 100 }
                } else {
                    old(config).funds_ratio
                },
            })
            &&& final(config).payment_period == old(config).payment_period
            &&& final(config).denom == old(config).denom
        },
{
    let old_enough = match version_text_le(version, 0, 16, 0) {
        Some(b) => b,
        None => return Err(PaymentsError::InvalidVersion),
    };
    if let Some(f) = funds_ratio {
        if f.atomics > DECIMAL_FRACTIONAL {
            return Err(PaymentsError::WrongFundsRatio);
        }
    }
    if let Some(amount) = payment_amount {
        config.payment_amount = amount;
    }
    match funds_ratio {
        Some(f) => {
            config.funds_ratio = f;
        },
        None => {
            if old_enough {
                config.funds_ratio = Decimal::percent(1);
            }
        },
    }
    Ok(())
}

/// Members are only paid what the funds cover: the pay of all members never exceeds the funds,
/// and it is the payment amount or nothing.
pub proof fn law_member_pay_covered(total_funds: u128, num_members: u128, payment_amount: u128)
    ensures
        spec_member_pay(total_funds, num_members, payment_amount) * num_members <= total_funds,
        spec_member_pay(total_funds, num_members, payment_amount) == payment_amount
            || spec_member_pay(total_funds, num_members, payment_amount) == 0,
{
    if num_members > 0 && total_funds / num_members >= payment_amount {
        assert(payment_amount * num_members <= total_funds) by (nonlinear_arith)
            requires
                num_members > 0,
                total_funds / num_members >= payment_amount,
        ;
    }
}

/// The transfers of a settled payment: `member_pay` to each member when it is positive, then
/// the engagement rewards to the engagement contract.
pub open spec fn spec_payment_transfers(members: Seq<String>, settlement: Settlement, engagement: String) -> Seq<(String, u128)> {
    if settlement.member_pay > 0 {
        members.map_values(|m: String| (m, settlement.member_pay)).push((engagement, settlement.engagement_rewards))
    } else {
        seq![(engagement, settlement.engagement_rewards)]
    }
}

/// The transfers (recipient, amount) that pay out a settlement to `members` and the engagement
/// contract at `engagement`.
pub fn payment_transfers(members: &Vec<String>, settlement: &Settlement, engagement: &String) -> (r: Vec<(String, u128)>)
    ensures
        r@ == spec_payment_transfers(members@, *settlement, *engagement),
{
    let mut out: Vec<(String, u128)> = Vec::new();
    if settlement.member_pay > 0 {
        let mut i: usize = 0;
        while i < members.len()
            invariant
                i <= members@.len(),
                out@ == members@.subrange(0, i as int).map_values(|m: String| (m, settlement.member_pay)),
            decreases members@.len() - i,
        {
            out.push((members[i].clone(), settlement.member_pay));
            proof {
                assert(out@ =~= members@.subrange(0, i + 1).map_values(|m: String| (m, settlement.member_pay)));
            }
            i = i + 1;
        }
        proof {
            assert(members@.subrange(0, i as int) =~= members@);
        }
    }
    out.push((engagement.clone(), settlement.engagement_rewards));
    proof {
        if settlement.member_pay == 0 {
            assert(out@ =~= seq![(*engagement, settlement.engagement_rewards)]);
        }
    }
    out
}

/// When the periodic payment is due: only in the first hour (UTC) of a day on which the period
/// applies (every day; the first of a month; the first of January), and then whenever there
/// was no payment yet, or the time is at least the period (a day, 28 days, 365 days) minus one
/// hour after the last payment.
pub proof fn law_payment_due_when(period: Period, secs: u64, last: Option<u64>)
    ensures
        secs % 86400 >= 3600 ==> !spec_payment_due(period, secs, last),
        secs % 86400 < 3600 && (match period {
            Period::Daily => true,
            Period::Monthly => utc_day(secs) == 1,
            Period::Yearly => utc_month(secs) == 1 && utc_day(secs) == 1,
        }) ==> (spec_payment_due(period, secs, last) <==> match last {
            None => true,
            Some(lp) => secs + 3600 >= lp + 86400 * match period {
                Period::Daily => 1int,
                Period::Monthly => 28int,
                Period::Yearly => 365int,
            },
        }),
        (match period {
            Period::Daily => false,
            Period::Monthly => utc_day(secs) != 1,
            Period::Yearly => utc_month(secs) != 1 || utc_day(secs) != 1,
        }) ==> !spec_payment_due(period, secs, last),
{
    assert(secs % 86400 < 3600 <==> (secs % 86400) / 3600 == 0);
}

} // verus!
