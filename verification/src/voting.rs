//! Proposal voting: vote tallies, quorum and threshold rules, proposal status.
use crate::common::{
    spec_is_expired, spec_mul_floor, BlockInfo, Decimal, Expiration, Status, Vote,
};
use crate::id_map::IdMap;
use vstd::prelude::*;

verus! {

/// Precision used when computing the number of votes needed (rounding up).
pub const PRECISION_FACTOR: u128 = 1_000_000_000u128;

/// Seconds in a day.
pub const SECONDS_PER_DAY: u64 = 86_400u64;

/// Voting rules of a proposal.
#[derive(Clone, Copy, Debug, PartialEq, Eq, Structural)]
pub struct VotingRules {
    /// Length of voting period in days
    pub voting_period: u32,
    /// quorum requirement (0.0-1.0)
    pub quorum: Decimal,
    /// threshold requirement (0.5-1.0)
    pub threshold: Decimal,
    /// If true, and absolute threshold and quorum are met, we can end before voting period finished
    pub allow_end_early: bool,
}

/// Optional changes to [`VotingRules`].
#[derive(Clone, Copy, Debug, PartialEq, Eq, Structural)]
pub struct VotingRulesAdjustments {
    pub voting_period: Option<u32>,
    pub quorum: Option<Decimal>,
    pub threshold: Option<Decimal>,
    pub allow_end_early: Option<bool>,
}

pub open spec fn opt_or<T>(o: Option<T>, d: T) -> T {
    match o {
        Some(v) => v,
        None => d,
    }
}

pub open spec fn spec_apply_adjustments(r: VotingRules, a: VotingRulesAdjustments) -> VotingRules {
    VotingRules {
        voting_period: opt_or(a.voting_period, r.voting_period),
        quorum: opt_or(a.quorum, r.quorum),
        threshold: opt_or(a.threshold, r.threshold),
        allow_end_early: opt_or(a.allow_end_early, r.allow_end_early),
    }
}

impl VotingRules {
    /// Overwrites every rule for which the adjustment holds a value.
    pub fn apply_adjustments(&mut self, adjustments: VotingRulesAdjustments)
        ensures
            *final(self) == spec_apply_adjustments(*old(self), adjustments),
    {
        if let Some(voting_period) = adjustments.voting_period {
            self.voting_period = voting_period;
        }
        if let Some(quorum) = adjustments.quorum {
            self.quorum = quorum;
        }
        if let Some(threshold) = adjustments.threshold {
            self.threshold = threshold;
        }
        if let Some(allow_end_early) = adjustments.allow_end_early {
            self.allow_end_early = allow_end_early;
        }
    }

    /// The voting period in seconds.
    pub fn voting_period_secs(&self) -> (s: u64)
        ensures
            s == self.voting_period as int * SECONDS_PER_DAY as int,
    {
        self.voting_period as u64 * SECONDS_PER_DAY
    }
}

/// Summary of the weight cast for each option.
#[derive(Clone, Copy, Debug, PartialEq, Eq, Structural)]
pub struct Votes {
    pub yes: u64,
    pub no: u64,
    pub abstain: u64,
    pub veto: u64,
}

pub open spec fn spec_total(v: Votes) -> int {
    v.yes as int + v.no as int + v.abstain as int + v.veto as int
}

pub open spec fn spec_add_vote(v: Votes, vote: Vote, weight: u64) -> Votes {
    match vote {
        Vote::Yes => Votes { yes: (v.yes + weight) as u64, ..v },
        Vote::Abstain => Votes { abstain: (v.abstain + weight) as u64, ..v },
        Vote::No => Votes { no: (v.no + weight) as u64, ..v },
        Vote::Veto => Votes { veto: (v.veto + weight) as u64, ..v },
    }
}

pub open spec fn spec_add_vote_fits(v: Votes, vote: Vote, weight: u64) -> bool {
    match vote {
        Vote::Yes => v.yes + weight <= u64::MAX,
        Vote::Abstain => v.abstain + weight <= u64::MAX,
        Vote::No => v.no + weight <= u64::MAX,
        Vote::Veto => v.veto + weight <= u64::MAX,
    }
}

impl Votes {
    /// Sum of all votes.
    pub fn total(&self) -> (t: u64)
        requires
            spec_total(*self) <= u64::MAX,
        ensures
            t == spec_total(*self),
    {
        self.yes + self.no + self.abstain + self.veto
    }

    /// A tally holding one yes vote of the given weight.
    pub fn yes(init_weight: u64) -> (v: Votes)
        ensures
            v == (Votes { yes: init_weight, no: 0, abstain: 0, veto: 0 }),
    {
        Votes { yes: init_weight, no: 0, abstain: 0, veto: 0 }
    }

    /// Adds `weight` to the tally of the chosen option.
    pub fn add_vote(&mut self, vote: Vote, weight: u64)
        requires
            spec_add_vote_fits(*old(self), vote, weight),
        ensures
            *final(self) == spec_add_vote(*old(self), vote, weight),
    {
        match vote {
            Vote::Yes => self.yes = self.yes + weight,
            Vote::Abstain => self.abstain = self.abstain + weight,
            Vote::No => self.no = self.no + weight,
            Vote::Veto => self.veto = self.veto + weight,
        }
    }
}

/// `percentage * (PRECISION_FACTOR * weight)`, rounded down.
pub open spec fn spec_applied(weight: u64, percentage: Decimal) -> int {
    spec_mul_floor(percentage, (PRECISION_FACTOR * weight) as u128)
}

/// The computation of the votes needed fits in 128 bits.
pub open spec fn votes_needed_defined(weight: u64, percentage: Decimal) -> bool {
    spec_applied(weight, percentage) + PRECISION_FACTOR <= u128::MAX
}

/// Votes needed to reach `percentage` of `weight`, rounded up (truncated to 64 bits).
pub open spec fn spec_votes_needed(weight: u64, percentage: Decimal) -> u64 {
    ((spec_applied(weight, percentage) + PRECISION_FACTOR - 1) / PRECISION_FACTOR as int) as u64
}

/// The number of votes needed to reach `percentage` of `weight`, rounding up: 8 (not 7)
/// votes are needed to reach 50% of 15.
pub fn votes_needed(weight: u64, percentage: Decimal) -> (n: u64)
    requires
        votes_needed_defined(weight, percentage),
    ensures
        n == spec_votes_needed(weight, percentage),
{
    proof {
        assert(PRECISION_FACTOR * weight <= PRECISION_FACTOR * u64::MAX) by (nonlinear_arith)
            requires weight <= u64::MAX;
    }
    let scaled: u128 = PRECISION_FACTOR * weight as u128;
    assert(scaled == (PRECISION_FACTOR * weight) as u128);
    let applied = match percentage.checked_mul_floor(scaled) {
        Some(a) => {
            assert(a == spec_applied(weight, percentage));
            a
        },
        None => {
            proof {
                assert(false);
            }
            0
        },
    };
    ((applied + PRECISION_FACTOR - 1) / PRECISION_FACTOR) as u64
}

/// A proposal with its voting state; `P` is the proposal's content.
#[derive(Clone, Debug, PartialEq, Eq)]
pub struct Proposal<P> {
    pub title: String,
    pub description: String,
    pub start_height: u64,
    pub expires: Expiration,
    pub proposal: P,
    pub status: Status,
    /// pass requirements
    pub rules: VotingRules,
    /// the total weight when the proposal started (used to calculate percentages)
    pub total_weight: u64,
    /// summary of existing votes
    pub votes: Votes,
}

/// The weights and rules that decide whether a proposal passes.
pub open spec fn spec_is_passed(
    rules: VotingRules,
    votes: Votes,
    total_weight: u64,
    expired: bool,
) -> bool {
    if spec_total(votes) < spec_votes_needed(total_weight, rules.quorum) {
        false
    } else if expired {
        votes.yes >= spec_votes_needed(
            (spec_total(votes) - votes.abstain) as u64,
            rules.threshold,
        )
    } else if rules.allow_end_early {
        votes.yes >= spec_votes_needed((total_weight - votes.abstain) as u64, rules.threshold)
    } else {
        false
    }
}

/// The inputs on which deciding `is_passed` does not overflow.
pub open spec fn is_passed_defined(
    rules: VotingRules,
    votes: Votes,
    total_weight: u64,
    expired: bool,
) -> bool {
    &&& spec_total(votes) <= u64::MAX
    &&& votes_needed_defined(total_weight, rules.quorum)
    &&& spec_total(votes) >= spec_votes_needed(total_weight, rules.quorum) ==> {
        if expired {
            votes_needed_defined((spec_total(votes) - votes.abstain) as u64, rules.threshold)
        } else if rules.allow_end_early {
            &&& votes.abstain <= total_weight
            &&& votes_needed_defined((total_weight - votes.abstain) as u64, rules.threshold)
        } else {
            true
        }
    }
}

pub open spec fn spec_current_status(
    status: Status,
    rules: VotingRules,
    votes: Votes,
    total_weight: u64,
    expired: bool,
) -> Status {
    if status == Status::Open && spec_is_passed(rules, votes, total_weight, expired) {
        Status::Passed
    } else if status == Status::Open && expired {
        Status::Rejected
    } else {
        status
    }
}

impl<P> Proposal<P> {
    pub open spec fn passed_defined(&self, block: BlockInfo) -> bool {
        is_passed_defined(
            self.rules,
            self.votes,
            self.total_weight,
            spec_is_expired(self.expires, block),
        )
    }

    pub open spec fn spec_passed(&self, block: BlockInfo) -> bool {
        spec_is_passed(
            self.rules,
            self.votes,
            self.total_weight,
            spec_is_expired(self.expires, block),
        )
    }

    pub open spec fn spec_status(&self, block: BlockInfo) -> Status {
        spec_current_status(
            self.status,
            self.rules,
            self.votes,
            self.total_weight,
            spec_is_expired(self.expires, block),
        )
    }

    /// True iff the proposal is sure to pass: the quorum is met, and either voting has
    /// ended with enough yes votes among the non-abstaining ones, or ending early is allowed
    /// and the yes votes reach the threshold even if every vote not yet cast is a no.
    pub fn is_passed(&self, block: &BlockInfo) -> (b: bool)
        requires
            self.passed_defined(*block),
        ensures
            b == self.spec_passed(*block),
    {
        let quorum = self.rules.quorum;
        let threshold = self.rules.threshold;
        let allow_end_early = self.rules.allow_end_early;
        // we always require the quorum
        if self.votes.total() < votes_needed(self.total_weight, quorum) {
            return false;
        }
        if self.expires.is_expired(block) {
            // If expired, we compare Yes votes against the total number of votes (minus abstain).
            let opinions = self.votes.total() - self.votes.abstain;
            self.votes.yes >= votes_needed(opinions, threshold)
        } else if allow_end_early {
            // If not expired, we must assume all non-votes will be cast as No.
            let possible_opinions = self.total_weight - self.votes.abstain;
            self.votes.yes >= votes_needed(possible_opinions, threshold)
        } else {
            false
        }
    }

    /// What the status should be at the given block (an open proposal becomes passed or,
    /// once expired, rejected).
    pub fn current_status(&self, block: &BlockInfo) -> (s: Status)
        requires
            self.passed_defined(*block),
        ensures
            s == self.spec_status(*block),
    {
        let mut status = self.status;
        if status == Status::Open && self.is_passed(block) {
            status = Status::Passed;
        }
        if status == Status::Open && self.expires.is_expired(block) {
            status = Status::Rejected;
        }
        status
    }

    /// Sets the status to the current one.
    pub fn update_status(&mut self, block: &BlockInfo)
        requires
            old(self).passed_defined(*block),
        ensures
            final(self).status == old(self).spec_status(*block),
            final(self).title == old(self).title,
            final(self).description == old(self).description,
            final(self).start_height == old(self).start_height,
            final(self).expires == old(self).expires,
            final(self).proposal == old(self).proposal,
            final(self).rules == old(self).rules,
            final(self).total_weight == old(self).total_weight,
            final(self).votes == old(self).votes,
    {
        self.status = self.current_status(block);
    }
}

/// A vote cast, stored under the voter's address.
#[derive(Clone, Copy, Debug, PartialEq, Eq, Structural)]
pub struct Ballot {
    pub weight: u64,
    pub vote: Vote,
}

/// The id of the next proposal, given the stored proposal count.
pub fn next_id(stored_count: Option<u64>) -> (id: u64)
    requires
        opt_or(stored_count, 0u64) < u64::MAX,
    ensures
        id == opt_or(stored_count, 0u64) + 1,
{
    let current = match stored_count {
        Some(c) => c,
        None => 0,
    };
    current + 1
}

/// Big-endian value of a byte sequence.
pub open spec fn spec_be_value(s: Seq<u8>) -> int
    decreases s.len(),
{
    if s.len() == 0 {
        0
    } else {
        spec_be_value(s.drop_last()) * 256 + s.last() as int
    }
}

/// `256^n`.
pub open spec fn pow256(n: nat) -> int
    decreases n,
{
    if n == 0 {
        1
    } else {
        256 * pow256((n - 1) as nat)
    }
}

proof fn lemma_pow256_positive(n: nat)
    ensures
        pow256(n) >= 1,
    decreases n,
{
    if n > 0 {
        lemma_pow256_positive((n - 1) as nat);
    }
}

proof fn lemma_pow256_to_seven(i: nat)
    requires
        i <= 7,
    ensures
        pow256(i) <= 72057594037927936,
    decreases 7 - i,
{
    if i < 7 {
        lemma_pow256_to_seven(i + 1);
        lemma_pow256_positive(i);
    } else {
        reveal_with_fuel(pow256, 8);
    }
}

proof fn lemma_be_value_bound(s: Seq<u8>)
    ensures
        0 <= spec_be_value(s) < pow256(s.len()),
    decreases s.len(),
{
    if s.len() > 0 {
        lemma_be_value_bound(s.drop_last());
        let p = pow256((s.len() - 1) as nat);
        let v = spec_be_value(s.drop_last());
        assert(v * 256 + s.last() < p * 256) by (nonlinear_arith)
            requires v < p, 0 <= s.last() < 256, v >= 0;
    }
}

/// Reads a proposal id: the first 8 bytes, big-endian.
pub fn parse_id(data: &[u8]) -> (r: Result<u64, String>)
    requires
        data@.len() >= 8,
    ensures
        r == Ok::<u64, String>(spec_be_value(data@.subrange(0, 8)) as u64),
        spec_be_value(data@.subrange(0, 8)) <= u64::MAX,
{
    let mut value: u64 = 0;
    let mut i: usize = 0;
    while i < 8
        invariant
            i <= 8,
            data@.len() >= 8,
            value == spec_be_value(data@.subrange(0, i as int)),
        decreases 8 - i,
    {
        proof {
            lemma_be_value_bound(data@.subrange(0, i as int));
            lemma_pow256_to_seven(i as nat);
            assert(data@.subrange(0, i + 1).drop_last() =~= data@.subrange(0, i as int));
        }
        value = value * 256 + data[i] as u64;
        i = i + 1;
    }
    proof {
        lemma_be_value_bound(data@.subrange(0, 8));
        reveal_with_fuel(pow256, 9);
    }
    Ok(value)
}

/// With a percentage of at most one, the votes needed can always be computed.
pub proof fn lemma_votes_needed_defined(weight: u64, percentage: Decimal)
    requires
        percentage.atomics <= crate::common::DECIMAL_FRACTIONAL,
    ensures
        votes_needed_defined(weight, percentage),
        spec_votes_needed(weight, percentage) <= weight,
        spec_applied(weight, percentage) <= PRECISION_FACTOR * weight,
{
    let x = PRECISION_FACTOR * weight;
    let f = crate::common::DECIMAL_FRACTIONAL as int;
    let a = percentage.atomics as int;
    assert(x <= PRECISION_FACTOR * u64::MAX) by (nonlinear_arith)
        requires weight <= u64::MAX, x == PRECISION_FACTOR * weight;
    assert((x as u128) as int == x);
    assert(x * a <= x * f) by (nonlinear_arith)
        requires a <= f, x >= 0;
    assert((x * a) / f <= (x * f) / f) by (nonlinear_arith)
        requires x * a <= x * f, f > 0;
    assert((x * f) / f == x) by (nonlinear_arith)
        requires f > 0;
    let applied = (x * a) / f;
    assert(applied == spec_applied(weight, percentage));
    assert(applied >= 0) by (nonlinear_arith)
        requires x >= 0, a >= 0, f > 0, applied == (x * a) / f;
    let p = PRECISION_FACTOR as int;
    assert((applied + p - 1) / p <= weight) by (nonlinear_arith)
        requires applied <= p * weight, p > 0, applied >= 0, weight >= 0;
}

/// The votes needed round up: they are the least number of votes whose weight, scaled, reaches
/// the percentage of the weight (for a percentage of at most one).
pub proof fn law_votes_needed_rounds_up(weight: u64, percentage: Decimal)
    requires
        percentage.atomics <= crate::common::DECIMAL_FRACTIONAL,
    ensures
        spec_votes_needed(weight, percentage) * PRECISION_FACTOR >= spec_applied(weight, percentage),
        spec_votes_needed(weight, percentage) == 0
            || (spec_votes_needed(weight, percentage) - 1) * PRECISION_FACTOR < spec_applied(weight, percentage),
{
    lemma_votes_needed_defined(weight, percentage);
    let a = spec_applied(weight, percentage);
    let p = PRECISION_FACTOR as int;
    let n = (a + p - 1) / p;
    assert(a >= 0) by {
        lemma_applied_nonneg(weight, percentage);
    }
    assert(n * p >= a && (n == 0 || (n - 1) * p < a) && n <= weight) by (nonlinear_arith)
        requires
            p > 0,
            a >= 0,
            n == (a + p - 1) / p,
            a <= p * weight,
    ;
    assert(spec_votes_needed(weight, percentage) == n);
}

proof fn lemma_applied_nonneg(weight: u64, percentage: Decimal)
    ensures
        spec_applied(weight, percentage) >= 0,
{
    let x = ((PRECISION_FACTOR * weight) as u128) as int;
    let a = percentage.atomics as int;
    let f = crate::common::DECIMAL_FRACTIONAL as int;
    assert((x * a) / f >= 0) by (nonlinear_arith)
        requires
            x >= 0,
            a >= 0,
            f > 0,
    ;
}

/// A vote adds exactly its weight to the total of the votes.
pub proof fn law_add_vote_total(votes: Votes, vote: Vote, weight: u64)
    requires
        spec_add_vote_fits(votes, vote, weight),
    ensures
        spec_total(spec_add_vote(votes, vote, weight)) == spec_total(votes) + weight,
{
}

/// Adding `w` to the weight raises the votes needed by at most `w` (for a percentage of at most
/// one), and never lowers them.
pub proof fn law_votes_needed_step(x: u64, w: u64, percentage: Decimal)
    requires
        percentage.atomics <= crate::common::DECIMAL_FRACTIONAL,
        x + w <= u64::MAX,
    ensures
        spec_votes_needed(x, percentage) <= spec_votes_needed((x + w) as u64, percentage),
        spec_votes_needed((x + w) as u64, percentage) <= spec_votes_needed(x, percentage) + w,
{
    let y = (x + w) as u64;
    lemma_votes_needed_defined(x, percentage);
    lemma_votes_needed_defined(y, percentage);
    let p = PRECISION_FACTOR as int;
    let f = crate::common::DECIMAL_FRACTIONAL as int;
    let a = percentage.atomics as int;
    let big_x = p * x;
    let big_w = p * w;
    assert(big_x <= p * u64::MAX && p * y <= p * u64::MAX) by (nonlinear_arith)
        requires
            big_x == p * x,
            x <= u64::MAX,
            y <= u64::MAX,
            p > 0,
    ;
    assert(((p * x) as u128) as int == big_x);
    assert(((p * y) as u128) as int == p * y);
    assert(p * y == big_x + big_w) by (nonlinear_arith)
        requires
            y == x + w,
            big_x == p * x,
            big_w == p * w,
    ;
    let a1 = (big_x * a) / f;
    let a2 = ((big_x + big_w) * a) / f;
    assert(spec_applied(x, percentage) == a1);
    assert(spec_applied(y, percentage) == a2);
    assert(a1 <= a2 && a2 <= a1 + big_w) by (nonlinear_arith)
        requires
            0 <= a <= f,
            f > 0,
            big_x >= 0,
            big_w >= 0,
            a1 == (big_x * a) / f,
            a2 == ((big_x + big_w) * a) / f,
    {
        assert((big_x + big_w) * a <= big_x * a + big_w * f);
        assert((big_x * a + big_w * f) / f == (big_x * a) / f + big_w);
    }
    let n1 = (a1 + p - 1) / p;
    let n2 = (a2 + p - 1) / p;
    assert(n1 <= n2 && n2 <= n1 + w) by (nonlinear_arith)
        requires
            p > 0,
            0 <= a1 <= a2,
            a2 <= a1 + big_w,
            big_w == p * w,
            n1 == (a1 + p - 1) / p,
            n2 == (a2 + p - 1) / p,
    {
        assert((a1 + big_w + p - 1) / p == (a1 + p - 1) / p + w);
    }
    assert(a1 >= 0) by {
        lemma_applied_nonneg(x, percentage);
    }
}

/// The votes needed never drop as the weight grows, as long as they fit in 64 bits.
proof fn lemma_votes_needed_monotonic(x: u64, z: u64, percentage: Decimal)
    requires
        x <= z,
        (spec_applied(z, percentage) + PRECISION_FACTOR - 1) / (PRECISION_FACTOR as int) <= u64::MAX,
    ensures
        spec_votes_needed(x, percentage) <= spec_votes_needed(z, percentage),
{
    let p = PRECISION_FACTOR as int;
    let f = crate::common::DECIMAL_FRACTIONAL as int;
    let a = percentage.atomics as int;
    assert(p * x <= p * z <= p * u64::MAX) by (nonlinear_arith)
        requires x <= z, z <= u64::MAX, p == 1_000_000_000;
    assert(((p * x) as u128) as int == p * x);
    assert(((p * z) as u128) as int == p * z);
    let ax = (p * x * a) / f;
    let az = (p * z * a) / f;
    assert(spec_applied(x, percentage) == ax);
    assert(spec_applied(z, percentage) == az);
    assert(0 <= ax <= az) by (nonlinear_arith)
        requires p * x <= p * z, a >= 0, f > 0, x >= 0, p > 0, ax == (p * x * a) / f, az == (p * z * a) / f;
    assert((ax + p - 1) / p <= (az + p - 1) / p) by (nonlinear_arith)
        requires 0 <= ax <= az, p > 0;
    assert((ax + p - 1) / p >= 0) by (nonlinear_arith)
        requires 0 <= ax, p > 0;
}

/// An early pass is final: once a proposal that may end early has passed before expiry, any
/// later votes (more of each kind, within the total weight) leave it passed, before expiry and
/// at expiry alike. This holds as long as the votes needed for the early pass fit in 64 bits;
/// beyond that they are truncated, and a later count can need more.
pub proof fn law_early_pass_stays_passed(rules: VotingRules, votes: Votes, later: Votes, total_weight: u64, expired: bool)
    requires
        spec_is_passed(rules, votes, total_weight, false),
        votes.yes <= later.yes,
        votes.no <= later.no,
        votes.abstain <= later.abstain,
        votes.veto <= later.veto,
        spec_total(later) <= total_weight,
        (spec_applied((total_weight - votes.abstain) as u64, rules.threshold) + PRECISION_FACTOR - 1)
            / (PRECISION_FACTOR as int) <= u64::MAX,
    ensures
        spec_is_passed(rules, later, total_weight, expired),
{
    let x = (spec_total(later) - later.abstain) as u64;
    let y = (total_weight - later.abstain) as u64;
    let z = (total_weight - votes.abstain) as u64;
    lemma_votes_needed_monotonic(x, z, rules.threshold);
    lemma_votes_needed_monotonic(y, z, rules.threshold);
}

/// Whether id `k` is on the listed side of `start`: after it going forward, before it going
/// backward; every id is without a start.
pub open spec fn id_in_range(start: Option<u64>, reverse: bool, k: u64) -> bool {
    match start {
        None => true,
        Some(s) => if reverse { k < s } else { k > s },
    }
}

/// Up to `limit` proposals from `start` on (exclusive), by increasing id or, with `reverse`, by
/// decreasing id, each with its status at `block`.
pub fn list_proposals<P>(
    props: &IdMap<Proposal<P>>,
    block: &BlockInfo,
    start: Option<u64>,
    limit: usize,
    reverse: bool,
) -> (r: Vec<(u64, Status)>)
    requires
        props.wf(),
        forall|k: u64| #[trigger] props.view().contains_key(k) ==> props.view()[k].passed_defined(*block),
    ensures
        r@.len() <= limit,
        forall|i: int| 0 <= i < r@.len() ==> {
            &&& props.view().contains_key(#[trigger] r@[i].0)
            &&& r@[i].1 == props.view()[r@[i].0].spec_status(*block)
            &&& id_in_range(start, reverse, r@[i].0)
        },
        forall|i: int, j: int| 0 <= i < j < r@.len() ==> (if reverse { #[trigger] r@[i].0 > #[trigger] r@[j].0 } else { r@[i].0 < r@[j].0 }),
        forall|k: u64| #[trigger] props.view().contains_key(k) && id_in_range(start, reverse, k)
            && (r@.len() < limit || (r@.len() > 0 && (if reverse { k >= r@.last().0 } else { k <= r@.last().0 })))
            ==> exists|i: int| 0 <= i < r@.len() && r@[i].0 == k,
{
    let mut out: Vec<(u64, Status)> = Vec::new();
    // the next id to look at, inclusive; `None` when the ids are exhausted
    let mut next: Option<u64> = match start {
        None => if reverse { Some(u64::MAX) } else { Some(0) },
        Some(s) => if reverse {
            if s > 0 { Some(s - 1) } else { None }
        } else {
            if s < u64::MAX { Some(s + 1) } else { None }
        },
    };
    while out.len() < limit && next.is_some()
        invariant
            props.wf(),
            forall|k: u64| #[trigger] props.view().contains_key(k) ==> props.view()[k].passed_defined(*block),
            out@.len() <= limit,
            next matches Some(n) ==> id_in_range(start, reverse, n),
            forall|i: int| 0 <= i < out@.len() ==> {
                &&& props.view().contains_key(#[trigger] out@[i].0)
                &&& out@[i].1 == props.view()[out@[i].0].spec_status(*block)
                &&& id_in_range(start, reverse, out@[i].0)
                &&& next matches Some(n) ==> (if reverse { out@[i].0 > n } else { out@[i].0 < n })
            },
            forall|i: int, j: int| 0 <= i < j < out@.len() ==> (if reverse { #[trigger] out@[i].0 > #[trigger] out@[j].0 } else { out@[i].0 < out@[j].0 }),
            forall|k: u64| #[trigger] props.view().contains_key(k) && id_in_range(start, reverse, k)
                && (next matches Some(n) ==> (if reverse { k > n } else { k < n }))
                ==> exists|i: int| 0 <= i < out@.len() && out@[i].0 == k,
            out@.len() > 0 ==> forall|k: u64| #[trigger] props.view().contains_key(k) && id_in_range(start, reverse, k)
                && (if reverse { k >= out@.last().0 } else { k <= out@.last().0 })
                ==> exists|i: int| 0 <= i < out@.len() && out@[i].0 == k,
        decreases (if next is Some { 1int } else { 0int }), (match next { Some(n) => if reverse { n as int } else { u64::MAX - n }, None => 0int }),
    {
        let n = match next { Some(n) => n, None => 0 };
        let found = if reverse {
            if props.contains(n) {
                Some(n)
            } else {
                props.largest_key_below(n)
            }
        } else {
            props.smallest_key_from(n)
        };
        let ghost before = out@;
        match found {
            None => {
                next = None;
            },
            Some(found_k) => {
                let p = props.get(found_k).unwrap();
                let st = p.current_status(block);
                out.push((found_k, st));
                next = if reverse {
                    if found_k > 0 { Some(found_k - 1) } else { None }
                } else {
                    if found_k < u64::MAX { Some(found_k + 1) } else { None }
                };
                proof {
                    assert(out@[before.len() as int] == (found_k, st));
                    assert forall|i: int| 0 <= i < before.len() implies out@[i] == before[i] by {}
                }
            },
        }
    }
    out
}

/// How the votes needed relate to the percentage itself (for a percentage of at most one):
/// `y` votes suffice when `y` is at least the percentage of `w`, and are too few when they fall
/// short of it by a whole vote or more.
pub proof fn lemma_votes_needed_bounds(w: u64, percentage: Decimal, y: int)
    requires
        percentage.atomics <= crate::common::DECIMAL_FRACTIONAL,
        y >= 0,
    ensures
        y * crate::common::DECIMAL_FRACTIONAL >= percentage.atomics * w ==> y >= spec_votes_needed(w, percentage),
        y >= spec_votes_needed(w, percentage) ==> (y + 1) * crate::common::DECIMAL_FRACTIONAL > percentage.atomics * w,
{
    lemma_votes_needed_defined(w, percentage);
    let p = PRECISION_FACTOR as int;
    let f = crate::common::DECIMAL_FRACTIONAL as int;
    let a = percentage.atomics as int;
    assert(p * w <= p * u64::MAX) by (nonlinear_arith)
        requires w <= u64::MAX, p == 1_000_000_000;
    assert(((p * w) as u128) as int == p * w);
    let applied = (p * w * a) / f;
    assert(spec_applied(w, percentage) == applied);
    assert(applied >= 0) by (nonlinear_arith)
        requires p >= 0, w >= 0, a >= 0, f > 0, applied == (p * w * a) / f;
    let needed = (applied + p - 1) / p;
    assert(spec_votes_needed(w, percentage) == needed);
    if y * f >= a * w {
        assert(y >= needed) by (nonlinear_arith)
            requires y * f >= a * w, f > 0, p > 0, applied == (p * w * a) / f, needed == (applied + p - 1) / p,
                applied >= 0;
    }
    if y >= needed {
        assert((y + 1) * f > a * w) by (nonlinear_arith)
            requires y >= needed, f > 0, p > 0, f >= p, applied == (p * w * a) / f, needed == (applied + p - 1) / p,
                applied >= 0, y >= 0;
    }
}

/// What passing a vote means, over the percentages themselves (for quorum and threshold of at
/// most one): the votes cast must reach the quorum of the total weight; then, once voting has
/// ended, the yes votes must reach the threshold of the votes cast without abstentions, and
/// before that (only where ending early is allowed) the threshold of the total weight without
/// abstentions. Falling short by a whole vote or more fails; reaching the percentage passes.
pub proof fn law_passing_means_reaching_percentages(rules: VotingRules, votes: Votes, total_weight: u64, expired: bool)
    requires
        rules.quorum.atomics <= crate::common::DECIMAL_FRACTIONAL,
        rules.threshold.atomics <= crate::common::DECIMAL_FRACTIONAL,
        spec_total(votes) <= total_weight,
    ensures
        ({
            let f = crate::common::DECIMAL_FRACTIONAL as int;
            let cast = spec_total(votes);
            let base = if expired { cast - votes.abstain } else { total_weight - votes.abstain };
            &&& (cast * f >= rules.quorum.atomics * total_weight && (expired || rules.allow_end_early)
                && votes.yes * f >= rules.threshold.atomics * base) ==> spec_is_passed(rules, votes, total_weight, expired)
            &&& spec_is_passed(rules, votes, total_weight, expired) ==> {
                &&& (cast + 1) * f > rules.quorum.atomics * total_weight
                &&& expired || rules.allow_end_early
                &&& (votes.yes + 1) * f > rules.threshold.atomics * base
            }
        }),
{
    lemma_votes_needed_bounds(total_weight, rules.quorum, spec_total(votes));
    lemma_votes_needed_bounds((spec_total(votes) - votes.abstain) as u64, rules.threshold, votes.yes as int);
    lemma_votes_needed_bounds((total_weight - votes.abstain) as u64, rules.threshold, votes.yes as int);
}

} // verus!
