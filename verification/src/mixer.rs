//! The mixer group: a member's weight is a mix (the geometric mean) of its weights in two
//! other groups; members of only one of them are not members.
use crate::addr_map::AddrMap;
use crate::group::{
    members_total, opt_weight, remove_member, set_member_weight, MemberDiff,
};
use rust_decimal::prelude::ToPrimitive;
use rust_decimal::MathematicalOps;
use vstd::prelude::*;

verus! {

/// Errors of the mixer.
#[derive(Clone, Debug, PartialEq, Eq)]
pub enum MixerError {
    Unauthorized,
    /// Overflow when multiplying group weights: the product must be less than 2^64.
    WeightOverflow,
    RewardOverflow,
    /// A step of the sigmoid computation overflowed.
    ComputationOverflow(Step),
    /// The total weight overflowed.
    Overflow,
    /// An address the chain does not accept.
    InvalidAddress(String),
}

/// `r` is the integer square root of `n`.
pub open spec fn is_isqrt(n: int, r: int) -> bool {
    r >= 0 && r * r <= n < (r + 1) * (r + 1)
}

/// The integer square root (rounded down).
pub open spec fn isqrt(n: int) -> int {
    choose|r: int| is_isqrt(n, r)
}

proof fn lemma_isqrt_unique(n: int, r: int, s: int)
    requires
        is_isqrt(n, r),
        is_isqrt(n, s),
    ensures
        r == s,
{
    if r < s {
        assert((r + 1) * (r + 1) <= s * s) by (nonlinear_arith)
            requires r + 1 <= s, r >= 0;
    } else if s < r {
        assert((s + 1) * (s + 1) <= r * r) by (nonlinear_arith)
            requires s + 1 <= r, s >= 0;
    }
}

proof fn lemma_isqrt_exists(n: int)
    requires
        n >= 0,
    ensures
        exists|r: int| #[trigger] is_isqrt(n, r),
    decreases n,
{
    if n == 0 {
        assert(is_isqrt(0, 0));
    } else {
        lemma_isqrt_exists(n - 1);
        let r = choose|r: int| #[trigger] is_isqrt(n - 1, r);
        if (r + 1) * (r + 1) <= n {
            assert(is_isqrt(n, r + 1)) by (nonlinear_arith)
                requires
                    r >= 0,
                    r * r <= n - 1,
                    n - 1 < (r + 1) * (r + 1),
                    (r + 1) * (r + 1) <= n,
            ;
        } else {
            assert(is_isqrt(n, r));
        }
    }
}

/// Calls `integer_sqrt` of the `integer-sqrt` crate on a `u64`, which returns the largest `r`
/// with `r * r <= n` (it panics only on negative numbers of signed types).
#[verifier::external_body]
fn integer_sqrt_u64(n: u64) -> (r: u64)
    ensures
        is_isqrt(n as int, r as int),
{
    integer_sqrt::IntegerSquareRoot::integer_sqrt(&n)
}

/// Integer square root of a `u64`.
pub fn integer_sqrt(n: u64) -> (r: u64)
    ensures
        r == isqrt(n as int),
        is_isqrt(n as int, r as int),
{
    let r = integer_sqrt_u64(n);
    proof {
        let s = isqrt(n as int);
        assert(is_isqrt(n as int, s));
        lemma_isqrt_unique(n as int, r as int, s);
    }
    r
}

/// The geometric mean of two weights, rounded down; `None` when the product overflows.
pub open spec fn spec_mixer(left: u64, right: u64) -> Option<u64> {
    if left * right > u64::MAX {
        None
    } else {
        Some(isqrt(left * right) as u64)
    }
}

/// Mixes two weights: the integer square root of their product, which must fit in 64 bits.
pub fn mixer_fn(left: u64, right: u64) -> (r: Result<u64, MixerError>)
    ensures
        spec_mixer(left, right) matches Some(w) ==> r == Ok::<u64, MixerError>(w),
        spec_mixer(left, right) is None ==> r == Err::<u64, MixerError>(MixerError::WeightOverflow),
{
    let mult = match left.checked_mul(right) {
        Some(m) => m,
        None => return Err(MixerError::WeightOverflow),
    };
    Ok(integer_sqrt(mult))
}

/// The proof-of-engagement function that takes the geometric mean of stake and engagement.
#[derive(Clone, Copy, Debug, PartialEq, Eq, Structural)]
pub struct GeometricMean {}

impl Default for GeometricMean {
    fn default() -> (g: GeometricMean)
        ensures
            g == (GeometricMean {}),
    {
        GeometricMean {}
    }
}

impl GeometricMean {
    pub fn new() -> (g: GeometricMean)
        ensures
            g == (GeometricMean {}),
    {
        GeometricMean {}
    }

    /// Rewards for the given stake and engagement: their geometric mean, rounded down.
    pub fn rewards(&self, stake: u64, engagement: u64) -> (r: Result<u64, MixerError>)
        ensures
            spec_mixer(stake, engagement) matches Some(w) ==> r == Ok::<u64, MixerError>(w),
            spec_mixer(stake, engagement) is None ==> r == Err::<u64, MixerError>(
                MixerError::WeightOverflow,
            ),
    {
        mixer_fn(stake, engagement)
    }
}

/// The mixed weight of a changed member: its new weight mixed with its weight in the other
/// group, when it is a member of both; `Err(())` on overflow.
pub open spec fn spec_mixed(new: Option<u64>, other: Option<u64>) -> Result<Option<u64>, ()> {
    match (new, other) {
        (Some(x), Some(y)) => match spec_mixer(x, y) {
            Some(w) => Ok(Some(w)),
            None => Err(()),
        },
        _ => Ok(None),
    }
}

/// Members, total and diffs after applying each change in turn.
pub open spec fn spec_mix_changes(
    members: Map<Seq<char>, u64>,
    total: int,
    changes: Seq<(Seq<char>, Option<u64>)>,
    others: Seq<Option<u64>>,
    keys: Seq<String>,
    valid: Seq<bool>,
) -> Result<(Map<Seq<char>, u64>, int, Seq<(Seq<char>, Option<u64>, Option<u64>)>), MixerError>
    decreases changes.len(),
{
    if changes.len() == 0 {
        Ok((members, total, Seq::empty()))
    } else {
        let n = (changes.len() - 1) as int;
        match spec_mix_changes(members, total, changes.drop_last(), others, keys, valid) {
            Err(e) => Err(e),
            Ok((m, t, d)) => if !valid[n] {
                Err(MixerError::InvalidAddress(keys[n]))
            } else {
                let (a, new) = changes[n];
                match spec_mixed(new, others[n]) {
                    Err(_) => Err(MixerError::WeightOverflow),
                    Ok(w) => {
                        let t1 = t - opt_weight(m, a) + match w {
                            Some(x) => x as int,
                            None => 0,
                        };
                        if t1 > u64::MAX {
                            Err(MixerError::Overflow)
                        } else {
                            let m1 = match w {
                                Some(x) => m.insert(a, x),
                                None => m.remove(a),
                            };
                            Ok((m1, t1, d.push((a, m.get(a), w))))
                        }
                    },
                }
            },
        }
    }
}

pub open spec fn change_keys(v: Seq<MemberDiff>) -> Seq<String> {
    v.map_values(|d: MemberDiff| d.key)
}

pub open spec fn change_pairs(v: Seq<MemberDiff>) -> Seq<(Seq<char>, Option<u64>)> {
    v.map_values(|d: MemberDiff| (d.key@, d.new))
}

pub open spec fn diff_triples(v: Seq<MemberDiff>) -> Seq<(Seq<char>, Option<u64>, Option<u64>)> {
    v.map_values(|d: MemberDiff| (d.key@, d.old, d.new))
}

/// Applies the changes reported by one of the two groups: `valid[i]` is whether the chain
/// accepts the address of `changes[i]` (the first refused address is the error), and
/// `others[i]` is the weight, in the other group, of the member of `changes[i]`. A member gets the mixed weight when it has a
/// weight in both groups, and stops being a member otherwise; the total follows. Returns the
/// diffs of the mixer's own membership.
pub fn update_members(
    members: &mut AddrMap<u64>,
    total: &mut u64,
    changes: &Vec<MemberDiff>,
    valid: &Vec<bool>,
    others: &Vec<Option<u64>>,
) -> (r: Result<Vec<MemberDiff>, MixerError>)
    requires
        old(members).wf(),
        *old(total) == members_total(*old(members)),
        others@.len() == changes@.len(),
        valid@.len() == changes@.len(),
    ensures
        final(members).wf(),
        *final(total) == members_total(*final(members)),
        match spec_mix_changes(old(members)@, *old(total) as int, change_pairs(changes@), others@, change_keys(changes@), valid@) {
            Err(e) => r == Err::<Vec<MemberDiff>, MixerError>(e),
            Ok((m, t, d)) => r is Ok && final(members)@ == m && *final(total) == t && diff_triples(r.unwrap()@) == d,
        },
        r is Err ==> *final(members) == *old(members) && *final(total) == *old(total),
{
    let mut m = members.copy();
    let mut t = *total;
    let r = apply_mixed_changes(&mut m, &mut t, changes, valid, others);
    if r.is_ok() {
        *members = m;
        *total = t;
    }
    r
}

/// In place, leaving partial changes on an error (see [`update_members`]).
fn apply_mixed_changes(
    members: &mut AddrMap<u64>,
    total: &mut u64,
    changes: &Vec<MemberDiff>,
    valid: &Vec<bool>,
    others: &Vec<Option<u64>>,
) -> (r: Result<Vec<MemberDiff>, MixerError>)
    requires
        old(members).wf(),
        *old(total) == members_total(*old(members)),
        others@.len() == changes@.len(),
        valid@.len() == changes@.len(),
    ensures
        final(members).wf(),
        *final(total) == members_total(*final(members)),
        match spec_mix_changes(old(members)@, *old(total) as int, change_pairs(changes@), others@, change_keys(changes@), valid@) {
            Err(e) => r == Err::<Vec<MemberDiff>, MixerError>(e),
            Ok((m, t, d)) => r is Ok && final(members)@ == m && *final(total) == t && diff_triples(r.unwrap()@) == d,
        },
{
    let ghost m0 = members@;
    let ghost t0 = *total as int;
    let ghost ch = change_pairs(changes@);
    let mut diffs: Vec<MemberDiff> = Vec::new();
    proof {
        assert(diff_triples(diffs@) =~= Seq::<(Seq<char>, Option<u64>, Option<u64>)>::empty());
        assert(ch.subrange(0, 0) =~= Seq::<(Seq<char>, Option<u64>)>::empty());
    }
    let mut i: usize = 0;
    while i < changes.len()
        invariant
            members.wf(),
            *total == members_total(*members),
            i <= changes@.len(),
            others@.len() == changes@.len(),
            valid@.len() == changes@.len(),
            ch == change_pairs(changes@),
            m0 == old(members)@,
            t0 == *old(total) as int,
            spec_mix_changes(m0, t0, ch.subrange(0, i as int), others@, change_keys(changes@), valid@) == Ok::<
                (Map<Seq<char>, u64>, int, Seq<(Seq<char>, Option<u64>, Option<u64>)>),
                MixerError,
            >((members@, *total as int, diff_triples(diffs@))),
        decreases changes@.len() - i,
    {
        let ghost prefix = ch.subrange(0, i as int);
        let ghost next = ch.subrange(0, i + 1);
        proof {
            assert(next.drop_last() =~= prefix);
            assert(next[i as int] == ch[i as int]);
        }
        let change = &changes[i];
        if !valid[i] {
            proof {
                assert(change_keys(changes@)[i as int] == change.key);
                lemma_mix_error_sticks(m0, t0, ch, others@, change_keys(changes@), valid@, i + 1);
                assert(ch.subrange(0, ch.len() as int) =~= ch);
            }
            return Err(MixerError::InvalidAddress(change.key.clone()));
        }
        let new_weight = match change.new {
            Some(x) => match others[i] {
                Some(y) => match mixer_fn(x, y) {
                    Ok(w) => Some(w),
                    Err(e) => {
                        proof {
                            lemma_mix_error_sticks(m0, t0, ch, others@, change_keys(changes@), valid@, i + 1);
                            assert(ch.subrange(0, ch.len() as int) =~= ch);
                        }
                        return Err(e);
                    },
                },
                None => None,
            },
            None => None,
        };
        proof {
            if members@.contains_key(change.key@) {
                let k = members.index_of(change.key@);
                members.lemma_index(k);
                crate::group::lemma_total_at_least(*members, k);
            }
        }
        let prev = members.get(&change.key);
        let p = match prev {
            Some(w) => w,
            None => 0,
        };
        let add = match new_weight {
            Some(w) => w,
            None => 0,
        };
        if *total - p > u64::MAX - add {
            proof {
                lemma_mix_error_sticks(m0, t0, ch, others@, change_keys(changes@), valid@, i + 1);
                assert(ch.subrange(0, ch.len() as int) =~= ch);
            }
            return Err(MixerError::Overflow);
        }
        let ghost d_before = diffs@;
        match new_weight {
            Some(w) => {
                set_member_weight(members, total, change.key.clone(), w);
            },
            None => {
                remove_member(members, total, &change.key);
            },
        }
        diffs.push(MemberDiff { key: change.key.clone(), old: prev, new: new_weight });
        proof {
            assert(diff_triples(diffs@) =~= diff_triples(d_before).push((change.key@, prev, new_weight)));
        }
        i = i + 1;
    }
    proof {
        assert(ch.subrange(0, i as int) =~= ch);
    }
    Ok(diffs)
}

proof fn lemma_mix_error_sticks(
    members: Map<Seq<char>, u64>,
    total: int,
    changes: Seq<(Seq<char>, Option<u64>)>,
    others: Seq<Option<u64>>,
    keys: Seq<String>,
    valid: Seq<bool>,
    k: int,
)
    requires
        0 <= k <= changes.len(),
        spec_mix_changes(members, total, changes.subrange(0, k), others, keys, valid) is Err,
    ensures
        spec_mix_changes(members, total, changes, others, keys, valid) == spec_mix_changes(
            members,
            total,
            changes.subrange(0, k),
            others,
            keys,
            valid,
        ),
    decreases changes.len() - k,
{
    if k < changes.len() {
        assert(changes.subrange(0, k + 1).drop_last() =~= changes.subrange(0, k));
        lemma_mix_error_sticks(members, total, changes, others, keys, valid, k + 1);
    } else {
        assert(changes.subrange(0, k) =~= changes);
    }
}

/// A step of the sigmoid computation.
#[derive(Clone, Copy, Debug, PartialEq, Eq, Structural)]
pub enum Step {
    Powd,
    Mul,
    Add,
    Div,
    Sub,
}

/// A decimal of the `rust_decimal` crate as plain values: `mantissa / 10^scale`, negative
/// when `negative` is set (which also marks a negative zero).
#[derive(Clone, Copy, Debug, PartialEq, Eq, Structural)]
pub struct Fixed {
    pub mantissa: i128,
    pub scale: u32,
    pub negative: bool,
}

/// Largest mantissa a `rust_decimal` decimal holds (96 bits).
pub const MAX_MANTISSA: i128 = 0xFFFF_FFFF_FFFF_FFFF_FFFF_FFFFi128;

impl Fixed {
    /// Whether this is a decimal `rust_decimal` can hold: 96 bits of mantissa, sign matching
    /// the mantissa's, scale at most 28.
    pub open spec fn valid(&self) -> bool {
        &&& -MAX_MANTISSA <= self.mantissa <= MAX_MANTISSA
        &&& self.scale <= 28
        &&& (self.mantissa < 0 ==> self.negative)
        &&& (self.mantissa > 0 ==> !self.negative)
    }

    pub open spec fn view(&self) -> (i128, u32, bool) {
        (self.mantissa, self.scale, self.negative)
    }
}

/// The view of an optional decimal.
pub open spec fn fixed_opt_view(o: Option<Fixed>) -> Option<(i128, u32, bool)> {
    match o {
        Some(f) => Some(f@),
        None => None,
    }
}

/// What `rust_decimal`'s `checked_powd` gives for base `x` and exponent `p`.
pub uninterp spec fn decimal_powd(x: (i128, u32, bool), p: (i128, u32, bool)) -> Option<(i128, u32, bool)>;

/// What `rust_decimal`'s `Decimal::checked_mul` gives for `x * y`.
pub uninterp spec fn decimal_mul(x: (i128, u32, bool), y: (i128, u32, bool)) -> Option<(i128, u32, bool)>;

/// What `rust_decimal`'s `Decimal::checked_add` gives for `x + y`.
pub uninterp spec fn decimal_add(x: (i128, u32, bool), y: (i128, u32, bool)) -> Option<(i128, u32, bool)>;

/// What `rust_decimal`'s `Decimal::checked_sub` gives for `x - y`.
pub uninterp spec fn decimal_sub(x: (i128, u32, bool), y: (i128, u32, bool)) -> Option<(i128, u32, bool)>;

/// What `rust_decimal`'s `Decimal::checked_div` gives for `x / y`.
pub uninterp spec fn decimal_div(x: (i128, u32, bool), y: (i128, u32, bool)) -> Option<(i128, u32, bool)>;

/// What `rust_decimal`'s `checked_exp` gives for `e^x`.
pub uninterp spec fn decimal_exp(x: (i128, u32, bool)) -> Option<(i128, u32, bool)>;

/// What `rust_decimal`'s `to_u64` gives for `x`: its integer part, if it is a `u64`.
pub uninterp spec fn decimal_to_u64(x: (i128, u32, bool)) -> Option<u64>;

/// `x` raised to the decimal power `p` with `rust_decimal`'s `checked_powd` (`None` on
/// overflow). Claimed: the result is `decimal_powd` of the two and a valid decimal.
#[verifier::external_body]
fn fixed_powd(x: Fixed, p: Fixed) -> (r: Option<Fixed>)
    requires
        x.valid(),
        p.valid(),
    ensures
        fixed_opt_view(r) == decimal_powd(x@, p@),
        r matches Some(v) ==> v.valid(),
{
    let mut a = rust_decimal::Decimal::from_i128_with_scale(x.mantissa, x.scale);
    a.set_sign_negative(x.negative);
    let mut b = rust_decimal::Decimal::from_i128_with_scale(p.mantissa, p.scale);
    b.set_sign_negative(p.negative);
    match a.checked_powd(b) {
        Some(d) => Some(Fixed { mantissa: d.mantissa(), scale: d.scale(), negative: d.is_sign_negative() }),
        None => None,
    }
}

/// `x * y` with `rust_decimal`'s `Decimal::checked_mul` (`None` on overflow). Claimed: the
/// result is `decimal_mul` of the two and a valid decimal.
#[verifier::external_body]
fn fixed_mul(x: Fixed, y: Fixed) -> (r: Option<Fixed>)
    requires
        x.valid(),
        y.valid(),
    ensures
        fixed_opt_view(r) == decimal_mul(x@, y@),
        r matches Some(v) ==> v.valid(),
{
    let mut a = rust_decimal::Decimal::from_i128_with_scale(x.mantissa, x.scale);
    a.set_sign_negative(x.negative);
    let mut b = rust_decimal::Decimal::from_i128_with_scale(y.mantissa, y.scale);
    b.set_sign_negative(y.negative);
    match a.checked_mul(b) {
        Some(d) => Some(Fixed { mantissa: d.mantissa(), scale: d.scale(), negative: d.is_sign_negative() }),
        None => None,
    }
}

/// `x + y` with `rust_decimal`'s `Decimal::checked_add` (`None` on overflow). Claimed: the
/// result is `decimal_add` of the two and a valid decimal.
#[verifier::external_body]
fn fixed_add(x: Fixed, y: Fixed) -> (r: Option<Fixed>)
    requires
        x.valid(),
        y.valid(),
    ensures
        fixed_opt_view(r) == decimal_add(x@, y@),
        r matches Some(v) ==> v.valid(),
{
    let mut a = rust_decimal::Decimal::from_i128_with_scale(x.mantissa, x.scale);
    a.set_sign_negative(x.negative);
    let mut b = rust_decimal::Decimal::from_i128_with_scale(y.mantissa, y.scale);
    b.set_sign_negative(y.negative);
    match a.checked_add(b) {
        Some(d) => Some(Fixed { mantissa: d.mantissa(), scale: d.scale(), negative: d.is_sign_negative() }),
        None => None,
    }
}

/// `x - y` with `rust_decimal`'s `Decimal::checked_sub` (`None` on overflow). Claimed: the
/// result is `decimal_sub` of the two and a valid decimal.
#[verifier::external_body]
fn fixed_sub(x: Fixed, y: Fixed) -> (r: Option<Fixed>)
    requires
        x.valid(),
        y.valid(),
    ensures
        fixed_opt_view(r) == decimal_sub(x@, y@),
        r matches Some(v) ==> v.valid(),
{
    let mut a = rust_decimal::Decimal::from_i128_with_scale(x.mantissa, x.scale);
    a.set_sign_negative(x.negative);
    let mut b = rust_decimal::Decimal::from_i128_with_scale(y.mantissa, y.scale);
    b.set_sign_negative(y.negative);
    match a.checked_sub(b) {
        Some(d) => Some(Fixed { mantissa: d.mantissa(), scale: d.scale(), negative: d.is_sign_negative() }),
        None => None,
    }
}

/// `x / y` with `rust_decimal`'s `Decimal::checked_div` (`None` on overflow or a zero divisor).
/// Claimed: the result is `decimal_div` of the two and a valid decimal.
#[verifier::external_body]
fn fixed_div(x: Fixed, y: Fixed) -> (r: Option<Fixed>)
    requires
        x.valid(),
        y.valid(),
    ensures
        fixed_opt_view(r) == decimal_div(x@, y@),
        r matches Some(v) ==> v.valid(),
{
    let mut a = rust_decimal::Decimal::from_i128_with_scale(x.mantissa, x.scale);
    a.set_sign_negative(x.negative);
    let mut b = rust_decimal::Decimal::from_i128_with_scale(y.mantissa, y.scale);
    b.set_sign_negative(y.negative);
    match a.checked_div(b) {
        Some(d) => Some(Fixed { mantissa: d.mantissa(), scale: d.scale(), negative: d.is_sign_negative() }),
        None => None,
    }
}

/// `e^x` with `rust_decimal`'s `checked_exp` (`None` when it cannot be represented). Claimed:
/// the result is `decimal_exp` of `x` and a valid decimal.
#[verifier::external_body]
fn fixed_exp(x: Fixed) -> (r: Option<Fixed>)
    requires
        x.valid(),
    ensures
        fixed_opt_view(r) == decimal_exp(x@),
        r matches Some(v) ==> v.valid(),
{
    let mut a = rust_decimal::Decimal::from_i128_with_scale(x.mantissa, x.scale);
    a.set_sign_negative(x.negative);
    match a.checked_exp() {
        Some(d) => Some(Fixed { mantissa: d.mantissa(), scale: d.scale(), negative: d.is_sign_negative() }),
        None => None,
    }
}

/// The integer part of `x` as a `u64` with `rust_decimal`'s `to_u64` (`None` when negative or
/// too large). Claimed: the result is `decimal_to_u64` of `x`.
#[verifier::external_body]
fn fixed_to_u64(x: Fixed) -> (r: Option<u64>)
    requires
        x.valid(),
    ensures
        r == decimal_to_u64(x@),
{
    let mut a = rust_decimal::Decimal::from_i128_with_scale(x.mantissa, x.scale);
    a.set_sign_negative(x.negative);
    a.to_u64()
}

/// `-x`: the sign flips (`rust_decimal` negates a decimal by its sign alone).
pub open spec fn spec_neg(x: Fixed) -> Fixed {
    Fixed { mantissa: (-x.mantissa) as i128, scale: x.scale, negative: !x.negative }
}

/// The decimal of a whole number.
pub open spec fn spec_whole(n: u64) -> Fixed {
    Fixed { mantissa: n as i128, scale: 0, negative: false }
}

/// A decimal of the chain (18 decimal places) as a `rust_decimal` decimal.
pub open spec fn spec_std_to_decimal(d: crate::common::Decimal) -> Fixed {
    Fixed { mantissa: d.atomics as i128, scale: 18, negative: false }
}

/// Converts a decimal of the chain, which must fit in 96 bits of mantissa.
pub fn std_to_decimal(d: crate::common::Decimal) -> (x: Fixed)
    requires
        d.atomics <= MAX_MANTISSA,
    ensures
        x == spec_std_to_decimal(d),
        x.valid(),
{
    Fixed { mantissa: d.atomics as i128, scale: 18, negative: false }
}

/// The sigmoid-like proof-of-engagement function of the PoE whitepaper:
/// `max_rewards * (2 / (1 + e^(-s * stake^p * engagement^p)) - 1)`.
#[derive(Clone, Copy, Debug, PartialEq, Eq, Structural)]
pub struct Sigmoid {
    pub max_rewards: u64,
    pub p: Fixed,
    pub s: Fixed,
}

/// The steps after the powers: the product, the exponential (zero where it cannot be
/// represented), and the scaling into `[0, max_rewards]`.
pub open spec fn spec_sigmoid_tail(max_rewards: u64, s: Fixed, lp: (i128, u32, bool), rp: (i128, u32, bool)) -> Result<u64, MixerError> {
    match decimal_mul(lp, rp) {
        None => Err(MixerError::ComputationOverflow(Step::Mul)),
        Some(m) => match decimal_mul(spec_neg(s)@, m) {
            None => Err(MixerError::ComputationOverflow(Step::Mul)),
            Some(x) => {
                let e = match decimal_exp(x) {
                    Some(e) => e,
                    None => spec_whole(0)@,
                };
                match decimal_add(spec_whole(1)@, e) {
                    None => Err(MixerError::ComputationOverflow(Step::Add)),
                    Some(d) => match decimal_div(spec_whole(2)@, d) {
                        None => Err(MixerError::ComputationOverflow(Step::Div)),
                        Some(q) => match decimal_sub(q, spec_whole(1)@) {
                            None => Err(MixerError::ComputationOverflow(Step::Sub)),
                            Some(w) => match decimal_mul(spec_whole(max_rewards)@, w) {
                                None => Err(MixerError::ComputationOverflow(Step::Mul)),
                                Some(reward) => match decimal_to_u64(reward) {
                                    None => Err(MixerError::RewardOverflow),
                                    Some(v) => Ok(v),
                                },
                            },
                        },
                    },
                }
            },
        },
    }
}

/// The rewards of the sigmoid for `stake` and `engagement`.
pub open spec fn spec_sigmoid_rewards(sig: Sigmoid, stake: u64, engagement: u64) -> Result<u64, MixerError> {
    if stake > i64::MAX || engagement > i64::MAX {
        Err(MixerError::WeightOverflow)
    } else if sig.max_rewards > i64::MAX {
        Err(MixerError::RewardOverflow)
    } else {
        match decimal_powd(spec_whole(stake)@, sig.p@) {
            None => Err(MixerError::ComputationOverflow(Step::Powd)),
            Some(lp) => match decimal_powd(spec_whole(engagement)@, sig.p@) {
                None => Err(MixerError::ComputationOverflow(Step::Powd)),
                Some(rp) => spec_sigmoid_tail(sig.max_rewards, sig.s, lp, rp),
            },
        }
    }
}

impl Sigmoid {
    /// The sigmoid with the given maximum and parameters; each parameter must fit in 96 bits
    /// of mantissa.
    pub fn new(max_rewards: u64, p: crate::common::Decimal, s: crate::common::Decimal) -> (r: Sigmoid)
        requires
            p.atomics <= MAX_MANTISSA,
            s.atomics <= MAX_MANTISSA,
        ensures
            r == (Sigmoid { max_rewards, p: spec_std_to_decimal(p), s: spec_std_to_decimal(s) }),
    {
        Sigmoid { max_rewards, p: std_to_decimal(p), s: std_to_decimal(s) }
    }

    pub open spec fn wf(&self) -> bool {
        self.p.valid() && self.s.valid()
    }

    /// The sigmoid rewards for `stake` and `engagement`; which step overflowed when it fails.
    pub fn rewards(&self, stake: u64, engagement: u64) -> (r: Result<u64, MixerError>)
        requires
            self.wf(),
        ensures
            r == spec_sigmoid_rewards(*self, stake, engagement),
    {
        if stake > i64::MAX as u64 || engagement > i64::MAX as u64 {
            return Err(MixerError::WeightOverflow);
        }
        if self.max_rewards > i64::MAX as u64 {
            return Err(MixerError::RewardOverflow);
        }
        let left = Fixed { mantissa: stake as i128, scale: 0, negative: false };
        let right = Fixed { mantissa: engagement as i128, scale: 0, negative: false };
        let lp = match fixed_powd(left, self.p) {
            None => return Err(MixerError::ComputationOverflow(Step::Powd)),
            Some(v) => v,
        };
        let rp = match fixed_powd(right, self.p) {
            None => return Err(MixerError::ComputationOverflow(Step::Powd)),
            Some(v) => v,
        };
        sigmoid_tail(self.max_rewards, self.s, lp, rp)
    }
}

/// The sigmoid's steps after the powers `lp` and `rp` of stake and engagement.
pub fn sigmoid_tail(max_rewards: u64, s: Fixed, lp: Fixed, rp: Fixed) -> (r: Result<u64, MixerError>)
    requires
        max_rewards <= i64::MAX,
        s.valid(),
        lp.valid(),
        rp.valid(),
    ensures
        r == spec_sigmoid_tail(max_rewards, s, lp@, rp@),
{
    let zero = Fixed { mantissa: 0, scale: 0, negative: false };
    let one = Fixed { mantissa: 1, scale: 0, negative: false };
    let two = Fixed { mantissa: 2, scale: 0, negative: false };
    let m = match fixed_mul(lp, rp) {
        None => return Err(MixerError::ComputationOverflow(Step::Mul)),
        Some(v) => v,
    };
    let neg_s = Fixed { mantissa: -s.mantissa, scale: s.scale, negative: !s.negative };
    let x = match fixed_mul(neg_s, m) {
        None => return Err(MixerError::ComputationOverflow(Step::Mul)),
        Some(v) => v,
    };
    let e = match fixed_exp(x) {
        None => zero,
        Some(v) => v,
    };
    let d = match fixed_add(one, e) {
        None => return Err(MixerError::ComputationOverflow(Step::Add)),
        Some(v) => v,
    };
    let q = match fixed_div(two, d) {
        None => return Err(MixerError::ComputationOverflow(Step::Div)),
        Some(v) => v,
    };
    let w = match fixed_sub(q, one) {
        None => return Err(MixerError::ComputationOverflow(Step::Sub)),
        Some(v) => v,
    };
    let r_max = Fixed { mantissa: max_rewards as i128, scale: 0, negative: false };
    let reward = match fixed_mul(r_max, w) {
        None => return Err(MixerError::ComputationOverflow(Step::Mul)),
        Some(v) => v,
    };
    match fixed_to_u64(reward) {
        None => Err(MixerError::RewardOverflow),
        Some(v) => Ok(v),
    }
}

/// Which proof-of-engagement function the mixer uses, as configured.
#[derive(Clone, Copy, Debug, PartialEq, Eq, Structural)]
pub enum PoEFunctionType {
    /// The geometric mean of stake and engagement.
    GeometricMean,
    /// A sigmoid-like function of stake times engagement.
    Sigmoid { max_rewards: u64, p: crate::common::Decimal, s: crate::common::Decimal },
}

/// A proof-of-engagement function, ready to compute rewards.
#[derive(Clone, Copy, Debug, PartialEq, Eq, Structural)]
pub enum PoEFunction {
    GeometricMean(GeometricMean),
    Sigmoid(Sigmoid),
}

impl PoEFunctionType {
    /// The configured function; the sigmoid's parameters must fit in 96 bits of mantissa.
    pub fn to_poe_fn(&self) -> (f: PoEFunction)
        requires
            self matches PoEFunctionType::Sigmoid { p, s, .. } ==> p.atomics <= MAX_MANTISSA && s.atomics <= MAX_MANTISSA,
        ensures
            f == (match *self {
                PoEFunctionType::GeometricMean => PoEFunction::GeometricMean(GeometricMean {}),
                PoEFunctionType::Sigmoid { max_rewards, p, s } => PoEFunction::Sigmoid(
                    Sigmoid { max_rewards, p: spec_std_to_decimal(p), s: spec_std_to_decimal(s) },
                ),
            }),
            f matches PoEFunction::Sigmoid(sig) ==> sig.wf(),
    {
        match *self {
            PoEFunctionType::GeometricMean => PoEFunction::GeometricMean(GeometricMean::new()),
            PoEFunctionType::Sigmoid { max_rewards, p, s } => PoEFunction::Sigmoid(Sigmoid::new(max_rewards, p, s)),
        }
    }
}

impl PoEFunction {
    /// The rewards for `stake` and `engagement`.
    pub fn rewards(&self, stake: u64, engagement: u64) -> (r: Result<u64, MixerError>)
        requires
            self matches PoEFunction::Sigmoid(sig) ==> sig.wf(),
        ensures
            r == (match *self {
                PoEFunction::GeometricMean(_) => match spec_mixer(stake, engagement) {
                    Some(w) => Ok::<u64, MixerError>(w),
                    None => Err(MixerError::WeightOverflow),
                },
                PoEFunction::Sigmoid(sig) => spec_sigmoid_rewards(sig, stake, engagement),
            }),
    {
        match self {
            PoEFunction::GeometricMean(g) => g.rewards(stake, engagement),
            PoEFunction::Sigmoid(sig) => sig.rewards(stake, engagement),
        }
    }
}

/// The two groups the mixer listens to.
#[derive(Debug, PartialEq, Eq)]
pub struct GroupsResponse {
    pub left: String,
    pub right: String,
}

/// How many pre-authorizations are left.
#[derive(Clone, Copy, Debug, PartialEq, Eq, Structural)]
pub struct PreauthResponse {
    pub preauths: u64,
}

/// The two groups mixed.
#[derive(Clone, Debug, PartialEq, Eq)]
pub struct Groups {
    pub left: String,
    pub right: String,
}

/// Which group to consult when one of them reports changes.
#[derive(Clone, Copy, Debug, PartialEq, Eq, Structural)]
pub enum OtherGroup {
    Left,
    Right,
}

/// Only the two mixed groups may report changes; the other one is then consulted.
pub fn group_to_consult(groups: &Groups, sender: &String) -> (r: Result<OtherGroup, MixerError>)
    ensures
        sender@ == groups.left@ ==> r == Ok::<OtherGroup, MixerError>(OtherGroup::Right),
        sender@ != groups.left@ && sender@ == groups.right@ ==> r == Ok::<OtherGroup, MixerError>(
            OtherGroup::Left,
        ),
        sender@ != groups.left@ && sender@ != groups.right@ ==> r == Err::<OtherGroup, MixerError>(
            MixerError::Unauthorized,
        ),
{
    if *sender == groups.left {
        Ok(OtherGroup::Right)
    } else if *sender == groups.right {
        Ok(OtherGroup::Left)
    } else {
        Err(MixerError::Unauthorized)
    }
}

/// Members and total when the mixer starts: each member of the left group that also has a
/// weight in the right group gets the mixed weight, in list order; `valid[i]` is whether the
/// chain accepts the address of the `i`-th member (the first refused address is the error).
pub open spec fn spec_init(
    left: Seq<(Seq<char>, u64)>,
    right: Seq<Option<u64>>,
    keys: Seq<String>,
    valid: Seq<bool>,
) -> Result<(Map<Seq<char>, u64>, int), MixerError>
    decreases left.len(),
{
    if left.len() == 0 {
        Ok((Map::empty(), 0))
    } else {
        let n = (left.len() - 1) as int;
        match spec_init(left.drop_last(), right, keys, valid) {
            Err(e) => Err(e),
            Ok((m, t)) => if !valid[n] {
                Err(MixerError::InvalidAddress(keys[n]))
            } else {
                match right[n] {
                None => Ok((m, t)),
                Some(y) => match spec_mixer(left[n].1, y) {
                    None => Err(MixerError::WeightOverflow),
                    Some(w) => if t + w > u64::MAX {
                        Err(MixerError::Overflow)
                    } else {
                        Ok((m.insert(left[n].0, w), t + w))
                    },
                },
                }
            },
        }
    }
}

pub open spec fn left_keys(v: Seq<crate::group::Member>) -> Seq<String> {
    v.map_values(|m: crate::group::Member| m.addr)
}

pub open spec fn left_pairs(v: Seq<crate::group::Member>) -> Seq<(Seq<char>, u64)> {
    v.map_values(|m: crate::group::Member| (m.addr@, m.weight))
}

/// The mixer's initial members from all members of the left group (`left`) and their
/// weights in the right group (`right[i]` for `left[i]`).
pub fn initialize_members(
    left: &Vec<crate::group::Member>,
    valid: &Vec<bool>,
    right: &Vec<Option<u64>>,
) -> (r: Result<(AddrMap<u64>, u64), MixerError>)
    requires
        right@.len() == left@.len(),
        valid@.len() == left@.len(),
    ensures
        match spec_init(left_pairs(left@), right@, left_keys(left@), valid@) {
            Err(e) => r == Err::<(AddrMap<u64>, u64), MixerError>(e),
            Ok((m, t)) => r matches Ok((map, total)) && map.wf() && map@ == m && total == t,
        },
{
    let ghost lp = left_pairs(left@);
    let mut members: AddrMap<u64> = AddrMap::new();
    let mut total: u64 = 0;
    let mut i: usize = 0;
    proof {
        assert(lp.subrange(0, 0) =~= Seq::<(Seq<char>, u64)>::empty());
    }
    while i < left.len()
        invariant
            members.wf(),
            i <= left@.len(),
            right@.len() == left@.len(),
            valid@.len() == left@.len(),
            lp == left_pairs(left@),
            spec_init(lp.subrange(0, i as int), right@, left_keys(left@), valid@) == Ok::<(Map<Seq<char>, u64>, int), MixerError>(
                (members@, total as int),
            ),
        decreases left@.len() - i,
    {
        proof {
            assert(lp.subrange(0, i + 1).drop_last() =~= lp.subrange(0, i as int));
            assert(lp[i as int] == (left@[i as int].addr@, left@[i as int].weight));
        }
        let member = &left[i];
        if !valid[i] {
            proof {
                assert(left_keys(left@)[i as int] == member.addr);
                lemma_init_error_sticks(lp, right@, left_keys(left@), valid@, i + 1);
            }
            return Err(MixerError::InvalidAddress(member.addr.clone()));
        }
        match right[i] {
            Some(y) => {
                let w = match mixer_fn(member.weight, y) {
                    Ok(w) => w,
                    Err(e) => {
                        proof {
                            lemma_init_error_sticks(lp, right@, left_keys(left@), valid@, i + 1);
                        }
                        return Err(e);
                    },
                };
                if total > u64::MAX - w {
                    proof {
                        lemma_init_error_sticks(lp, right@, left_keys(left@), valid@, i + 1);
                    }
                    return Err(MixerError::Overflow);
                }
                total = total + w;
                members.insert(member.addr.clone(), w);
            },
            None => {},
        }
        i = i + 1;
    }
    proof {
        assert(lp.subrange(0, i as int) =~= lp);
    }
    Ok((members, total))
}

proof fn lemma_init_error_sticks(left: Seq<(Seq<char>, u64)>, right: Seq<Option<u64>>, keys: Seq<String>, valid: Seq<bool>, k: int)
    requires
        0 <= k <= left.len(),
        spec_init(left.subrange(0, k), right, keys, valid) is Err,
    ensures
        spec_init(left, right, keys, valid) == spec_init(left.subrange(0, k), right, keys, valid),
    decreases left.len() - k,
{
    if k < left.len() {
        assert(left.subrange(0, k + 1).drop_last() =~= left.subrange(0, k));
        lemma_init_error_sticks(left, right, keys, valid, k + 1);
    } else {
        assert(left.subrange(0, k) =~= left);
    }
}

/// Mixing is symmetric: the order of the two weights does not matter.
pub proof fn law_mixer_symmetric(left: u64, right: u64)
    ensures
        spec_mixer(left, right) == spec_mixer(right, left),
{
    assert(left * right == right * left) by (nonlinear_arith);
}

/// A member with no weight in either group mixes to zero.
pub proof fn law_mixer_zero(x: u64)
    ensures
        spec_mixer(0, x) == Some(0u64),
        spec_mixer(x, 0) == Some(0u64),
{
    assert(is_isqrt(0, 0));
    lemma_isqrt_unique(0, isqrt(0), 0);
}

/// The mixed weight lies between the two weights.
pub proof fn law_mixer_between(left: u64, right: u64)
    requires
        spec_mixer(left, right) is Some,
    ensures
        spec_mixer(left, right)->0 >= (if left <= right { left } else { right }),
        spec_mixer(left, right)->0 <= (if left <= right { right } else { left }),
{
    let n = left * right;
    let r = isqrt(n);
    let lo: int = if left <= right { left as int } else { right as int };
    let hi: int = if left <= right { right as int } else { left as int };
    assert(exists|x: int| #[trigger] is_isqrt(n, x)) by {
        lemma_isqrt_exists(n);
    }
    assert(is_isqrt(n, r));
    assert(left * right == right * left) by (nonlinear_arith);
    assert(n == lo * hi);
    assert(lo * lo <= n && n <= hi * hi) by (nonlinear_arith)
        requires
            0 <= lo <= hi,
            n == lo * hi,
    ;
    if r < lo {
        assert((r + 1) * (r + 1) <= lo * lo) by (nonlinear_arith)
            requires
                0 <= r,
                r + 1 <= lo,
        ;
    }
    if r > hi {
        assert(hi * hi < r * r) by (nonlinear_arith)
            requires
                0 <= hi < r,
        ;
    }
}

/// The two groups the mixer listens to.
pub fn query_groups(groups: &Groups) -> (r: GroupsResponse)
    ensures
        r.left@ == groups.left@,
        r.right@ == groups.right@,
{
    GroupsResponse { left: groups.left.clone(), right: groups.right.clone() }
}

} // verus!
