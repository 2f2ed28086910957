//! Claims on unbonded stake: tokens an address can take back once a release time has passed.
//! Claims of one address with the same release time are merged.
use crate::common::BlockInfo;
use vstd::seq_lib::group_filter_ensures;
use vstd::prelude::*;

verus! {

/// A claim of `amount` tokens by `addr`, released at `release_at` (nanoseconds).
#[derive(Debug, PartialEq, Eq)]
pub struct Claim {
    pub addr: String,
    pub amount: u128,
    pub release_at: u64,
    /// Block height when the claim was created.
    pub creation_height: u64,
}

impl Claim {
    pub fn new(addr: String, amount: u128, release_at: u64, creation_height: u64) -> (c: Claim)
        ensures
            c == (Claim { addr, amount, release_at, creation_height }),
    {
        Claim { addr, amount, release_at, creation_height }
    }

    /// A copy of this claim.
    pub fn copy(&self) -> (c: Claim)
        ensures
            c == *self,
    {
        Claim {
            addr: self.addr.clone(),
            amount: self.amount,
            release_at: self.release_at,
            creation_height: self.creation_height,
        }
    }
}

/// Lexicographic order of texts (by character code).
pub open spec fn text_lt(a: Seq<char>, b: Seq<char>) -> bool
    decreases a.len(),
{
    if b.len() == 0 {
        false
    } else if a.len() == 0 {
        true
    } else if a[0] != b[0] {
        (a[0] as int) < (b[0] as int)
    } else {
        text_lt(a.drop_first(), b.drop_first())
    }
}

pub proof fn lemma_text_lt_trans(a: Seq<char>, b: Seq<char>, c: Seq<char>)
    requires
        text_lt(a, b),
        text_lt(b, c),
    ensures
        text_lt(a, c),
    decreases a.len(),
{
    if a.len() > 0 && b.len() > 0 && c.len() > 0 && a[0] == b[0] && b[0] == c[0] {
        lemma_text_lt_trans(a.drop_first(), b.drop_first(), c.drop_first());
    }
}

pub proof fn lemma_text_lt_irrefl(a: Seq<char>)
    ensures
        !text_lt(a, a),
    decreases a.len(),
{
    if a.len() > 0 {
        lemma_text_lt_irrefl(a.drop_first());
    }
}

pub proof fn lemma_text_lt_total(a: Seq<char>, b: Seq<char>)
    ensures
        a != b ==> text_lt(a, b) || text_lt(b, a),
        !(text_lt(a, b) && text_lt(b, a)),
    decreases a.len(),
{
    if a.len() > 0 && b.len() > 0 {
        lemma_text_lt_total(a.drop_first(), b.drop_first());
        if a[0] != b[0] {
            assert((a[0] as int) != (b[0] as int));
        }
        if a[0] == b[0] && a.drop_first() == b.drop_first() {
            assert forall|k: int| 0 <= k < a.len() implies a[k] == b[k] by {
                if k > 0 {
                    assert(a[k] == a.drop_first()[k - 1]);
                    assert(b[k] == b.drop_first()[k - 1]);
                }
            }
            assert(a =~= b);
        }
    } else if a.len() == 0 && b.len() == 0 {
        assert(a =~= b);
    }
}

/// Whether text `a` comes before text `b`.
pub fn addr_lt(a: &String, b: &String) -> (r: bool)
    ensures
        r == text_lt(a@, b@),
{
    let sa = a.as_str();
    let sb = b.as_str();
    let la = sa.unicode_len();
    let lb = sb.unicode_len();
    let mut i: usize = 0;
    proof {
        assert(a@.subrange(0, la as int) =~= a@);
        assert(b@.subrange(0, lb as int) =~= b@);
    }
    while i < la && i < lb
        invariant
            la == a@.len(),
            lb == b@.len(),
            sa@ == a@,
            sb@ == b@,
            i <= la,
            i <= lb,
            text_lt(a@, b@) == text_lt(a@.subrange(i as int, la as int), b@.subrange(i as int, lb as int)),
        decreases la - i,
    {
        let ca = sa.get_char(i);
        let cb = sb.get_char(i);
        proof {
            let ra = a@.subrange(i as int, la as int);
            let rb = b@.subrange(i as int, lb as int);
            assert(ra[0] == ca && rb[0] == cb);
            assert(ra.drop_first() =~= a@.subrange(i + 1, la as int));
            assert(rb.drop_first() =~= b@.subrange(i + 1, lb as int));
        }
        if ca != cb {
            return (ca as u32) < (cb as u32);
        }
        i = i + 1;
    }
    proof {
        assert(a@.subrange(i as int, la as int).len() == la - i);
    }
    i == la && i < lb
}

/// The order of addresses among claims released at the same time: shorter addresses first,
/// then by text (claims are keyed by the length-prefixed address, and addresses are ASCII).
pub open spec fn spec_claim_addr_lt(a: Seq<char>, b: Seq<char>) -> bool {
    a.len() < b.len() || (a.len() == b.len() && text_lt(a, b))
}

pub proof fn lemma_claim_addr_lt_irrefl(a: Seq<char>)
    ensures
        !spec_claim_addr_lt(a, a),
{
    lemma_text_lt_irrefl(a);
}

pub proof fn lemma_claim_addr_lt_total(a: Seq<char>, b: Seq<char>)
    ensures
        a != b ==> spec_claim_addr_lt(a, b) || spec_claim_addr_lt(b, a),
        !(spec_claim_addr_lt(a, b) && spec_claim_addr_lt(b, a)),
{
    lemma_text_lt_total(a, b);
}

pub proof fn lemma_claim_addr_lt_trans(a: Seq<char>, b: Seq<char>, c: Seq<char>)
    requires
        spec_claim_addr_lt(a, b),
        spec_claim_addr_lt(b, c),
    ensures
        spec_claim_addr_lt(a, c),
{
    if a.len() == b.len() && b.len() == c.len() {
        lemma_text_lt_trans(a, b, c);
    }
}

/// Whether address `a` comes before `b` among claims released at the same time.
pub fn claim_addr_lt(a: &String, b: &String) -> (r: bool)
    ensures
        r == spec_claim_addr_lt(a@, b@),
{
    let la = a.as_str().unicode_len();
    let lb = b.as_str().unicode_len();
    if la != lb {
        la < lb
    } else {
        addr_lt(a, b)
    }
}

/// Claims are ordered by release time, then by address (see [`spec_claim_addr_lt`]).
pub open spec fn claim_before(c: Claim, d: Claim) -> bool {
    c.release_at < d.release_at || (c.release_at == d.release_at && spec_claim_addr_lt(c.addr@, d.addr@))
}

/// The claims, ordered by release time and address, with one claim per address and time.
pub struct Claims {
    pub claims: Vec<Claim>,
}

pub open spec fn sorted_claims(s: Seq<Claim>) -> bool {
    forall|i: int, j: int| 0 <= i < j < s.len() ==> claim_before(#[trigger] s[i], #[trigger] s[j])
}

/// Sum of the amounts of the claims.
pub open spec fn amount_sum(s: Seq<Claim>) -> int
    decreases s.len(),
{
    if s.len() == 0 {
        0
    } else {
        amount_sum(s.drop_last()) + s.last().amount
    }
}

pub open spec fn same_key(c: Claim, addr: Seq<char>, release_at: u64) -> bool {
    c.addr@ == addr && c.release_at == release_at
}

/// Claims `new` are claims `old` after a claim of `amount` for `addr`, released at `release_at`,
/// was created at height `height`: an existing claim of the same address and release time
/// grows by `amount` (keeping its height); otherwise the new claim is inserted.
pub open spec fn spec_created(
    old: Seq<Claim>,
    new: Seq<Claim>,
    addr: String,
    amount: u128,
    release_at: u64,
    height: u64,
) -> bool {
    if exists|i: int| 0 <= i < old.len() && same_key(#[trigger] old[i], addr@, release_at) {
        exists|i: int| 0 <= i < old.len() && same_key(#[trigger] old[i], addr@, release_at)
            && new == old.update(i, Claim { amount: (old[i].amount + amount) as u128, ..old[i] })
    } else {
        exists|i: int| 0 <= i <= old.len()
            && new == old.insert(i, Claim { addr, amount, release_at, creation_height: height })
    }
}

/// Claims of one address and release time are merged: creating two claims for a key that had
/// none leaves a single claim for it, holding both amounts and the first claim's height.
pub proof fn law_claims_merge(
    s0: Seq<Claim>,
    s1: Seq<Claim>,
    s2: Seq<Claim>,
    addr: String,
    a1: u128,
    a2: u128,
    release_at: u64,
    h1: u64,
    h2: u64,
)
    requires
        forall|i: int| 0 <= i < s0.len() ==> !same_key(#[trigger] s0[i], addr@, release_at),
        spec_created(s0, s1, addr, a1, release_at, h1),
        spec_created(s1, s2, addr, a2, release_at, h2),
        a1 + a2 <= u128::MAX,
    ensures
        exists|i: int| 0 <= i < s2.len() && s2[i] == (Claim { addr, amount: (a1 + a2) as u128, release_at, creation_height: h1 })
            && forall|j: int| 0 <= j < s2.len() && same_key(#[trigger] s2[j], addr@, release_at) ==> j == i,
        s2.len() == s0.len() + 1,
{
    let c1 = Claim { addr, amount: a1, release_at, creation_height: h1 };
    let i = choose|i: int| 0 <= i <= s0.len() && s1 == s0.insert(i, c1);
    assert(same_key(s1[i], addr@, release_at));
    assert forall|j: int| 0 <= j < s1.len() && same_key(#[trigger] s1[j], addr@, release_at) implies j == i by {
        if j < i {
            assert(s1[j] == s0[j]);
        } else if j > i {
            assert(s1[j] == s0[j - 1]);
        }
    }
    let k = choose|k: int| 0 <= k < s1.len() && same_key(#[trigger] s1[k], addr@, release_at)
        && s2 == s1.update(k, Claim { amount: (s1[k].amount + a2) as u128, ..s1[k] });
    assert(k == i);
    assert(s2[i] == (Claim { addr, amount: (a1 + a2) as u128, release_at, creation_height: h1 }));
    assert forall|j: int| 0 <= j < s2.len() && same_key(#[trigger] s2[j], addr@, release_at) implies j == i by {
        if j != i {
            assert(s2[j] == s1[j]);
        }
    }
}

impl Claims {
    pub open spec fn wf(&self) -> bool {
        sorted_claims(self.claims@)
    }

    /// No claims.
    pub fn new() -> (c: Claims)
        ensures
            c.wf(),
            c.claims@.len() == 0,
    {
        Claims { claims: Vec::new() }
    }

    /// Adds a claim of `amount` for `addr`, released at `release_at`; an existing claim of the
    /// same address and release time grows by `amount` instead.
    pub fn create_claim(&mut self, addr: String, amount: u128, release_at: u64, creation_height: u64)
        requires
            old(self).wf(),
            forall|i: int| 0 <= i < old(self).claims@.len() && same_key(#[trigger] old(self).claims@[i], addr@, release_at)
                ==> old(self).claims@[i].amount + amount <= u128::MAX,
        ensures
            final(self).wf(),
            amount_sum(final(self).claims@) == amount_sum(old(self).claims@) + amount,
            spec_created(old(self).claims@, final(self).claims@, addr, amount, release_at, creation_height),
    {
        let ghost s0 = self.claims@;
        let new_claim = Claim { addr, amount, release_at, creation_height };
        // position of the first claim not before the new one
        let mut i: usize = 0;
        while i < self.claims.len()
            invariant
                self.claims@ == s0,
                sorted_claims(s0),
                i <= s0.len(),
                forall|j: int| 0 <= j < i ==> claim_before(#[trigger] s0[j], new_claim),
            ensures
                i <= s0.len(),
                forall|j: int| 0 <= j < i ==> claim_before(#[trigger] s0[j], new_claim),
                i < s0.len() ==> !claim_before(s0[i as int], new_claim),
            decreases s0.len() - i,
        {
            let c = &self.claims[i];
            let before = c.release_at < new_claim.release_at || (c.release_at == new_claim.release_at && claim_addr_lt(&c.addr, &new_claim.addr));
            if !before {
                break;
            }
            i = i + 1;
        }
        if i < self.claims.len() && self.claims[i].release_at == release_at && self.claims[i].addr == new_claim.addr {
            let old_claim = self.claims[i].copy();
            proof {
                lemma_amount_sum_update(s0, i as int, Claim { amount: (old_claim.amount + amount) as u128, ..old_claim });
                lemma_key_unique(s0, i as int, addr@, release_at);
            }
            let updated = Claim {
                addr: old_claim.addr,
                amount: old_claim.amount + amount,
                release_at: old_claim.release_at,
                creation_height: old_claim.creation_height,
            };
            self.claims.set(i, updated);
            proof {
                assert(sorted_claims(self.claims@)) by {
                    assert forall|a: int, b: int| 0 <= a < b < self.claims@.len() implies claim_before(#[trigger] self.claims@[a], #[trigger] self.claims@[b]) by {
                        assert(claim_before(s0[a], s0[b]));
                    }
                }
            }
        } else {
            proof {
                lemma_amount_sum_insert(s0, i as int, new_claim);
                assert(!(exists|j: int| 0 <= j < s0.len() && same_key(#[trigger] s0[j], addr@, release_at))) by {
                    if exists|j: int| 0 <= j < s0.len() && same_key(#[trigger] s0[j], addr@, release_at) {
                        let j = choose|j: int| 0 <= j < s0.len() && same_key(#[trigger] s0[j], addr@, release_at);
                        lemma_claim_addr_lt_irrefl(addr@);
                        if j < i {
                            assert(claim_before(s0[j], new_claim));
                        } else if j > i {
                            assert(i < s0.len());
                            assert(!claim_before(s0[i as int], new_claim));
                            assert(claim_before(s0[i as int], s0[j]));
                            lemma_claim_addr_lt_total(s0[i as int].addr@, addr@);
                        }
                    }
                }
            }
            self.claims.insert(i, new_claim);
            proof {
                let s1 = self.claims@;
                assert(s1 == s0.insert(i as int, new_claim));
                assert forall|a: int, b: int| 0 <= a < b < s1.len() implies claim_before(#[trigger] s1[a], #[trigger] s1[b]) by {
                    if b < i {
                        assert(claim_before(s0[a], s0[b]));
                    } else if b == i {
                        assert(claim_before(s0[a], new_claim));
                    } else if a == i {
                        // new_claim is before s0[i], which is before or equal s0[b - 1]
                        assert(!claim_before(s0[i as int], new_claim));
                        lemma_claim_addr_lt_total(s0[i as int].addr@, addr@);
                        if b - 1 > i {
                            assert(claim_before(s0[i as int], s0[b - 1]));
                            lemma_claim_before_trans_le(new_claim, s0[i as int], s0[b - 1]);
                        } else {
                            lemma_claim_not_before_then_before(new_claim, s0[i as int]);
                        }
                    } else if a < i {
                        assert(claim_before(s0[a], s0[b - 1]));
                    } else {
                        assert(claim_before(s0[a - 1], s0[b - 1]));
                    }
                }
            }
        }
    }
}

proof fn lemma_claim_not_before_then_before(c: Claim, d: Claim)
    requires
        !claim_before(d, c),
        !(c.addr@ == d.addr@ && c.release_at == d.release_at),
    ensures
        claim_before(c, d),
{
    lemma_claim_addr_lt_total(c.addr@, d.addr@);
}

proof fn lemma_claim_before_trans_le(c: Claim, d: Claim, e: Claim)
    requires
        !claim_before(d, c),
        !(c.addr@ == d.addr@ && c.release_at == d.release_at),
        claim_before(d, e),
    ensures
        claim_before(c, e),
{
    lemma_claim_addr_lt_total(c.addr@, d.addr@);
    if c.release_at == d.release_at && d.release_at == e.release_at {
        lemma_claim_addr_lt_trans(c.addr@, d.addr@, e.addr@);
    }
}

proof fn lemma_key_unique(s: Seq<Claim>, i: int, addr: Seq<char>, release_at: u64)
    requires
        sorted_claims(s),
        0 <= i < s.len(),
        same_key(s[i], addr, release_at),
    ensures
        forall|j: int| 0 <= j < s.len() && same_key(#[trigger] s[j], addr, release_at) ==> j == i,
{
    assert forall|j: int| 0 <= j < s.len() && same_key(#[trigger] s[j], addr, release_at) implies j == i by {
        lemma_claim_addr_lt_irrefl(addr);
        if j < i {
            assert(claim_before(s[j], s[i]));
        } else if j > i {
            assert(claim_before(s[i], s[j]));
        }
    }
}

proof fn lemma_amount_sum_nonneg(s: Seq<Claim>)
    ensures
        amount_sum(s) >= 0,
    decreases s.len(),
{
    if s.len() > 0 {
        lemma_amount_sum_nonneg(s.drop_last());
    }
}



proof fn lemma_amount_sum_update(s: Seq<Claim>, i: int, c: Claim)
    requires
        0 <= i < s.len(),
    ensures
        amount_sum(s.update(i, c)) == amount_sum(s) - s[i].amount + c.amount,
    decreases s.len(),
{
    if i == s.len() - 1 {
        assert(s.update(i, c).drop_last() =~= s.drop_last());
    } else {
        lemma_amount_sum_update(s.drop_last(), i, c);
        assert(s.update(i, c).drop_last() =~= s.drop_last().update(i, c));
    }
}

proof fn lemma_amount_sum_insert(s: Seq<Claim>, i: int, c: Claim)
    requires
        0 <= i <= s.len(),
    ensures
        amount_sum(s.insert(i, c)) == amount_sum(s) + c.amount,
    decreases s.len(),
{
    if i == s.len() {
        assert(s.insert(i, c).drop_last() =~= s);
    } else {
        lemma_amount_sum_insert(s.drop_last(), i, c);
        assert(s.insert(i, c).drop_last() =~= s.drop_last().insert(i, c));
    }
}


/// Whether claim `c` belongs to `addr` and is released at `now` (nanoseconds).
pub open spec fn is_mature(c: Claim, addr: Seq<char>, now: u64) -> bool {
    c.addr@ == addr && c.release_at <= now
}

/// Total of the mature claims of `addr` released no later than `c`.
pub open spec fn mature_sum_through(s: Seq<Claim>, addr: Seq<char>, now: u64, c: Claim) -> int {
    amount_sum(s.filter(|d: Claim| is_mature(d, addr, now) && d.release_at <= c.release_at))
}

/// Whether `claim_addr` releases claim `c` of the claims `s`: a mature claim of `addr` is
/// released when the total of the mature claims up to its release time stays within `cap`.
pub open spec fn released_by_claim_addr(s: Seq<Claim>, addr: Seq<char>, now: u64, cap: Option<u128>, c: Claim) -> bool {
    &&& is_mature(c, addr, now)
    &&& match cap {
        None => true,
        Some(cap) => mature_sum_through(s, addr, now, c) <= cap,
    }
}

impl Claims {
    /// Releases the mature claims of `addr` at `block`, oldest first, while their running total
    /// stays within `cap`; returns the released total. Without a cap, all mature claims of
    /// `addr` are released, so their total must fit.
    pub fn claim_addr(&mut self, addr: &String, block: &BlockInfo, cap: Option<u128>) -> (amount: u128)
        requires
            old(self).wf(),
            cap is None ==> amount_sum(old(self).claims@.filter(|c: Claim| is_mature(c, addr@, block.time))) <= u128::MAX,
        ensures
            final(self).wf(),
            amount == amount_sum(old(self).claims@.filter(|c: Claim| released_by_claim_addr(old(self).claims@, addr@, block.time, cap, c))),
            final(self).claims@ == old(self).claims@.filter(|c: Claim| !released_by_claim_addr(old(self).claims@, addr@, block.time, cap, c)),
            amount + amount_sum(final(self).claims@) == amount_sum(old(self).claims@),
    {
        broadcast use group_filter_ensures;
        let ghost s = self.claims@;
        let ghost rel = |c: Claim| released_by_claim_addr(s, addr@, block.time, cap, c);
        let ghost keep = |c: Claim| !released_by_claim_addr(s, addr@, block.time, cap, c);
        let ghost mature = |c: Claim| is_mature(c, addr@, block.time);
        let now = block.time;
        let mut kept: Vec<Claim> = Vec::new();
        let mut released: u128 = 0;
        let mut stopped = false;
        let mut i: usize = 0;
        proof {
            assert(s.take(0) =~= Seq::<Claim>::empty());
        }
        while i < self.claims.len()
            invariant
                self.claims@ == s,
                sorted_claims(s),
                cap is None ==> amount_sum(s.filter(mature)) <= u128::MAX,
                i <= s.len(),
                kept@ == s.take(i as int).filter(keep),
                released == amount_sum(s.take(i as int).filter(rel)),
                !stopped ==> released == amount_sum(s.take(i as int).filter(mature)),
                !stopped && cap is Some ==> released <= cap->0,
                stopped ==> cap is Some && amount_sum(s.take(i as int).filter(mature)) > cap->0,
                rel == (|c: Claim| released_by_claim_addr(s, addr@, block.time, cap, c)),
                keep == (|c: Claim| !released_by_claim_addr(s, addr@, block.time, cap, c)),
                mature == (|c: Claim| is_mature(c, addr@, block.time)),
                now == block.time,
            decreases s.len() - i,
        {
            let c = self.claims[i].copy();
            proof {
                assert(s.take(i + 1) =~= s.take(i as int).push(s[i as int]));
                s.take(i as int).lemma_filter_push(s[i as int], keep);
                s.take(i as int).lemma_filter_push(s[i as int], rel);
                s.take(i as int).lemma_filter_push(s[i as int], mature);
                lemma_amount_sum_push(s.take(i as int).filter(rel), s[i as int]);
                lemma_amount_sum_push(s.take(i as int).filter(mature), s[i as int]);
                lemma_amount_sum_filter_take_le(s, i + 1, mature);
            }
            if c.release_at <= now && c.addr == *addr {
                proof {
                    lemma_mature_sum_through(s, i as int, addr@, now);
                    assert(rel(s[i as int]) == match cap {
                        None => true,
                        Some(cp) => amount_sum(s.take(i as int).filter(mature)) + c.amount <= cp,
                    });
                }
                if stopped {
                    kept.push(c);
                } else {
                    match cap {
                        None => {
                            released = released + c.amount;
                        },
                        Some(cp) => {
                            if c.amount <= cp - released {
                                released = released + c.amount;
                            } else {
                                stopped = true;
                                kept.push(c);
                            }
                        },
                    }
                }
            } else {
                kept.push(c);
            }
            i = i + 1;
        }
        proof {
            assert(s.take(s.len() as int) =~= s);
        }
        self.claims = kept;
        proof {
            lemma_filter_keeps_sorted(s, keep);
            law_claims_partition(s, rel);
            assert(keep == (|c: Claim| !rel(c)));
        }
        released
    }
}

/// The claims of a prefix that meet a condition add up to at most those of the whole.
proof fn lemma_amount_sum_filter_take_le(s: Seq<Claim>, k: int, f: spec_fn(Claim) -> bool)
    requires
        0 <= k <= s.len(),
    ensures
        amount_sum(s.take(k).filter(f)) <= amount_sum(s.filter(f)),
    decreases s.len() - k,
{
    if k < s.len() {
        lemma_amount_sum_filter_take_le(s, k + 1, f);
        assert(s.take(k + 1) =~= s.take(k).push(s[k]));
        s.take(k).lemma_filter_push(s[k], f);
        lemma_amount_sum_push(s.take(k).filter(f), s[k]);
    } else {
        assert(s.take(k) =~= s);
    }
}

/// Whether a claim belongs to `addr`.
pub open spec fn has_addr(addr: Seq<char>) -> spec_fn(Claim) -> bool {
    |c: Claim| c.addr@ == addr
}

/// Total of the claims of `addr` among `s`.
pub open spec fn addr_total(s: Seq<Claim>, addr: Seq<char>) -> int {
    amount_sum(s.filter(has_addr(addr)))
}

impl Claims {
    /// The claims of `addr`, by release time.
    pub fn query_claims(&self, addr: &String) -> (r: Vec<Claim>)
        ensures
            r@ == self.claims@.filter(has_addr(addr@)),
    {
        let ghost s = self.claims@;
        let mut r: Vec<Claim> = Vec::new();
        let mut i: usize = 0;
        proof {
            assert(s.take(0) =~= Seq::<Claim>::empty());
        }
        while i < self.claims.len()
            invariant
                self.claims@ == s,
                i <= s.len(),
                r@ == s.take(i as int).filter(has_addr(addr@)),
            decreases s.len() - i,
        {
            proof {
                assert(s.take(i + 1) =~= s.take(i as int).push(s[i as int]));
                s.take(i as int).lemma_filter_push(s[i as int], has_addr(addr@));
            }
            if self.claims[i].addr == *addr {
                r.push(self.claims[i].copy());
            }
            i = i + 1;
        }
        proof {
            assert(s.take(s.len() as int) =~= s);
        }
        r
    }
}

/// Whether `r` holds an entry for address `a`.
pub open spec fn lists_addr(r: Seq<(String, u128)>, a: Seq<char>) -> bool {
    exists|i: int| 0 <= i < r.len() && (#[trigger] r[i]).0@ == a
}

/// Whether some claim of `s` belongs to `a`.
pub open spec fn claims_addr(s: Seq<Claim>, a: Seq<char>) -> bool {
    exists|k: int| 0 <= k < s.len() && (#[trigger] s[k]).addr@ == a
}

/// `r` lists, by increasing address and once each, the addresses of the claims `s` with the
/// total of their claims.
pub open spec fn totals_by_addr(s: Seq<Claim>, r: Seq<(String, u128)>) -> bool {
    &&& forall|i: int, j: int| 0 <= i < j < r.len() ==> text_lt(#[trigger] r[i].0@, #[trigger] r[j].0@)
    &&& forall|i: int| 0 <= i < r.len() ==> #[trigger] r[i].1 == addr_total(s, r[i].0@)
    &&& forall|i: int| 0 <= i < r.len() ==> #[trigger] claims_addr(s, r[i].0@)
    &&& forall|k: int| 0 <= k < s.len() ==> #[trigger] lists_addr(r, s[k].addr@)
}

/// Number of claims `claim_expired` releases: the claims released at `now`, at most `limit`.
pub open spec fn expired_count(s: Seq<Claim>, now: u64, limit: Option<u64>) -> int {
    let n = s.filter(|c: Claim| c.release_at <= now).len() as int;
    match limit {
        None => n,
        Some(l) => if l < n { l as int } else { n },
    }
}

/// Whether the claims of each address among `s` add up to an amount that fits.
pub open spec fn addr_totals_fit(s: Seq<Claim>) -> bool {
    forall|k: int| 0 <= k < s.len() ==> addr_total(s, (#[trigger] s[k]).addr@) <= u128::MAX
}

/// The released totals per address of the claims `s`.
pub fn totals_of(s: &Vec<Claim>) -> (r: Vec<(String, u128)>)
    requires
        addr_totals_fit(s@),
    ensures
        totals_by_addr(s@, r@),
{
    let mut r: Vec<(String, u128)> = Vec::new();
    let mut i: usize = 0;
    proof {
        assert(s@.take(0) =~= Seq::<Claim>::empty());
    }
    while i < s.len()
        invariant
            i <= s@.len(),
            addr_totals_fit(s@),
            totals_by_addr(s@.take(i as int), r@),
        decreases s@.len() - i,
    {
        proof {
            assert(s@.take(i + 1) =~= s@.take(i as int).push(s@[i as int]));
            lemma_amount_sum_filter_take_le(s@, i + 1, has_addr(s@[i as int].addr@));
            assert(addr_total(s@, s@[i as int].addr@) <= u128::MAX);
        }
        add_claim_total(&mut r, &s[i], Ghost(s@.take(i as int)));
        i = i + 1;
    }
    proof {
        assert(s@.take(s@.len() as int) =~= s@);
    }
    r
}

/// Adds the claim `c` to the totals `r` of the claims `t`.
fn add_claim_total(r: &mut Vec<(String, u128)>, c: &Claim, Ghost(t): Ghost<Seq<Claim>>)
    requires
        totals_by_addr(t, old(r)@),
        addr_total(t.push(*c), c.addr@) <= u128::MAX,
    ensures
        totals_by_addr(t.push(*c), final(r)@),
{
    let ghost r0 = r@;
    let mut j: usize = 0;
    while j < r.len()
        invariant
            r@ == r0,
            j <= r0.len(),
            forall|k: int| 0 <= k < j ==> text_lt(#[trigger] r0[k].0@, c.addr@),
        ensures
            j <= r0.len(),
            forall|k: int| 0 <= k < j ==> text_lt(#[trigger] r0[k].0@, c.addr@),
            j < r0.len() ==> !text_lt(r0[j as int].0@, c.addr@),
        decreases r0.len() - j,
    {
        if !addr_lt(&r[j].0, &c.addr) {
            break;
        }
        j = j + 1;
    }
    proof {
        lemma_addr_total_push(t, *c);
        lemma_addr_total_le(t.push(*c), c.addr@);
    }
    if j < r.len() && r[j].0 == c.addr {
        let total = r[j].1 + c.amount;
        let name = r[j].0.clone();
        proof {
            lemma_totals_update(t, *c, r0, j as int);
        }
        r.set(j, (name, total));
    } else {
        let name = c.addr.clone();
        proof {
            lemma_totals_insert(t, *c, r0, j as int, name);
        }
        r.insert(j, (name, c.amount));
    }
}

proof fn lemma_addr_total_le(t: Seq<Claim>, a: Seq<char>)
    ensures
        0 <= addr_total(t, a) <= amount_sum(t),
{
    lemma_amount_sum_filter_le(t, has_addr(a));
}

proof fn lemma_addr_total_push(t: Seq<Claim>, c: Claim)
    ensures
        forall|a: Seq<char>| #[trigger] addr_total(t.push(c), a) == addr_total(t, a) + (if a == c.addr@ { c.amount as int } else { 0 }),
{
    assert forall|a: Seq<char>| #[trigger] addr_total(t.push(c), a) == addr_total(t, a) + (if a == c.addr@ { c.amount as int } else { 0 }) by {
        let f = has_addr(a);
        t.lemma_filter_push(c, f);
        lemma_amount_sum_push(t.filter(f), c);
    }
}

#[verifier::rlimit(40)]
proof fn lemma_totals_update(t: Seq<Claim>, c: Claim, r0: Seq<(String, u128)>, j: int)
    requires
        totals_by_addr(t, r0),
        0 <= j < r0.len(),
        r0[j].0@ == c.addr@,
        r0[j].1 + c.amount <= u128::MAX,
        forall|a: Seq<char>| #[trigger] addr_total(t.push(c), a) == addr_total(t, a) + (if a == c.addr@ { c.amount as int } else { 0 }),
    ensures
        totals_by_addr(t.push(c), r0.update(j, (r0[j].0, (r0[j].1 + c.amount) as u128))),
{
    let t1 = t.push(c);
    let r1 = r0.update(j, (r0[j].0, (r0[j].1 + c.amount) as u128));
    lemma_text_lt_irrefl(c.addr@);
    assert forall|x: int| 0 <= x < r1.len() implies (#[trigger] r1[x]).0@ == r0[x].0@ && (x != j ==> r1[x] == r0[x]) by {}
    assert forall|k: int| 0 <= k < t.len() implies #[trigger] t1[k] == t[k] by {}
    assert forall|k: int| 0 <= k < t1.len() implies #[trigger] lists_addr(r1, t1[k].addr@) by {
        if k < t.len() {
            assert(t1[k] == t[k]);
            assert(lists_addr(r0, t[k].addr@));
            let x = choose|x: int| 0 <= x < r0.len() && (#[trigger] r0[x]).0@ == t[k].addr@;
            assert(r1[x].0@ == t1[k].addr@);
        } else {
            assert(r1[j].0@ == t1[k].addr@);
        }
    }
    assert forall|x: int| 0 <= x < r1.len() implies #[trigger] claims_addr(t1, r1[x].0@) by {
        if x == j {
            assert(t1[t.len() as int].addr@ == r1[x].0@);
        } else {
            assert(r1[x] == r0[x]);
            assert(claims_addr(t, r0[x].0@));
            let k = choose|k: int| 0 <= k < t.len() && (#[trigger] t[k]).addr@ == r0[x].0@;
            assert(t1[k].addr@ == r1[x].0@);
        }
    }
    assert forall|x: int| 0 <= x < r1.len() implies #[trigger] r1[x].1 == addr_total(t1, r1[x].0@) by {
        assert(r0[x].1 == addr_total(t, r0[x].0@));
        assert(addr_total(t1, r0[x].0@) == addr_total(t, r0[x].0@) + (if r0[x].0@ == c.addr@ { c.amount as int } else { 0 }));
        if x != j {
            assert(r0[x].0@ != c.addr@) by {
                if x < j {
                    assert(text_lt(r0[x].0@, r0[j].0@));
                } else {
                    assert(text_lt(r0[j].0@, r0[x].0@));
                }
            }
        }
    }
    assert forall|a: int, b: int| 0 <= a < b < r1.len() implies text_lt(#[trigger] r1[a].0@, #[trigger] r1[b].0@) by {
        assert(text_lt(r0[a].0@, r0[b].0@));
    }
}

#[verifier::rlimit(60)]
proof fn lemma_totals_insert(t: Seq<Claim>, c: Claim, r0: Seq<(String, u128)>, j: int, name: String)
    requires
        totals_by_addr(t, r0),
        0 <= j <= r0.len(),
        name@ == c.addr@,
        forall|k: int| 0 <= k < j ==> text_lt(#[trigger] r0[k].0@, c.addr@),
        j < r0.len() ==> !text_lt(r0[j].0@, c.addr@) && r0[j].0@ != c.addr@,
        forall|a: Seq<char>| #[trigger] addr_total(t.push(c), a) == addr_total(t, a) + (if a == c.addr@ { c.amount as int } else { 0 }),
    ensures
        totals_by_addr(t.push(c), r0.insert(j, (name, c.amount))),
{
    let t1 = t.push(c);
    let r1 = r0.insert(j, (name, c.amount));
    lemma_text_lt_irrefl(c.addr@);
    if j < r0.len() {
        lemma_text_lt_total(r0[j].0@, c.addr@);
    }
    assert forall|x: int| 0 <= x < r1.len() implies #[trigger] r1[x] == (if x < j { r0[x] } else if x == j { (name, c.amount) } else { r0[x - 1] }) by {}
    assert forall|k: int| 0 <= k < t.len() implies #[trigger] t1[k] == t[k] by {}
    assert forall|x: int| 0 <= x < r0.len() implies (#[trigger] r0[x]).0@ != c.addr@ by {
        if x > j {
            assert(text_lt(r0[j].0@, r0[x].0@));
            lemma_text_lt_trans(c.addr@, r0[j].0@, r0[x].0@);
        } else if x < j {
            assert(text_lt(r0[x].0@, c.addr@));
        }
    }
    assert forall|k: int| 0 <= k < t.len() implies !(#[trigger] has_addr(c.addr@)(t[k])) by {
        assert(lists_addr(r0, t[k].addr@));
        let x = choose|x: int| 0 <= x < r0.len() && (#[trigger] r0[x]).0@ == t[k].addr@;
        assert(r0[x].0@ != c.addr@);
    }
    lemma_filter_none(t, has_addr(c.addr@));
    assert(addr_total(t, c.addr@) == 0);
    assert forall|k: int| 0 <= k < t1.len() implies #[trigger] lists_addr(r1, t1[k].addr@) by {
        if k < t.len() {
            assert(lists_addr(r0, t[k].addr@));
            let x = choose|x: int| 0 <= x < r0.len() && (#[trigger] r0[x]).0@ == t[k].addr@;
            if x < j {
                assert(r1[x].0@ == t1[k].addr@);
            } else {
                assert(r1[x + 1].0@ == t1[k].addr@);
            }
        } else {
            assert(r1[j].0@ == t1[k].addr@);
        }
    }
    assert forall|x: int| 0 <= x < r1.len() implies #[trigger] claims_addr(t1, r1[x].0@) by {
        if x == j {
            assert(t1[t.len() as int].addr@ == r1[x].0@);
        } else {
            let y = if x < j { x } else { x - 1 };
            assert(r1[x] == r0[y]);
            assert(claims_addr(t, r0[y].0@));
            let k = choose|k: int| 0 <= k < t.len() && (#[trigger] t[k]).addr@ == r0[y].0@;
            assert(t1[k].addr@ == r1[x].0@);
        }
    }
    assert forall|x: int| 0 <= x < r1.len() implies #[trigger] r1[x].1 == addr_total(t1, r1[x].0@) by {
        if x != j {
            let y = if x < j { x } else { x - 1 };
            assert(r1[x] == r0[y]);
            assert(r0[y].1 == addr_total(t, r0[y].0@));
            assert(addr_total(t1, r0[y].0@) == addr_total(t, r0[y].0@) + (if r0[y].0@ == c.addr@ { c.amount as int } else { 0 }));
        } else {
            assert(addr_total(t1, c.addr@) == addr_total(t, c.addr@) + c.amount);
        }
    }
    assert forall|a: int, b: int| 0 <= a < b < r1.len() implies text_lt(#[trigger] r1[a].0@, #[trigger] r1[b].0@) by {
        if b < j {
            assert(text_lt(r0[a].0@, r0[b].0@));
        } else if b == j {
            assert(text_lt(r0[a].0@, c.addr@));
        } else if a == j {
            if b - 1 > j {
                assert(text_lt(r0[j].0@, r0[b - 1].0@));
                lemma_text_lt_trans(c.addr@, r0[j].0@, r0[b - 1].0@);
            }
        } else if a < j {
            assert(text_lt(r0[a].0@, r0[b - 1].0@));
        } else {
            assert(text_lt(r0[a - 1].0@, r0[b - 1].0@));
        }
    }
}

impl Claims {
    /// Releases the claims released at `block`, oldest first and at most `limit` of them, and
    /// returns the released totals per address, by increasing address.
    pub fn claim_expired(&mut self, block: &BlockInfo, limit: Option<u64>) -> (r: Vec<(String, u128)>)
        requires
            old(self).wf(),
            addr_totals_fit(old(self).claims@.take(expired_count(old(self).claims@, block.time, limit))),
        ensures
            final(self).wf(),
            final(self).claims@ == old(self).claims@.skip(expired_count(old(self).claims@, block.time, limit)),
            totals_by_addr(old(self).claims@.take(expired_count(old(self).claims@, block.time, limit)), r@),
    {
        let ghost s = self.claims@;
        let now = block.time;
        let mut n: usize = 0;
        while n < self.claims.len()
            invariant
                self.claims@ == s,
                n <= s.len(),
                now == block.time,
                forall|k: int| 0 <= k < n ==> #[trigger] s[k].release_at <= now,
            ensures
                n <= s.len(),
                forall|k: int| 0 <= k < n ==> #[trigger] s[k].release_at <= now,
                n < s.len() ==> s[n as int].release_at > now,
            decreases s.len() - n,
        {
            if self.claims[n].release_at > now {
                break;
            }
            n = n + 1;
        }
        proof {
            lemma_expired_prefix(s, n as int, now);
        }
        let count = match limit {
            None => n,
            Some(l) => if (l as u128) < (n as u128) { l as usize } else { n },
        };
        let mut taken: Vec<Claim> = Vec::new();
        std::mem::swap(&mut taken, &mut self.claims);
        let rest = taken.split_off(count);
        self.claims = rest;
        proof {
            lemma_split_claims(s, count as int);
        }
        totals_of(&taken)
    }
}

/// The claims released at `now` are the first `n` when the first `n` are and the next is not.
proof fn lemma_expired_prefix(s: Seq<Claim>, n: int, now: u64)
    requires
        sorted_claims(s),
        0 <= n <= s.len(),
        forall|k: int| 0 <= k < n ==> #[trigger] s[k].release_at <= now,
        n < s.len() ==> s[n].release_at > now,
    ensures
        s.filter(|c: Claim| c.release_at <= now).len() == n,
{
    let expired = |c: Claim| c.release_at <= now;
    let a = s.take(n);
    let b = s.skip(n);
    assert(s =~= a + b);
    Seq::filter_distributes_over_add(a, b, expired);
    assert forall|k: int| 0 <= k < a.len() implies #[trigger] expired(a[k]) == true by {
        assert(a[k] == s[k]);
    }
    lemma_filter_ext(a, expired, |c: Claim| true);
    lemma_filter_all(a);
    assert forall|k: int| 0 <= k < b.len() implies !expired(#[trigger] b[k]) by {
        assert(b[k] == s[n + k]);
        if k > 0 {
            assert(claim_before(s[n], s[n + k]));
        }
    }
    lemma_filter_none(b, expired);
    assert(a.filter(expired) + b.filter(expired) =~= a);
}

/// Splitting sorted claims keeps the bound on the total and the order of the rest.
proof fn lemma_split_claims(s: Seq<Claim>, count: int)
    requires
        sorted_claims(s),
        0 <= count <= s.len(),
    ensures
        sorted_claims(s.skip(count)),
        s.subrange(0, count) == s.take(count),
        s.subrange(count, s.len() as int) == s.skip(count),
{
    let t = s.skip(count);
    assert forall|a: int, b: int| 0 <= a < b < t.len() implies claim_before(#[trigger] t[a], #[trigger] t[b]) by {
        assert(claim_before(s[count + a], s[count + b]));
    }
    assert(s.subrange(0, count) =~= s.take(count));
    assert(s.subrange(count, s.len() as int) =~= s.skip(count));
}

proof fn lemma_filter_all(t: Seq<Claim>)
    ensures
        t.filter(|c: Claim| true) == t,
    decreases t.len(),
{
    reveal(Seq::filter);
    if t.len() > 0 {
        lemma_filter_all(t.drop_last());
        assert(t.drop_last().push(t.last()) =~= t);
    }
}

proof fn lemma_amount_sum_push(s: Seq<Claim>, c: Claim)
    ensures
        amount_sum(s.push(c)) == amount_sum(s) + c.amount,
{
    assert(s.push(c).drop_last() =~= s);
}


proof fn lemma_amount_sum_filter_le(s: Seq<Claim>, f: spec_fn(Claim) -> bool)
    ensures
        0 <= amount_sum(s.filter(f)) <= amount_sum(s),
    decreases s.len(),
{
    reveal(Seq::filter);
    lemma_amount_sum_nonneg(s.filter(f));
    if s.len() > 0 {
        lemma_amount_sum_filter_le(s.drop_last(), f);
        if f(s.last()) {
            lemma_amount_sum_push(s.drop_last().filter(f), s.last());
        }
    }
}


proof fn lemma_filter_ext(t: Seq<Claim>, f: spec_fn(Claim) -> bool, g: spec_fn(Claim) -> bool)
    requires
        forall|k: int| 0 <= k < t.len() ==> f(#[trigger] t[k]) == g(t[k]),
    ensures
        t.filter(f) == t.filter(g),
    decreases t.len(),
{
    reveal(Seq::filter);
    if t.len() > 0 {
        assert forall|k: int| 0 <= k < t.drop_last().len() implies f(#[trigger] t.drop_last()[k]) == g(t.drop_last()[k]) by {
            assert(t.drop_last()[k] == t[k]);
        }
        lemma_filter_ext(t.drop_last(), f, g);
        assert(f(t[t.len() - 1]) == g(t[t.len() - 1]));
    }
}

proof fn lemma_filter_none(t: Seq<Claim>, f: spec_fn(Claim) -> bool)
    requires
        forall|k: int| 0 <= k < t.len() ==> !f(#[trigger] t[k]),
    ensures
        t.filter(f) == Seq::<Claim>::empty(),
    decreases t.len(),
{
    reveal(Seq::filter);
    if t.len() > 0 {
        assert forall|k: int| 0 <= k < t.drop_last().len() implies !f(#[trigger] t.drop_last()[k]) by {
            assert(t.drop_last()[k] == t[k]);
        }
        lemma_filter_none(t.drop_last(), f);
        assert(!f(t[t.len() - 1]));
    } else {
        assert(t =~= Seq::<Claim>::empty());
    }
}

/// The mature claims of `addr` released no later than the `i`-th claim, itself mature, are the
/// mature claims among the first `i + 1`.
proof fn lemma_mature_sum_through(s: Seq<Claim>, i: int, addr: Seq<char>, now: u64)
    requires
        sorted_claims(s),
        0 <= i < s.len(),
        is_mature(s[i], addr, now),
    ensures
        mature_sum_through(s, addr, now, s[i]) == amount_sum(s.take(i + 1).filter(|d: Claim| is_mature(d, addr, now))),
{
    let q = |d: Claim| is_mature(d, addr, now) && d.release_at <= s[i].release_at;
    let p = |d: Claim| is_mature(d, addr, now);
    let a = s.take(i + 1);
    let b = s.skip(i + 1);
    assert(s =~= a + b);
    Seq::filter_distributes_over_add(a, b, q);
    lemma_claim_addr_lt_irrefl(addr);
    assert forall|k: int| 0 <= k < a.len() implies q(#[trigger] a[k]) == p(a[k]) by {
        if k < i && p(a[k]) {
            assert(claim_before(s[k], s[i]));
        }
    }
    lemma_filter_ext(a, q, p);
    assert forall|k: int| 0 <= k < b.len() implies !q(#[trigger] b[k]) by {
        if p(b[k]) {
            assert(claim_before(s[i], s[i + 1 + k]));
        }
    }
    lemma_filter_none(b, q);
    assert(a.filter(q) + b.filter(q) =~= a.filter(q));
}

/// Dropping claims keeps the order and the bound on the total.
proof fn lemma_filter_keeps_sorted(s: Seq<Claim>, f: spec_fn(Claim) -> bool)
    requires
        sorted_claims(s),
    ensures
        sorted_claims(s.filter(f)),
    decreases s.len(),
{
    reveal(Seq::filter);
    if s.len() > 0 {
        let t = s.drop_last();
        assert(sorted_claims(t)) by {
            assert forall|a: int, b: int| 0 <= a < b < t.len() implies claim_before(#[trigger] t[a], #[trigger] t[b]) by {
                assert(claim_before(s[a], s[b]));
            }
        }
        lemma_filter_keeps_sorted(t, f);
        if f(s.last()) {
            let u = t.filter(f);
            broadcast use group_filter_ensures;
            assert forall|a: int| 0 <= a < u.len() implies claim_before(#[trigger] u[a], s.last()) by {
                assert(u.contains(u[a]));
                t.lemma_filter_contains_rev(f, u[a]);
                let k = choose|k: int| 0 <= k < t.len() && t[k] == u[a];
                assert(claim_before(s[k], s[s.len() - 1]));
            }
            let v = u.push(s.last());
            assert forall|a: int, b: int| 0 <= a < b < v.len() implies claim_before(#[trigger] v[a], #[trigger] v[b]) by {
                if b < u.len() {
                    assert(claim_before(u[a], u[b]));
                }
            }
        }
    }
}

/// Splitting claims by any condition keeps their total: the claims that meet it and those that
/// do not add up to all of them.
pub proof fn law_claims_partition(s: Seq<Claim>, f: spec_fn(Claim) -> bool)
    ensures
        amount_sum(s.filter(f)) + amount_sum(s.filter(|c: Claim| !f(c))) == amount_sum(s),
    decreases s.len(),
{
    reveal(Seq::filter);
    let g = |c: Claim| !f(c);
    if s.len() > 0 {
        law_claims_partition(s.drop_last(), f);
        if f(s.last()) {
            lemma_amount_sum_push(s.drop_last().filter(f), s.last());
        } else {
            lemma_amount_sum_push(s.drop_last().filter(g), s.last());
        }
    }
}

} // verus!
