//! Pages of address-keyed maps, in address order, as the contracts' list queries return them.
use crate::addr_map::{entries_wf, AddrMap};
use crate::claims::{addr_lt, lemma_text_lt_irrefl, lemma_text_lt_total, lemma_text_lt_trans, text_lt};
use vstd::prelude::*;

verus! {

/// Whether address `k` comes after the optional start `after` (every address does without one).
pub open spec fn key_after(after: Option<Seq<char>>, k: Seq<char>) -> bool {
    match after {
        None => true,
        Some(a) => text_lt(a, k),
    }
}

/// Entries in strictly increasing address order.
pub open spec fn keys_sorted<V>(r: Seq<(String, V)>) -> bool {
    forall|i: int, j: int| 0 <= i < j < r.len() ==> text_lt(#[trigger] r[i].0@, #[trigger] r[j].0@)
}

/// Whether `r` holds the entry of address `k`.
pub open spec fn holds_key<V>(r: Seq<(String, V)>, k: Seq<char>) -> bool {
    exists|i: int| 0 <= i < r.len() && (#[trigger] r[i]).0@ == k
}

/// `r` is the page of `m` after `after` with at most `limit` entries: the first entries of `m`
/// after `after`, in address order, with their values.
pub open spec fn is_page<V>(m: Map<Seq<char>, V>, after: Option<Seq<char>>, limit: int, r: Seq<(String, V)>) -> bool {
    &&& r.len() <= limit
    &&& keys_sorted(r)
    &&& forall|i: int| 0 <= i < r.len() ==> {
        &&& m.contains_key((#[trigger] r[i]).0@)
        &&& m[r[i].0@] == r[i].1
        &&& key_after(after, r[i].0@)
    }
    &&& forall|k: Seq<char>| #[trigger] m.contains_key(k) && key_after(after, k) && (r.len() < limit || (r.len() > 0 && !text_lt(r.last().0@, k)))
        ==> holds_key(r, k)
}

/// The page of `m` after `after`, of at most `limit` entries.
pub fn page_after<V: Copy>(m: &AddrMap<V>, after: &Option<String>, limit: usize) -> (r: Vec<(String, V)>)
    requires
        m.wf(),
    ensures
        is_page(m@, opt_view(*after), limit as int, r@),
{
    let ghost a = opt_view(*after);
    let mut cand: Vec<(String, V)> = Vec::new();
    let mut i: usize = 0;
    while i < m.entries.len()
        invariant
            m.wf(),
            a == opt_view(*after),
            i <= m.entries@.len(),
            keys_sorted(cand@),
            forall|x: int| 0 <= x < cand@.len() ==> {
                &&& m@.contains_key((#[trigger] cand@[x]).0@)
                &&& m@[cand@[x].0@] == cand@[x].1
                &&& key_after(a, cand@[x].0@)
            },
            forall|y: int| 0 <= y < i && key_after(a, (#[trigger] m.entries@[y]).0@) ==> holds_key(cand@, m.entries@[y].0@),
            forall|x: int| 0 <= x < cand@.len() ==> exists|y: int| 0 <= y < i && (#[trigger] m.entries@[y]).0@ == (#[trigger] cand@[x]).0@,
        decreases m.entries@.len() - i,
    {
        let k = m.entries[i].0.clone();
        let v = m.entries[i].1;
        proof {
            m.lemma_index(i as int);
        }
        let keep = match after {
            None => true,
            Some(s) => addr_lt(s, &k),
        };
        if keep {
            let ghost c0 = cand@;
            let mut j: usize = 0;
            while j < cand.len()
                invariant
                    cand@ == c0,
                    j <= c0.len(),
                    forall|x: int| 0 <= x < j ==> text_lt(#[trigger] c0[x].0@, k@),
                ensures
                    j <= c0.len(),
                    forall|x: int| 0 <= x < j ==> text_lt(#[trigger] c0[x].0@, k@),
                    j < c0.len() ==> !text_lt(c0[j as int].0@, k@),
                decreases c0.len() - j,
            {
                if !addr_lt(&cand[j].0, &k) {
                    break;
                }
                j = j + 1;
            }
            proof {
                assert forall|x: int| 0 <= x < c0.len() implies (#[trigger] c0[x]).0@ != k@ by {
                    let y = choose|y: int| 0 <= y < i && (#[trigger] m.entries@[y]).0@ == c0[x].0@;
                    assert(m.entries@[y].0@ != m.entries@[i as int].0@);
                }
                lemma_insert_sorted(c0, j as int, (k, v));
            }
            cand.insert(j, (k, v));
            proof {
                let c1 = cand@;
                assert(c1 == c0.insert(j as int, (k, v)));
                assert forall|x: int| 0 <= x < c1.len() implies {
                    &&& m@.contains_key((#[trigger] c1[x]).0@)
                    &&& m@[c1[x].0@] == c1[x].1
                    &&& key_after(a, c1[x].0@)
                } by {
                    if x < j {
                        assert(c1[x] == c0[x]);
                    } else if x > j {
                        assert(c1[x] == c0[x - 1]);
                    }
                }
                assert forall|y: int| 0 <= y < i + 1 && key_after(a, (#[trigger] m.entries@[y]).0@) implies holds_key(c1, m.entries@[y].0@) by {
                    if y < i {
                        let x = choose|x: int| 0 <= x < c0.len() && (#[trigger] c0[x]).0@ == m.entries@[y].0@;
                        if x < j {
                            assert(c1[x] == c0[x]);
                        } else {
                            assert(c1[x + 1] == c0[x]);
                        }
                    } else {
                        assert(c1[j as int].0@ == m.entries@[y].0@);
                    }
                }
                assert forall|x: int| 0 <= x < c1.len() implies exists|y: int| 0 <= y < i + 1 && (#[trigger] m.entries@[y]).0@ == (#[trigger] c1[x]).0@ by {
                    if x == j {
                        assert(m.entries@[i as int].0@ == c1[x].0@);
                    } else {
                        let x0 = if x < j { x } else { x - 1 };
                        assert(c1[x] == c0[x0]);
                        let y = choose|y: int| 0 <= y < i && (#[trigger] m.entries@[y]).0@ == c0[x0].0@;
                        assert(m.entries@[y].0@ == c1[x].0@);
                    }
                }
            }
        }
        i = i + 1;
    }
    let n = if limit < cand.len() { limit } else { cand.len() };
    let mut r = cand;
    r.truncate(n);
    proof {
        let c = cand@;
        lemma_page_from_candidates(m, a, limit as int, c, r@);
    }
    r
}

/// The view of an optional address.
pub open spec fn opt_view(o: Option<String>) -> Option<Seq<char>> {
    match o {
        Some(s) => Some(s@),
        None => None,
    }
}

/// Inserting an entry at its place keeps the entries sorted.
proof fn lemma_insert_sorted<V>(c: Seq<(String, V)>, j: int, e: (String, V))
    requires
        keys_sorted(c),
        0 <= j <= c.len(),
        forall|x: int| 0 <= x < j ==> text_lt(#[trigger] c[x].0@, e.0@),
        j < c.len() ==> !text_lt(c[j].0@, e.0@) && c[j].0@ != e.0@,
    ensures
        keys_sorted(c.insert(j, e)),
{
    let c1 = c.insert(j, e);
    if j < c.len() {
        lemma_text_lt_total(c[j].0@, e.0@);
    }
    assert forall|a: int, b: int| 0 <= a < b < c1.len() implies text_lt(#[trigger] c1[a].0@, #[trigger] c1[b].0@) by {
        if b < j {
            assert(text_lt(c[a].0@, c[b].0@));
        } else if b == j {
            assert(text_lt(c[a].0@, e.0@));
        } else if a == j {
            if b - 1 > j {
                assert(text_lt(c[j].0@, c[b - 1].0@));
                lemma_text_lt_trans(e.0@, c[j].0@, c[b - 1].0@);
            }
        } else if a < j {
            assert(text_lt(c[a].0@, c[b - 1].0@));
        } else {
            assert(text_lt(c[a - 1].0@, c[b - 1].0@));
        }
    }
}

/// The first `limit` of all candidates, sorted, form the page.
proof fn lemma_page_from_candidates<V: Copy>(
    m: &AddrMap<V>,
    a: Option<Seq<char>>,
    limit: int,
    c: Seq<(String, V)>,
    r: Seq<(String, V)>,
)
    requires
        m.wf(),
        limit >= 0,
        keys_sorted(c),
        forall|x: int| 0 <= x < c.len() ==> {
            &&& m@.contains_key((#[trigger] c[x]).0@)
            &&& m@[c[x].0@] == c[x].1
            &&& key_after(a, c[x].0@)
        },
        forall|y: int| 0 <= y < m.entries@.len() && key_after(a, (#[trigger] m.entries@[y]).0@) ==> holds_key(c, m.entries@[y].0@),
        r == c.subrange(0, if limit < c.len() { limit } else { c.len() as int }),
    ensures
        is_page(m@, a, limit, r),
{
    assert forall|x: int, y: int| 0 <= x < y < r.len() implies text_lt(#[trigger] r[x].0@, #[trigger] r[y].0@) by {
        assert(r[x] == c[x] && r[y] == c[y]);
    }
    assert forall|x: int| 0 <= x < r.len() implies {
        &&& m@.contains_key((#[trigger] r[x]).0@)
        &&& m@[r[x].0@] == r[x].1
        &&& key_after(a, r[x].0@)
    } by {
        assert(r[x] == c[x]);
    }
    assert forall|k: Seq<char>| #[trigger] m@.contains_key(k) && key_after(a, k) && (r.len() < limit || (r.len() > 0 && !text_lt(r.last().0@, k)))
        implies holds_key(r, k) by {
        assert(m.has(k));
        let y = m.index_of(k);
        assert(m.entries@[y].0@ == k);
        let x = choose|x: int| 0 <= x < c.len() && (#[trigger] c[x]).0@ == m.entries@[y].0@;
        if x >= r.len() {
            // the page is full and `k` comes after its last entry
            assert(r.len() == limit && limit < c.len());
            let l = r.len() - 1;
            assert(r[l] == c[l]);
            assert(text_lt(c[l].0@, c[x].0@));
            lemma_text_lt_total(c[l].0@, k);
        } else {
            assert(r[x] == c[x]);
        }
    }
}

/// The members of `m` with weight `weight`.
pub open spec fn with_weight(m: Map<Seq<char>, u64>, weight: u64) -> Map<Seq<char>, u64> {
    m.restrict(m.dom().filter(|k: Seq<char>| m[k] == weight))
}

/// The members of weight `weight` among `m`, as a map of their own.
pub fn members_with_weight(m: &AddrMap<u64>, weight: u64) -> (r: AddrMap<u64>)
    requires
        m.wf(),
    ensures
        r.wf(),
        r@ == with_weight(m@, weight),
{
    let mut r: AddrMap<u64> = AddrMap::new();
    let mut i: usize = 0;
    while i < m.entries.len()
        invariant
            m.wf(),
            r.wf(),
            i <= m.entries@.len(),
            forall|k: Seq<char>| #[trigger] r@.contains_key(k) ==> m@.contains_key(k) && m@[k] == weight && r@[k] == weight,
            forall|y: int| 0 <= y < i && (#[trigger] m.entries@[y]).1 == weight ==> r@.contains_key(m.entries@[y].0@),
        decreases m.entries@.len() - i,
    {
        proof {
            m.lemma_index(i as int);
        }
        if m.entries[i].1 == weight {
            let k = m.entries[i].0.clone();
            r.insert(k, weight);
        }
        i = i + 1;
    }
    proof {
        assert forall|k: Seq<char>| #[trigger] with_weight(m@, weight).contains_key(k) implies r@.contains_key(k) by {
            assert(m.has(k));
            let y = m.index_of(k);
            m.lemma_index(y);
        }
        assert(r@ =~= with_weight(m@, weight));
    }
    r
}

/// Whether member `x` (address and weight) is listed before member `y` when listing by
/// weight: heavier first, and of equal weight the later address first.
pub open spec fn weight_before(x: (Seq<char>, u64), y: (Seq<char>, u64)) -> bool {
    x.1 > y.1 || (x.1 == y.1 && text_lt(y.0, x.0))
}

/// Whether a member comes after the optional start when listing by weight.
pub open spec fn weight_after(after: Option<(Seq<char>, u64)>, k: (Seq<char>, u64)) -> bool {
    match after {
        None => true,
        Some(a) => weight_before(a, k),
    }
}

/// The address and weight of a listed member.
pub open spec fn member_key(e: (String, u64)) -> (Seq<char>, u64) {
    (e.0@, e.1)
}

/// Members listed in order of decreasing weight, then decreasing address.
pub open spec fn weight_sorted(r: Seq<(String, u64)>) -> bool {
    forall|i: int, j: int| 0 <= i < j < r.len() ==> weight_before(member_key(#[trigger] r[i]), member_key(#[trigger] r[j]))
}

/// `r` is the page of the members `m` after `after` by weight, with at most `limit` members.
pub open spec fn is_weight_page(m: Map<Seq<char>, u64>, after: Option<(Seq<char>, u64)>, limit: int, r: Seq<(String, u64)>) -> bool {
    &&& r.len() <= limit
    &&& weight_sorted(r)
    &&& forall|i: int| 0 <= i < r.len() ==> {
        &&& m.contains_key((#[trigger] r[i]).0@)
        &&& m[r[i].0@] == r[i].1
        &&& weight_after(after, member_key(r[i]))
    }
    &&& forall|k: Seq<char>| #[trigger] m.contains_key(k) && weight_after(after, (k, m[k]))
        && (r.len() < limit || (r.len() > 0 && !weight_before(member_key(r.last()), (k, m[k]))))
        ==> holds_key(r, k)
}

proof fn lemma_weight_before_order(x: (Seq<char>, u64), y: (Seq<char>, u64), z: (Seq<char>, u64))
    ensures
        !weight_before(x, x),
        weight_before(x, y) && weight_before(y, z) ==> weight_before(x, z),
        x != y ==> weight_before(x, y) || weight_before(y, x),
        !(weight_before(x, y) && weight_before(y, x)),
{
    lemma_text_lt_irrefl(x.0);
    lemma_text_lt_total(x.0, y.0);
    if x.1 == y.1 && y.1 == z.1 && text_lt(y.0, x.0) && text_lt(z.0, y.0) {
        lemma_text_lt_trans(z.0, y.0, x.0);
    }
    if x != y && x.0 == y.0 {
        assert(x.1 != y.1);
    }
}

/// The view of an optional listed member.
pub open spec fn opt_member(o: Option<(String, u64)>) -> Option<(Seq<char>, u64)> {
    match o {
        Some(e) => Some(member_key(e)),
        None => None,
    }
}

/// Whether member `x` is listed before member `y` by weight.
fn weight_before_exec(x: &(String, u64), y: &(String, u64)) -> (b: bool)
    ensures
        b == weight_before(member_key(*x), member_key(*y)),
{
    x.1 > y.1 || (x.1 == y.1 && addr_lt(&y.0, &x.0))
}

/// The page of the members `m` by weight (heaviest first, then by decreasing address) after
/// `after`, of at most `limit` members.
pub fn page_by_weight(m: &AddrMap<u64>, after: &Option<(String, u64)>, limit: usize) -> (r: Vec<(String, u64)>)
    requires
        m.wf(),
    ensures
        is_weight_page(m@, opt_member(*after), limit as int, r@),
{
    let ghost a = opt_member(*after);
    let mut cand: Vec<(String, u64)> = Vec::new();
    let mut i: usize = 0;
    while i < m.entries.len()
        invariant
            m.wf(),
            a == opt_member(*after),
            i <= m.entries@.len(),
            weight_sorted(cand@),
            forall|x: int| 0 <= x < cand@.len() ==> {
                &&& m@.contains_key((#[trigger] cand@[x]).0@)
                &&& m@[cand@[x].0@] == cand@[x].1
                &&& weight_after(a, member_key(cand@[x]))
            },
            forall|y: int| 0 <= y < i && weight_after(a, member_key(#[trigger] m.entries@[y])) ==> holds_key(cand@, m.entries@[y].0@),
            forall|x: int| 0 <= x < cand@.len() ==> exists|y: int| 0 <= y < i && (#[trigger] m.entries@[y]).0@ == (#[trigger] cand@[x]).0@,
        decreases m.entries@.len() - i,
    {
        let e = (m.entries[i].0.clone(), m.entries[i].1);
        proof {
            m.lemma_index(i as int);
        }
        let keep = match after {
            None => true,
            Some(s) => weight_before_exec(s, &e),
        };
        if keep {
            let ghost c0 = cand@;
            let mut j: usize = 0;
            while j < cand.len()
                invariant
                    cand@ == c0,
                    j <= c0.len(),
                    forall|x: int| 0 <= x < j ==> weight_before(member_key(#[trigger] c0[x]), member_key(e)),
                ensures
                    j <= c0.len(),
                    forall|x: int| 0 <= x < j ==> weight_before(member_key(#[trigger] c0[x]), member_key(e)),
                    j < c0.len() ==> !weight_before(member_key(c0[j as int]), member_key(e)),
                decreases c0.len() - j,
            {
                if !weight_before_exec(&cand[j], &e) {
                    break;
                }
                j = j + 1;
            }
            proof {
                assert forall|x: int| 0 <= x < c0.len() implies (#[trigger] c0[x]).0@ != e.0@ by {
                    let y = choose|y: int| 0 <= y < i && (#[trigger] m.entries@[y]).0@ == c0[x].0@;
                    assert(m.entries@[y].0@ != m.entries@[i as int].0@);
                }
                lemma_insert_weight_sorted(c0, j as int, e);
            }
            cand.insert(j, e);
            proof {
                let c1 = cand@;
                assert(c1 == c0.insert(j as int, e));
                assert forall|x: int| 0 <= x < c1.len() implies {
                    &&& m@.contains_key((#[trigger] c1[x]).0@)
                    &&& m@[c1[x].0@] == c1[x].1
                    &&& weight_after(a, member_key(c1[x]))
                } by {
                    if x < j {
                        assert(c1[x] == c0[x]);
                    } else if x > j {
                        assert(c1[x] == c0[x - 1]);
                    }
                }
                assert forall|y: int| 0 <= y < i + 1 && weight_after(a, member_key(#[trigger] m.entries@[y])) implies holds_key(c1, m.entries@[y].0@) by {
                    if y < i {
                        let x = choose|x: int| 0 <= x < c0.len() && (#[trigger] c0[x]).0@ == m.entries@[y].0@;
                        if x < j {
                            assert(c1[x] == c0[x]);
                        } else {
                            assert(c1[x + 1] == c0[x]);
                        }
                    } else {
                        assert(c1[j as int].0@ == m.entries@[y].0@);
                    }
                }
                assert forall|x: int| 0 <= x < c1.len() implies exists|y: int| 0 <= y < i + 1 && (#[trigger] m.entries@[y]).0@ == (#[trigger] c1[x]).0@ by {
                    if x == j {
                        assert(m.entries@[i as int].0@ == c1[x].0@);
                    } else {
                        let x0 = if x < j { x } else { x - 1 };
                        assert(c1[x] == c0[x0]);
                        let y = choose|y: int| 0 <= y < i && (#[trigger] m.entries@[y]).0@ == c0[x0].0@;
                        assert(m.entries@[y].0@ == c1[x].0@);
                    }
                }
            }
        }
        i = i + 1;
    }
    let n = if limit < cand.len() { limit } else { cand.len() };
    let mut r = cand;
    r.truncate(n);
    proof {
        lemma_weight_page_from_candidates(m, a, limit as int, cand@, r@);
    }
    r
}

/// Inserting a member at its place keeps the members sorted by weight.
proof fn lemma_insert_weight_sorted(c: Seq<(String, u64)>, j: int, e: (String, u64))
    requires
        weight_sorted(c),
        0 <= j <= c.len(),
        forall|x: int| 0 <= x < j ==> weight_before(member_key(#[trigger] c[x]), member_key(e)),
        j < c.len() ==> !weight_before(member_key(c[j]), member_key(e)),
        forall|x: int| 0 <= x < c.len() ==> (#[trigger] c[x]).0@ != e.0@,
    ensures
        weight_sorted(c.insert(j, e)),
{
    let c1 = c.insert(j, e);
    assert forall|a: int, b: int| 0 <= a < b < c1.len() implies weight_before(member_key(#[trigger] c1[a]), member_key(#[trigger] c1[b])) by {
        if b < j {
            assert(weight_before(member_key(c[a]), member_key(c[b])));
        } else if b == j {
            assert(weight_before(member_key(c[a]), member_key(e)));
        } else if a == j {
            lemma_weight_before_order(member_key(c[j]), member_key(e), member_key(e));
            assert(member_key(c[j]) != member_key(e));
            if b - 1 > j {
                assert(weight_before(member_key(c[j]), member_key(c[b - 1])));
                lemma_weight_before_order(member_key(e), member_key(c[j]), member_key(c[b - 1]));
            }
        } else if a < j {
            assert(weight_before(member_key(c[a]), member_key(c[b - 1])));
        } else {
            assert(weight_before(member_key(c[a - 1]), member_key(c[b - 1])));
        }
    }
}

/// The first `limit` of all candidates, sorted by weight, form the page.
proof fn lemma_weight_page_from_candidates(
    m: &AddrMap<u64>,
    a: Option<(Seq<char>, u64)>,
    limit: int,
    c: Seq<(String, u64)>,
    r: Seq<(String, u64)>,
)
    requires
        m.wf(),
        limit >= 0,
        weight_sorted(c),
        forall|x: int| 0 <= x < c.len() ==> {
            &&& m@.contains_key((#[trigger] c[x]).0@)
            &&& m@[c[x].0@] == c[x].1
            &&& weight_after(a, member_key(c[x]))
        },
        forall|y: int| 0 <= y < m.entries@.len() && weight_after(a, member_key(#[trigger] m.entries@[y])) ==> holds_key(c, m.entries@[y].0@),
        r == c.subrange(0, if limit < c.len() { limit } else { c.len() as int }),
    ensures
        is_weight_page(m@, a, limit, r),
{
    assert forall|x: int, y: int| 0 <= x < y < r.len() implies weight_before(member_key(#[trigger] r[x]), member_key(#[trigger] r[y])) by {
        assert(r[x] == c[x] && r[y] == c[y]);
    }
    assert forall|x: int| 0 <= x < r.len() implies {
        &&& m@.contains_key((#[trigger] r[x]).0@)
        &&& m@[r[x].0@] == r[x].1
        &&& weight_after(a, member_key(r[x]))
    } by {
        assert(r[x] == c[x]);
    }
    assert forall|k: Seq<char>| #[trigger] m@.contains_key(k) && weight_after(a, (k, m@[k]))
        && (r.len() < limit || (r.len() > 0 && !weight_before(member_key(r.last()), (k, m@[k]))))
        implies holds_key(r, k) by {
        assert(m.has(k));
        let y = m.index_of(k);
        m.lemma_index(y);
        assert(member_key(m.entries@[y]) == (k, m@[k]));
        let x = choose|x: int| 0 <= x < c.len() && (#[trigger] c[x]).0@ == m.entries@[y].0@;
        if x >= r.len() {
            let l = r.len() - 1;
            assert(r[l] == c[l]);
            assert(weight_before(member_key(c[l]), member_key(c[x])));
            assert(member_key(c[x]) == (k, m@[k]));
        } else {
            assert(r[x] == c[x]);
        }
    }
}

} // verus!
