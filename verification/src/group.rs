//! Weighted membership groups: members with weights and their total, member change diffs,
//! registered hooks and preauthorizations.
use crate::addr_map::AddrMap;
use crate::common::{page_limit, spec_page_limit};
use crate::paging::{is_page, is_weight_page, opt_member, opt_view, page_after, page_by_weight};
use vstd::prelude::*;

verus! {

/// A member and its weight.
#[derive(Clone, Debug, PartialEq, Eq)]
pub struct Member {
    pub addr: String,
    pub weight: u64,
}

/// A change of one member's weight (`None`: not a member).
#[derive(Clone, Debug, PartialEq, Eq)]
pub struct MemberDiff {
    pub key: String,
    pub old: Option<u64>,
    pub new: Option<u64>,
}

/// Errors of a group.
#[derive(Clone, Debug, PartialEq, Eq)]
pub enum GroupError {
    Unauthorized,
    /// The sender is not the admin.
    NotAdmin,
    /// No preauthorization left.
    NoPreauth,
    HookAlreadyRegistered,
    HookNotRegistered,
    /// Arithmetic overflow or underflow.
    Overflow,
    /// An address the chain does not accept.
    InvalidAddress(String),
}

/// Sum of the weights of the entries.
pub open spec fn weight_sum(s: Seq<(String, u64)>) -> int
    decreases s.len(),
{
    if s.len() == 0 {
        0
    } else {
        weight_sum(s.drop_last()) + s.last().1 as int
    }
}

proof fn lemma_weight_sum_push(s: Seq<(String, u64)>, e: (String, u64))
    ensures
        weight_sum(s.push(e)) == weight_sum(s) + e.1,
{
    assert(s.push(e).drop_last() =~= s);
}

proof fn lemma_weight_sum_update(s: Seq<(String, u64)>, i: int, e: (String, u64))
    requires
        0 <= i < s.len(),
    ensures
        weight_sum(s.update(i, e)) == weight_sum(s) - s[i].1 + e.1,
    decreases s.len(),
{
    if i == s.len() - 1 {
        assert(s.update(i, e).drop_last() =~= s.drop_last());
    } else {
        lemma_weight_sum_update(s.drop_last(), i, e);
        assert(s.update(i, e).drop_last() =~= s.drop_last().update(i, e));
    }
}

proof fn lemma_weight_sum_remove(s: Seq<(String, u64)>, i: int)
    requires
        0 <= i < s.len(),
    ensures
        weight_sum(s.remove(i)) == weight_sum(s) - s[i].1,
    decreases s.len(),
{
    if i == s.len() - 1 {
        assert(s.remove(i) =~= s.drop_last());
    } else {
        lemma_weight_sum_remove(s.drop_last(), i);
        assert(s.remove(i).drop_last() =~= s.drop_last().remove(i));
    }
}

proof fn lemma_weight_sum_nonneg_elem(s: Seq<(String, u64)>, i: int)
    requires
        0 <= i < s.len(),
    ensures
        weight_sum(s) >= s[i].1,
        weight_sum(s) >= 0,
    decreases s.len(),
{
    lemma_weight_sum_nonneg(s);
    if i < s.len() - 1 {
        lemma_weight_sum_nonneg_elem(s.drop_last(), i);
    } else {
        lemma_weight_sum_nonneg(s.drop_last());
    }
}

proof fn lemma_weight_sum_nonneg(s: Seq<(String, u64)>)
    ensures
        weight_sum(s) >= 0,
    decreases s.len(),
{
    if s.len() > 0 {
        lemma_weight_sum_nonneg(s.drop_last());
    }
}

/// The total weight of the members.
pub open spec fn members_total(m: AddrMap<u64>) -> int {
    weight_sum(m.entries@)
}

/// Sets the weight of a member and keeps the running total in step; returns the old weight.
pub fn set_member_weight(members: &mut AddrMap<u64>, total: &mut u64, addr: String, weight: u64) -> (old_weight: Option<u64>)
    requires
        old(members).wf(),
        *old(total) == members_total(*old(members)),
        members_total(*old(members)) - opt_weight(old(members)@, addr@) + weight <= u64::MAX,
    ensures
        final(members).wf(),
        final(members)@ == old(members)@.insert(addr@, weight),
        *final(total) == members_total(*final(members)),
        *final(total) == *old(total) - opt_weight(old(members)@, addr@) + weight,
        old_weight == old(members)@.get(addr@),
{
    let ghost s0 = members.entries@;
    let prev = members.get(&addr);
    proof {
        if old(members)@.contains_key(addr@) {
            let i = members.index_of(addr@);
            members.lemma_index(i);
            lemma_weight_sum_update(s0, i, (addr, weight));
            lemma_weight_sum_nonneg_elem(s0, i);
        } else {
            lemma_weight_sum_push(s0, (addr, weight));
        }
    }
    members.insert(addr, weight);
    let p = match prev {
        Some(w) => w,
        None => 0,
    };
    *total = *total - p + weight;
    prev
}

/// Removes a member and keeps the running total in step; returns the old weight.
pub fn remove_member(members: &mut AddrMap<u64>, total: &mut u64, addr: &String) -> (old_weight: Option<u64>)
    requires
        old(members).wf(),
        *old(total) == members_total(*old(members)),
    ensures
        final(members).wf(),
        final(members)@ == old(members)@.remove(addr@),
        *final(total) == members_total(*final(members)),
        *final(total) == *old(total) - opt_weight(old(members)@, addr@),
        old_weight == old(members)@.get(addr@),
{
    let ghost s0 = members.entries@;
    proof {
        if old(members)@.contains_key(addr@) {
            let i = members.index_of(addr@);
            members.lemma_index(i);
            lemma_weight_sum_remove(s0, i);
            lemma_weight_sum_nonneg_elem(s0, i);
        }
    }
    let prev = members.remove(addr);
    let p = match prev {
        Some(w) => w,
        None => 0,
    };
    *total = *total - p;
    prev
}

/// The weight of `k`, or zero when it is not a member.
pub open spec fn opt_weight(m: Map<Seq<char>, u64>, k: Seq<char>) -> int {
    if m.contains_key(k) {
        m[k] as int
    } else {
        0
    }
}

/// Address texts of a list of addresses.
pub open spec fn texts(v: Seq<String>) -> Seq<Seq<char>> {
    v.map_values(|s: String| s@)
}

/// Position of the first occurrence of `addr` in the list, if any.
pub fn position_of(list: &Vec<String>, addr: &String) -> (r: Option<usize>)
    ensures
        r is None <==> !texts(list@).contains(addr@),
        r matches Some(i) ==> i < list@.len() && list@[i as int]@ == addr@ && forall|j: int|
            0 <= j < i ==> (#[trigger] list@[j])@ != addr@,
{
    let mut i: usize = 0;
    while i < list.len()
        invariant
            i <= list@.len(),
            forall|j: int| 0 <= j < i ==> (#[trigger] list@[j])@ != addr@,
        decreases list@.len() - i,
    {
        if list[i] == *addr {
            proof {
                assert(texts(list@)[i as int] == addr@);
            }
            return Some(i);
        }
        i = i + 1;
    }
    proof {
        if texts(list@).contains(addr@) {
            let j = choose|j: int| 0 <= j < texts(list@).len() && texts(list@)[j] == addr@;
            assert(list@[j]@ == addr@);
        }
    }
    None
}

/// Registers `addr` at the end of the list unless it is in it already; returns whether it did.
pub fn add_addr(list: &mut Vec<String>, addr: String) -> (added: bool)
    ensures
        added == !texts(old(list)@).contains(addr@),
        added ==> final(list)@ == old(list)@.push(addr),
        !added ==> final(list)@ == old(list)@,
{
    if position_of(list, &addr).is_some() {
        false
    } else {
        list.push(addr);
        true
    }
}

/// Unregisters the first occurrence of `addr`; returns whether it was registered.
pub fn remove_addr(list: &mut Vec<String>, addr: &String) -> (removed: bool)
    ensures
        removed == texts(old(list)@).contains(addr@),
        removed ==> exists|i: int| 0 <= i < old(list)@.len() && old(list)@[i]@ == addr@ && (forall|j: int| 0 <= j < i ==> (#[trigger] old(list)@[j])@ != addr@) && final(list)@ == old(list)@.remove(i),
        !removed ==> final(list)@ == old(list)@,
{
    match position_of(list, addr) {
        Some(p) => {
            list.remove(p);
            true
        },
        None => false,
    }
}

/// Registered hooks of a group, notified of every membership change.
pub struct Hooks {
    pub hooks: Vec<String>,
}

impl Hooks {
    /// Registers a hook; fails if it is registered already.
    pub fn add_hook(&mut self, addr: String) -> (r: Result<(), GroupError>)
        ensures
            texts(old(self).hooks@).contains(addr@) ==> r == Err::<(), GroupError>(GroupError::HookAlreadyRegistered) && final(self).hooks@ == old(self).hooks@,
            !texts(old(self).hooks@).contains(addr@) ==> r is Ok && final(self).hooks@ == old(self).hooks@.push(addr),
    {
        if add_addr(&mut self.hooks, addr) {
            Ok(())
        } else {
            Err(GroupError::HookAlreadyRegistered)
        }
    }

    /// Unregisters a hook; fails if it is not registered.
    pub fn remove_hook(&mut self, addr: &String) -> (r: Result<(), GroupError>)
        ensures
            !texts(old(self).hooks@).contains(addr@) ==> r == Err::<(), GroupError>(GroupError::HookNotRegistered) && final(self).hooks@ == old(self).hooks@,
            texts(old(self).hooks@).contains(addr@) ==> r is Ok && texts(final(self).hooks@).len() == texts(old(self).hooks@).len() - 1,
    {
        if remove_addr(&mut self.hooks, addr) {
            Ok(())
        } else {
            Err(GroupError::HookNotRegistered)
        }
    }
}

/// Whether `sender` is the admin.
pub open spec fn spec_is_admin(admin: Option<String>, sender: Seq<char>) -> bool {
    match admin {
        Some(a) => a@ == sender,
        None => false,
    }
}

pub fn is_admin(admin: &Option<String>, sender: &String) -> (b: bool)
    ensures
        b == spec_is_admin(*admin, sender@),
{
    match admin {
        Some(a) => *a == *sender,
        None => false,
    }
}

/// Spends one preauthorization; fails when none is left.
pub fn use_auth(preauths: &mut u64) -> (r: Result<(), GroupError>)
    ensures
        *old(preauths) == 0 ==> r == Err::<(), GroupError>(GroupError::NoPreauth) && *final(preauths) == 0,
        *old(preauths) > 0 ==> r is Ok && *final(preauths) == *old(preauths) - 1,
{
    if *preauths == 0 {
        Err(GroupError::NoPreauth)
    } else {
        *preauths = *preauths - 1;
        Ok(())
    }
}

/// Adds a hook: the admin may, anyone else spends a preauthorization.
pub fn execute_add_hook(
    admin: &Option<String>,
    preauths: &mut u64,
    hooks: &mut Hooks,
    sender: &String,
    hook: String,
) -> (r: Result<(), GroupError>)
    ensures
        !spec_is_admin(*admin, sender@) && *old(preauths) == 0 ==> r == Err::<(), GroupError>(GroupError::NoPreauth),
        *final(preauths) == if spec_is_admin(*admin, sender@) || *old(preauths) == 0 { *old(preauths) } else { (*old(preauths) - 1) as u64 },
        (spec_is_admin(*admin, sender@) || *old(preauths) > 0) ==> (
            if texts(old(hooks).hooks@).contains(hook@) {
                r == Err::<(), GroupError>(GroupError::HookAlreadyRegistered)
            } else {
                r is Ok && final(hooks).hooks@ == old(hooks).hooks@.push(hook)
            }),
{
    if !is_admin(admin, sender) {
        if let Err(e) = use_auth(preauths) {
            return Err(e);
        }
    }
    hooks.add_hook(hook)
}

/// Removes a hook: only the hook itself or the admin may.
pub fn execute_remove_hook(
    admin: &Option<String>,
    hooks: &mut Hooks,
    sender: &String,
    hook: &String,
) -> (r: Result<(), GroupError>)
    ensures
        sender@ != hook@ && !spec_is_admin(*admin, sender@) ==> r == Err::<(), GroupError>(GroupError::Unauthorized) && final(hooks).hooks@ == old(hooks).hooks@,
        (sender@ == hook@ || spec_is_admin(*admin, sender@)) && !texts(old(hooks).hooks@).contains(hook@) ==> r == Err::<(), GroupError>(GroupError::HookNotRegistered),
        (sender@ == hook@ || spec_is_admin(*admin, sender@)) && texts(old(hooks).hooks@).contains(hook@) ==> r is Ok,
{
    if *sender != *hook && !is_admin(admin, sender) {
        return Err(GroupError::Unauthorized);
    }
    hooks.remove_hook(hook)
}

/// Members and running total after applying adds then removes; with the diffs reported.
pub open spec fn spec_update_members(
    members: Map<Seq<char>, u64>,
    total: int,
    adds: Seq<(Seq<char>, u64)>,
    removes: Seq<Seq<char>>,
) -> (Map<Seq<char>, u64>, int, Seq<(Seq<char>, Option<u64>, Option<u64>)>) {
    let (m1, t1, d1) = spec_apply_adds(members, total, adds);
    spec_apply_removes(m1, t1, d1, removes)
}

pub open spec fn spec_apply_adds(
    members: Map<Seq<char>, u64>,
    total: int,
    adds: Seq<(Seq<char>, u64)>,
) -> (Map<Seq<char>, u64>, int, Seq<(Seq<char>, Option<u64>, Option<u64>)>)
    decreases adds.len(),
{
    if adds.len() == 0 {
        (members, total, Seq::empty())
    } else {
        let (m, t, d) = spec_apply_adds(members, total, adds.drop_last());
        let (a, w) = adds.last();
        (m.insert(a, w), t - opt_weight(m, a) + w, d.push((a, m.get(a), Some(w))))
    }
}

/// The first failure among the adds, applied in turn: an address the chain refuses (`valid`
/// says which it accepts; `keys` are the addresses as given), or a running total above
/// `u64::MAX`.
pub open spec fn spec_adds_error(
    members: Map<Seq<char>, u64>,
    total: int,
    adds: Seq<(Seq<char>, u64)>,
    keys: Seq<String>,
    valid: Seq<bool>,
) -> Option<GroupError>
    decreases adds.len(),
{
    if adds.len() == 0 {
        None
    } else {
        match spec_adds_error(members, total, adds.drop_last(), keys, valid) {
            Some(e) => Some(e),
            None => {
                let n = adds.len() - 1;
                if !valid[n] {
                    Some(GroupError::InvalidAddress(keys[n]))
                } else {
                    let (m, t, d) = spec_apply_adds(members, total, adds.drop_last());
                    if t - opt_weight(m, adds.last().0) + adds.last().1 > u64::MAX {
                        Some(GroupError::Overflow)
                    } else {
                        None
                    }
                }
            },
        }
    }
}

/// The first of the first `n` addresses that the chain refuses.
pub open spec fn spec_first_invalid(keys: Seq<String>, valid: Seq<bool>, n: nat) -> Option<GroupError>
    decreases n,
{
    if n == 0 {
        None
    } else {
        match spec_first_invalid(keys, valid, (n - 1) as nat) {
            Some(e) => Some(e),
            None => if !valid[n - 1] {
                Some(GroupError::InvalidAddress(keys[n - 1]))
            } else {
                None
            },
        }
    }
}

/// The error of a member update, if any: the adds are checked and applied first, then the
/// removed addresses are checked.
pub open spec fn spec_update_error(
    members: Map<Seq<char>, u64>,
    total: int,
    to_add: Seq<Member>,
    add_valid: Seq<bool>,
    to_remove: Seq<String>,
    remove_valid: Seq<bool>,
) -> Option<GroupError> {
    match spec_adds_error(members, total, member_pairs(to_add), member_keys(to_add), add_valid) {
        Some(e) => Some(e),
        None => spec_first_invalid(to_remove, remove_valid, to_remove.len()),
    }
}

pub open spec fn member_keys(v: Seq<Member>) -> Seq<String> {
    v.map_values(|m: Member| m.addr)
}

proof fn lemma_adds_error_sticks(
    members: Map<Seq<char>, u64>,
    total: int,
    adds: Seq<(Seq<char>, u64)>,
    keys: Seq<String>,
    valid: Seq<bool>,
    k: int,
)
    requires
        0 <= k <= adds.len(),
        spec_adds_error(members, total, adds.subrange(0, k), keys, valid) is Some,
    ensures
        spec_adds_error(members, total, adds, keys, valid) == spec_adds_error(members, total, adds.subrange(0, k), keys, valid),
    decreases adds.len() - k,
{
    if k < adds.len() {
        assert(adds.subrange(0, k + 1).drop_last() =~= adds.subrange(0, k));
        lemma_adds_error_sticks(members, total, adds, keys, valid, k + 1);
    } else {
        assert(adds.subrange(0, k) =~= adds);
    }
}

proof fn lemma_first_invalid_sticks(keys: Seq<String>, valid: Seq<bool>, k: nat, n: nat)
    requires
        k <= n,
        spec_first_invalid(keys, valid, k) is Some,
    ensures
        spec_first_invalid(keys, valid, n) == spec_first_invalid(keys, valid, k),
    decreases n - k,
{
    if k < n {
        lemma_first_invalid_sticks(keys, valid, k, (n - 1) as nat);
    }
}

pub open spec fn spec_apply_removes(
    members: Map<Seq<char>, u64>,
    total: int,
    diffs: Seq<(Seq<char>, Option<u64>, Option<u64>)>,
    removes: Seq<Seq<char>>,
) -> (Map<Seq<char>, u64>, int, Seq<(Seq<char>, Option<u64>, Option<u64>)>)
    decreases removes.len(),
{
    if removes.len() == 0 {
        (members, total, diffs)
    } else {
        let (m, t, d) = spec_apply_removes(members, total, diffs, removes.drop_last());
        let a = removes.last();
        if m.contains_key(a) {
            (m.remove(a), t - m[a], d.push((a, Some(m[a]), None)))
        } else {
            (m, t, d)
        }
    }
}

/// A member update, change by change: one more add sets that member's weight, moves the total
/// by the difference and reports the old and new weight; one more remove deletes a member,
/// takes its weight off the total and reports it, and changes and reports nothing for an
/// address that is no member. (Adds are applied before removes.)
pub proof fn law_update_members_changes(
    members: Map<Seq<char>, u64>,
    total: int,
    adds: Seq<(Seq<char>, u64)>,
    removes: Seq<Seq<char>>,
    add: (Seq<char>, u64),
    remove: Seq<char>,
)
    ensures
        ({
            let (m, t, d) = spec_update_members(members, total, adds, Seq::empty());
            spec_update_members(members, total, adds.push(add), Seq::empty())
                == (m.insert(add.0, add.1), t - opt_weight(m, add.0) + add.1, d.push((add.0, m.get(add.0), Some(add.1))))
        }),
        ({
            let (m, t, d) = spec_update_members(members, total, adds, removes);
            spec_update_members(members, total, adds, removes.push(remove)) == if m.contains_key(remove) {
                (m.remove(remove), t - m[remove], d.push((remove, Some(m[remove]), None)))
            } else {
                (m, t, d)
            }
        }),
{
    assert(adds.push(add).drop_last() =~= adds);
    assert(removes.push(remove).drop_last() =~= removes);
}

pub open spec fn member_pairs(v: Seq<Member>) -> Seq<(Seq<char>, u64)> {
    v.map_values(|m: Member| (m.addr@, m.weight))
}

pub open spec fn diff_view(d: MemberDiff) -> (Seq<char>, Option<u64>, Option<u64>) {
    (d.key@, d.old, d.new)
}

/// Adds (or re-weights) `to_add`, then removes `to_remove` (an address in both ends up
/// removed), keeping the total weight equal to the sum of member weights. Returns the diffs
/// of every change, in order. `add_valid[i]` and `remove_valid[j]` are whether the chain accepts
/// those addresses; the update fails at the first refused address or at a total that would
/// overflow (see [`spec_update_error`]), and then nothing changes.
pub fn update_members(
    members: &mut AddrMap<u64>,
    total: &mut u64,
    to_add: &Vec<Member>,
    add_valid: &Vec<bool>,
    to_remove: &Vec<String>,
    remove_valid: &Vec<bool>,
) -> (r: Result<Vec<MemberDiff>, GroupError>)
    requires
        old(members).wf(),
        *old(total) == members_total(*old(members)),
        add_valid@.len() == to_add@.len(),
        remove_valid@.len() == to_remove@.len(),
    ensures
        final(members).wf(),
        *final(total) == members_total(*final(members)),
        r is Ok ==> ({
            let (m, t, d) = spec_update_members(old(members)@, *old(total) as int, member_pairs(to_add@), texts(to_remove@));
            &&& final(members)@ == m
            &&& *final(total) == t
            &&& r.unwrap()@.map_values(|x: MemberDiff| diff_view(x)) == d
        }),
        r is Err <==> spec_update_error(old(members)@, *old(total) as int, to_add@, add_valid@, to_remove@, remove_valid@) is Some,
        r matches Err(e) ==> Some(e) == spec_update_error(old(members)@, *old(total) as int, to_add@, add_valid@, to_remove@, remove_valid@),
        r is Err ==> *final(members) == *old(members) && *final(total) == *old(total),
{
    let mut m = members.copy();
    let mut t = *total;
    let r = apply_member_changes(&mut m, &mut t, to_add, add_valid, to_remove, remove_valid);
    if r.is_ok() {
        *members = m;
        *total = t;
    }
    r
}

/// In place, leaving partial changes on an error (see [`update_members`]).
fn apply_member_changes(
    members: &mut AddrMap<u64>,
    total: &mut u64,
    to_add: &Vec<Member>,
    add_valid: &Vec<bool>,
    to_remove: &Vec<String>,
    remove_valid: &Vec<bool>,
) -> (r: Result<Vec<MemberDiff>, GroupError>)
    requires
        old(members).wf(),
        *old(total) == members_total(*old(members)),
        add_valid@.len() == to_add@.len(),
        remove_valid@.len() == to_remove@.len(),
    ensures
        final(members).wf(),
        *final(total) == members_total(*final(members)),
        r is Ok ==> ({
            let (m, t, d) = spec_update_members(old(members)@, *old(total) as int, member_pairs(to_add@), texts(to_remove@));
            &&& final(members)@ == m
            &&& *final(total) == t
            &&& r.unwrap()@.map_values(|x: MemberDiff| diff_view(x)) == d
        }),
        r is Err <==> spec_update_error(old(members)@, *old(total) as int, to_add@, add_valid@, to_remove@, remove_valid@) is Some,
        r matches Err(e) ==> Some(e) == spec_update_error(old(members)@, *old(total) as int, to_add@, add_valid@, to_remove@, remove_valid@),
{
    let ghost m0 = members@;
    let ghost t0 = *total as int;
    let ghost adds = member_pairs(to_add@);
    let ghost rems = texts(to_remove@);
    let mut diffs: Vec<MemberDiff> = Vec::new();
    let mut i: usize = 0;
    while i < to_add.len()
        invariant
            members.wf(),
            *total == members_total(*members),
            i <= to_add@.len(),
            adds == member_pairs(to_add@),
            m0 == old(members)@,
            t0 == *old(total) as int,
            add_valid@.len() == to_add@.len(),
            spec_adds_error(m0, t0, adds.subrange(0, i as int), member_keys(to_add@), add_valid@) is None,
            ({
                let (m, t, d) = spec_apply_adds(m0, t0, adds.subrange(0, i as int));
                &&& members@ == m
                &&& *total == t
                &&& diffs@.map_values(|x: MemberDiff| diff_view(x)) == d
            }),
        decreases to_add@.len() - i,
    {
        proof {
            assert(adds.subrange(0, i + 1).drop_last() =~= adds.subrange(0, i as int));
        }
        let add = &to_add[i];
        if !add_valid[i] {
            proof {
                assert(member_keys(to_add@)[i as int] == add.addr);
                lemma_adds_error_sticks(m0, t0, adds, member_keys(to_add@), add_valid@, i + 1);
                assert(adds.subrange(0, adds.len() as int) =~= adds);
            }
            return Err(GroupError::InvalidAddress(add.addr.clone()));
        }
        let prev = members.get(&add.addr);
        let p = match prev {
            Some(w) => w,
            None => 0,
        };
        proof {
            if members@.contains_key(add.addr@) {
                let k = members.index_of(add.addr@);
                members.lemma_index(k);
                lemma_weight_sum_nonneg_elem(members.entries@, k);
            }
        }
        if *total - p > u64::MAX - add.weight {
            proof {
                assert(adds[i as int] == (add.addr@, add.weight));
                assert(spec_adds_error(m0, t0, adds.subrange(0, i + 1), member_keys(to_add@), add_valid@) == Some(GroupError::Overflow));
                lemma_adds_error_sticks(m0, t0, adds, member_keys(to_add@), add_valid@, i + 1);
                assert(adds.subrange(0, adds.len() as int) =~= adds);
            }
            return Err(GroupError::Overflow);
        }
        let ghost d_before = diffs@;
        set_member_weight(members, total, add.addr.clone(), add.weight);
        diffs.push(MemberDiff { key: add.addr.clone(), old: prev, new: Some(add.weight) });
        proof {
            assert(diffs@.map_values(|x: MemberDiff| diff_view(x)) =~= d_before.map_values(|x: MemberDiff| diff_view(x)).push((add.addr@, prev, Some(add.weight))));
        }
        i = i + 1;
    }
    proof {
        assert(adds.subrange(0, i as int) =~= adds);
    }
    assert(spec_adds_error(m0, t0, adds, member_keys(to_add@), add_valid@) is None);
    let ghost (m1, t1, d1) = spec_apply_adds(m0, t0, adds);
    let mut j: usize = 0;
    while j < to_remove.len()
        invariant
            members.wf(),
            *total == members_total(*members),
            j <= to_remove@.len(),
            rems == texts(to_remove@),
            remove_valid@.len() == to_remove@.len(),
            m0 == old(members)@,
            t0 == *old(total) as int,
            adds == member_pairs(to_add@),
            spec_adds_error(m0, t0, adds, member_keys(to_add@), add_valid@) is None,
            spec_first_invalid(to_remove@, remove_valid@, j as nat) is None,
            ({
                let (m, t, d) = spec_apply_removes(m1, t1, d1, rems.subrange(0, j as int));
                &&& members@ == m
                &&& *total == t
                &&& diffs@.map_values(|x: MemberDiff| diff_view(x)) == d
            }),
        decreases to_remove@.len() - j,
    {
        proof {
            assert(rems.subrange(0, j + 1).drop_last() =~= rems.subrange(0, j as int));
        }
        let remove = &to_remove[j];
        if !remove_valid[j] {
            proof {
                assert(((j + 1) as nat - 1) as nat == j as nat);
                assert(spec_first_invalid(to_remove@, remove_valid@, (j + 1) as nat) == Some(GroupError::InvalidAddress(to_remove@[j as int])));
                assert(to_remove@[j as int] == *remove);
                lemma_first_invalid_sticks(to_remove@, remove_valid@, (j + 1) as nat, to_remove@.len());
            }
            return Err(GroupError::InvalidAddress(remove.clone()));
        }
        let ghost d_before = diffs@;
        // Only process this if they were actually in the list before
        match remove_member(members, total, remove) {
            Some(w) => {
                diffs.push(MemberDiff { key: remove.clone(), old: Some(w), new: None });
                proof {
                    assert(diffs@.map_values(|x: MemberDiff| diff_view(x)) =~= d_before.map_values(|x: MemberDiff| diff_view(x)).push((remove@, Some(w), None)));
                }
            },
            None => {},
        }
        j = j + 1;
    }
    proof {
        assert(rems.subrange(0, j as int) =~= rems);
    }
    Ok(diffs)
}

/// Sum of the weights of a member list.
pub open spec fn list_weight_sum(v: Seq<Member>) -> int
    decreases v.len(),
{
    if v.len() == 0 {
        0
    } else {
        list_weight_sum(v.drop_last()) + v.last().weight
    }
}

/// The members of a list, a later entry for an address replacing an earlier one.
pub open spec fn members_of_list(v: Seq<Member>) -> Map<Seq<char>, u64>
    decreases v.len(),
{
    if v.len() == 0 {
        Map::empty()
    } else {
        members_of_list(v.drop_last()).insert(v.last().addr@, v.last().weight)
    }
}

/// A new group: stores every listed member with its weight; the total is the sum of the
/// listed weights.
pub fn create(members_list: &Vec<Member>) -> (r: (AddrMap<u64>, u64))
    requires
        list_weight_sum(members_list@) <= u64::MAX,
    ensures
        r.0.wf(),
        r.0@ == members_of_list(members_list@),
        r.1 == list_weight_sum(members_list@),
{
    let mut members: AddrMap<u64> = AddrMap::new();
    let mut total: u64 = 0;
    let mut i: usize = 0;
    while i < members_list.len()
        invariant
            members.wf(),
            i <= members_list@.len(),
            list_weight_sum(members_list@) <= u64::MAX,
            members@ == members_of_list(members_list@.subrange(0, i as int)),
            total == list_weight_sum(members_list@.subrange(0, i as int)),
        decreases members_list@.len() - i,
    {
        proof {
            assert(members_list@.subrange(0, i + 1).drop_last() =~= members_list@.subrange(0, i as int));
            lemma_list_weight_sum_prefix(members_list@, i + 1);
        }
        let m = &members_list[i];
        total = total + m.weight;
        members.insert(m.addr.clone(), m.weight);
        i = i + 1;
    }
    proof {
        assert(members_list@.subrange(0, i as int) =~= members_list@);
    }
    (members, total)
}

proof fn lemma_list_weight_sum_prefix(v: Seq<Member>, k: int)
    requires
        0 <= k <= v.len(),
    ensures
        0 <= list_weight_sum(v.subrange(0, k)) <= list_weight_sum(v),
    decreases v.len() - k,
{
    if k < v.len() {
        lemma_list_weight_sum_prefix(v, k + 1);
        assert(v.subrange(0, k + 1).drop_last() =~= v.subrange(0, k));
        lemma_list_weight_sum_nonneg(v.subrange(0, k));
    } else {
        assert(v.subrange(0, k) =~= v);
        lemma_list_weight_sum_nonneg(v);
    }
}

proof fn lemma_list_weight_sum_nonneg(v: Seq<Member>)
    ensures
        list_weight_sum(v) >= 0,
    decreases v.len(),
{
    if v.len() > 0 {
        lemma_list_weight_sum_nonneg(v.drop_last());
    }
}

/// The admin changes the members (see [`update_members`]).
pub fn execute_update_members(
    admin: &Option<String>,
    members: &mut AddrMap<u64>,
    total: &mut u64,
    sender: &String,
    add: &Vec<Member>,
    add_valid: &Vec<bool>,
    remove: &Vec<String>,
    remove_valid: &Vec<bool>,
) -> (r: Result<Vec<MemberDiff>, GroupError>)
    requires
        old(members).wf(),
        *old(total) == members_total(*old(members)),
        add_valid@.len() == add@.len(),
        remove_valid@.len() == remove@.len(),
    ensures
        final(members).wf(),
        *final(total) == members_total(*final(members)),
        !spec_is_admin(*admin, sender@) ==> r == Err::<Vec<MemberDiff>, GroupError>(GroupError::NotAdmin) && final(members)@ == old(members)@ && *final(total) == *old(total),
        spec_is_admin(*admin, sender@) ==> (r is Err <==> spec_update_error(old(members)@, *old(total) as int, add@, add_valid@, remove@, remove_valid@) is Some),
        spec_is_admin(*admin, sender@) ==> (r matches Err(e) ==> Some(e) == spec_update_error(old(members)@, *old(total) as int, add@, add_valid@, remove@, remove_valid@)),
        r is Err ==> *final(members) == *old(members) && *final(total) == *old(total),
        spec_is_admin(*admin, sender@) && r is Ok ==> ({
            let (m, t, d) = spec_update_members(old(members)@, *old(total) as int, member_pairs(add@), texts(remove@));
            &&& final(members)@ == m
            &&& *final(total) == t
            &&& r.unwrap()@.map_values(|x: MemberDiff| diff_view(x)) == d
        }),
{
    if !is_admin(admin, sender) {
        return Err(GroupError::NotAdmin);
    }
    update_members(members, total, add, add_valid, remove, remove_valid)
}

/// A privileged update of one member's weight (a new member is added, an existing one gets
/// the given weight); `valid` is whether the chain accepts the member's address.
pub fn sudo_add_member(members: &mut AddrMap<u64>, total: &mut u64, add: Member, valid: bool) -> (r: Result<Vec<MemberDiff>, GroupError>)
    requires
        old(members).wf(),
        *old(total) == members_total(*old(members)),
    ensures
        final(members).wf(),
        *final(total) == members_total(*final(members)),
        r is Ok ==> final(members)@ == old(members)@.insert(add.addr@, add.weight) && *final(total) == *old(total) - opt_weight(old(members)@, add.addr@) + add.weight,
        r is Err <==> !valid || *old(total) - opt_weight(old(members)@, add.addr@) + add.weight > u64::MAX,
        !valid ==> r == Err::<Vec<MemberDiff>, GroupError>(GroupError::InvalidAddress(add.addr)),
        valid && r is Err ==> r == Err::<Vec<MemberDiff>, GroupError>(GroupError::Overflow),
        r is Err ==> *final(members) == *old(members) && *final(total) == *old(total),
{
    let ghost a = add;
    let ghost m0 = members@;
    let ghost t0 = *total as int;
    let mut adds: Vec<Member> = Vec::new();
    adds.push(add);
    let removes: Vec<String> = Vec::new();
    let mut add_valid: Vec<bool> = Vec::new();
    add_valid.push(valid);
    let remove_valid: Vec<bool> = Vec::new();
    let r = update_members(members, total, &adds, &add_valid, &removes, &remove_valid);
    proof {
        let pairs = member_pairs(adds@);
        assert(adds@.len() == 1 && adds@[0] == a);
        assert(pairs.len() == 1);
        assert(pairs.last() == (a.addr@, a.weight));
        assert(pairs.drop_last() =~= Seq::<(Seq<char>, u64)>::empty());
        assert(texts(removes@) =~= Seq::<Seq<char>>::empty());
        let e = Seq::<(Seq<char>, Option<u64>, Option<u64>)>::empty();
        assert(spec_apply_adds(m0, t0, pairs.drop_last()) == (m0, t0, e));
        let (m1, t1, d1) = spec_apply_adds(m0, t0, pairs);
        assert(m1 == m0.insert(a.addr@, a.weight));
        assert(t1 == t0 - opt_weight(m0, a.addr@) + a.weight);
        assert(spec_apply_removes(m1, t1, d1, texts(removes@)) == (m1, t1, d1));
        assert(spec_adds_error(m0, t0, pairs.drop_last(), member_keys(adds@), add_valid@) is None);
        assert(member_keys(adds@)[0] == a.addr);
        assert(spec_first_invalid(removes@, remove_valid@, 0) is None);
    }
    r
}

/// The total weight is at least the weight of any one member.
pub proof fn lemma_total_at_least(m: AddrMap<u64>, k: int)
    requires
        0 <= k < m.entries@.len(),
    ensures
        members_total(m) >= m.entries@[k].1,
{
    lemma_weight_sum_nonneg_elem(m.entries@, k);
}

/// Up to `limit` (10 unless given, at most 30) members after `start_after`, by address.
pub fn list_members(members: &AddrMap<u64>, start_after: &Option<String>, limit: Option<u32>) -> (r: Vec<(String, u64)>)
    requires
        members.wf(),
    ensures
        is_page(members@, opt_view(*start_after), spec_page_limit(limit, 10, 30) as int, r@),
{
    let l = page_limit(limit, 10, 30);
    page_after(members, start_after, l as usize)
}

/// The weight of member `addr`, if it is one.
pub fn query_member(members: &AddrMap<u64>, addr: &String) -> (r: Option<u64>)
    requires
        members.wf(),
    ensures
        r == members@.get(addr@),
{
    members.get(addr)
}

/// Up to `limit` (10 unless given, at most 30) members after `start_after`, heaviest first and
/// of equal weight by decreasing address.
pub fn list_members_by_weight(members: &AddrMap<u64>, start_after: &Option<(String, u64)>, limit: Option<u32>) -> (r: Vec<(String, u64)>)
    requires
        members.wf(),
    ensures
        is_weight_page(members@, opt_member(*start_after), spec_page_limit(limit, 10, 30) as int, r@),
{
    let l = page_limit(limit, 10, 30);
    page_by_weight(members, start_after, l as usize)
}

} // verus!
