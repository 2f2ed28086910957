//! A map from account addresses to values, kept as a vector of entries with
//! unique keys; its meaning is a mathematical map from address text to value.
use vstd::prelude::*;

verus! {

/// No key occurs twice in the entries.
pub open spec fn entries_wf<V>(s: Seq<(String, V)>) -> bool {
    forall|i: int, j: int|
        0 <= i < j < s.len() ==> #[trigger] s[i].0@ != #[trigger] s[j].0@
}

pub open spec fn entries_has<V>(s: Seq<(String, V)>, k: Seq<char>) -> bool {
    exists|i: int| 0 <= i < s.len() && #[trigger] s[i].0@ == k
}

pub open spec fn entries_index_of<V>(s: Seq<(String, V)>, k: Seq<char>) -> int {
    choose|i: int| 0 <= i < s.len() && #[trigger] s[i].0@ == k
}

/// The map that the entries stand for.
pub open spec fn entries_map<V>(s: Seq<(String, V)>) -> Map<Seq<char>, V> {
    Map::new(|k: Seq<char>| entries_has(s, k), |k: Seq<char>| s[entries_index_of(s, k)].1)
}

pub proof fn lemma_entries_index<V>(s: Seq<(String, V)>, i: int)
    requires
        entries_wf(s),
        0 <= i < s.len(),
    ensures
        entries_map(s).contains_key(s[i].0@),
        entries_map(s)[s[i].0@] == s[i].1,
        entries_index_of(s, s[i].0@) == i,
{
    let k = s[i].0@;
    assert(entries_has(s, k));
    let j = entries_index_of(s, k);
    assert(s[j].0@ == k);
    if j < i {
        assert(s[j].0@ != s[i].0@);
    } else if j > i {
        assert(s[i].0@ != s[j].0@);
    }
}

/// Address-keyed map.
#[derive(Debug)]
pub struct AddrMap<V> {
    pub entries: Vec<(String, V)>,
}

impl<V: Copy> AddrMap<V> {
    /// No address occurs twice.
    pub open spec fn wf(&self) -> bool {
        entries_wf(self.entries@)
    }

    pub open spec fn has(&self, k: Seq<char>) -> bool {
        entries_has(self.entries@, k)
    }

    pub open spec fn index_of(&self, k: Seq<char>) -> int {
        entries_index_of(self.entries@, k)
    }

    pub open spec fn view(&self) -> Map<Seq<char>, V> {
        entries_map(self.entries@)
    }

    pub proof fn lemma_index(&self, i: int)
        requires
            self.wf(),
            0 <= i < self.entries@.len(),
        ensures
            self.view().contains_key(self.entries@[i].0@),
            self.view()[self.entries@[i].0@] == self.entries@[i].1,
            self.index_of(self.entries@[i].0@) == i,
    {
        lemma_entries_index(self.entries@, i);
    }

    /// An empty map.
    pub fn new() -> (m: Self)
        ensures
            m.wf(),
            m.view() =~= Map::<Seq<char>, V>::empty(),
            m.entries@.len() == 0,
    {
        AddrMap { entries: Vec::new() }
    }

    /// A copy of the map, entry for entry.
    pub fn copy(&self) -> (m: Self)
        ensures
            m.entries@ == self.entries@,
    {
        let mut entries: Vec<(String, V)> = Vec::new();
        let mut i: usize = 0;
        while i < self.entries.len()
            invariant
                i <= self.entries@.len(),
                entries@ == self.entries@.subrange(0, i as int),
            decreases self.entries@.len() - i,
        {
            let k = self.entries[i].0.clone();
            let v = self.entries[i].1;
            entries.push((k, v));
            proof {
                assert(entries@ =~= self.entries@.subrange(0, i + 1));
            }
            i = i + 1;
        }
        proof {
            assert(self.entries@.subrange(0, i as int) =~= self.entries@);
        }
        AddrMap { entries }
    }

    /// Number of entries.
    pub fn len(&self) -> (n: usize)
        requires
            self.wf(),
        ensures
            n == self.entries@.len(),
            n == self.view().dom().len(),
    {
        proof {
            self.lemma_dom_len();
        }
        self.entries.len()
    }

    pub proof fn lemma_dom_len(&self)
        requires
            self.wf(),
        ensures
            self.view().dom().finite(),
            self.view().dom().len() == self.entries@.len(),
        decreases self.entries@.len(),
    {
        let n = self.entries@.len();
        let keys = Seq::new(n, |i: int| self.entries@[i].0@);
        assert(keys.no_duplicates()) by {
            assert forall|i: int, j: int| 0 <= i < keys.len() && 0 <= j < keys.len() && i != j implies keys[i]
                != keys[j] by {
                if i < j {
                    assert(self.entries@[i].0@ != self.entries@[j].0@);
                } else {
                    assert(self.entries@[j].0@ != self.entries@[i].0@);
                }
            }
        }
        assert(self.view().dom() =~= keys.to_set()) by {
            assert forall|k: Seq<char>| self.view().dom().contains(k) implies keys.to_set().contains(k) by {
                let i = self.index_of(k);
                assert(keys[i] == k);
            }
            assert forall|k: Seq<char>| keys.to_set().contains(k) implies self.view().dom().contains(k) by {
                let i = choose|i: int| 0 <= i < keys.len() && keys[i] == k;
                assert(self.entries@[i].0@ == k);
            }
        }
        keys.unique_seq_to_set();
    }

    /// Index of the entry for `k`, if any.
    pub fn find(&self, k: &String) -> (r: Option<usize>)
        requires
            self.wf(),
        ensures
            r is None <==> !self.view().contains_key(k@),
            r matches Some(i) ==> i < self.entries@.len() && self.entries@[i as int].0@ == k@
                && self.index_of(k@) == i,
    {
        let mut i: usize = 0;
        while i < self.entries.len()
            invariant
                self.wf(),
                i <= self.entries@.len(),
                forall|j: int| 0 <= j < i ==> #[trigger] self.entries@[j].0@ != k@,
            decreases self.entries@.len() - i,
        {
            if self.entries[i].0 == *k {
                proof {
                    self.lemma_index(i as int);
                }
                return Some(i);
            }
            i = i + 1;
        }
        None
    }

    /// The value stored for `k`, if any.
    pub fn get(&self, k: &String) -> (r: Option<V>)
        requires
            self.wf(),
        ensures
            r is Some <==> self.view().contains_key(k@),
            r matches Some(v) ==> v == self.view()[k@],
    {
        match self.find(k) {
            Some(i) => {
                proof {
                    self.lemma_index(i as int);
                }
                Some(self.entries[i].1)
            },
            None => None,
        }
    }

    /// Whether `k` has an entry.
    pub fn contains(&self, k: &String) -> (b: bool)
        requires
            self.wf(),
        ensures
            b == self.view().contains_key(k@),
    {
        self.find(k).is_some()
    }

    /// Stores `v` under `k`, replacing any previous value.
    pub fn insert(&mut self, k: String, v: V)
        requires
            old(self).wf(),
        ensures
            final(self).wf(),
            final(self).view() =~= old(self).view().insert(k@, v),
            old(self).view().contains_key(k@) ==> final(self).entries@ == old(self).entries@.update(
                old(self).index_of(k@),
                (k, v),
            ),
            !old(self).view().contains_key(k@) ==> final(self).entries@ == old(self).entries@.push(
                (k, v),
            ),
    {
        let ghost old_map = self.view();
        let ghost old_entries = self.entries@;
        match self.find(&k) {
            Some(i) => {
                self.entries.set(i, (k, v));
                proof {
                    assert(self.wf()) by {
                        assert forall|a: int, b: int| 0 <= a < b < self.entries@.len() implies #[trigger] self.entries@[a].0@
                            != #[trigger] self.entries@[b].0@ by {
                            assert(old_entries[a].0@ != old_entries[b].0@);
                        }
                    }
                    assert forall|key: Seq<char>| #[trigger] self.view().contains_key(key) == old_map.insert(k@, v).contains_key(key) by {
                        if self.has(key) {
                            let j = self.index_of(key);
                            assert(old_entries[j].0@ == key || j == i);
                        }
                        if old_map.contains_key(key) {
                            let j = choose|j: int| 0 <= j < old_entries.len() && #[trigger] old_entries[j].0@ == key;
                            if j != i {
                                assert(self.entries@[j].0@ == key);
                            }
                        }
                        if key == k@ {
                            assert(self.entries@[i as int].0@ == key);
                        }
                    }
                    assert forall|key: Seq<char>| self.view().contains_key(key) implies #[trigger] self.view()[key] == old_map.insert(k@, v)[key] by {
                        let j = self.index_of(key);
                        self.lemma_index(j);
                        if j != i {
                            assert(old_entries[j] == self.entries@[j]);
                            assert(old_entries[j].0@ == key);
                            if key == k@ {
                                assert(self.entries@[i as int].0@ == key);
                                assert(false);
                            }
                                                        assert(entries_has(old_entries, key));
                        }
                    }
                }
            },
            None => {
                self.entries.push((k, v));
                proof {
                    let n = old_entries.len();
                    assert(self.wf()) by {
                        assert forall|a: int, b: int| 0 <= a < b < self.entries@.len() implies #[trigger] self.entries@[a].0@
                            != #[trigger] self.entries@[b].0@ by {
                            if b < n {
                                assert(old_entries[a].0@ != old_entries[b].0@);
                            } else {
                                assert(self.entries@[b].0@ == k@);
                                assert(old_entries[a] == self.entries@[a]);
                                if old_entries[a].0@ == k@ {
                                                                        assert(entries_has(old_entries, k@));
                                }
                            }
                        }
                    }
                    assert forall|key: Seq<char>| #[trigger] self.view().contains_key(key) == old_map.insert(k@, v).contains_key(key) by {
                        if self.has(key) {
                            let j = self.index_of(key);
                            if j < n {
                                assert(old_entries[j].0@ == key);
                            }
                        }
                        if old_map.contains_key(key) {
                            let j = choose|j: int| 0 <= j < old_entries.len() && #[trigger] old_entries[j].0@ == key;
                            assert(self.entries@[j].0@ == key);
                        }
                        if key == k@ {
                            assert(self.entries@[n as int].0@ == key);
                        }
                    }
                    assert forall|key: Seq<char>| self.view().contains_key(key) implies #[trigger] self.view()[key] == old_map.insert(k@, v)[key] by {
                        let j = self.index_of(key);
                        self.lemma_index(j);
                        if j < n {
                            assert(old_entries[j] == self.entries@[j]);
                                                                                    lemma_entries_index(old_entries, j);
                        }
                    }
                }
            },
        }
    }

    /// Removes the entry for `k`, returning its value if there was one.
    pub fn remove(&mut self, k: &String) -> (r: Option<V>)
        requires
            old(self).wf(),
        ensures
            final(self).wf(),
            final(self).view() =~= old(self).view().remove(k@),
            r is Some <==> old(self).view().contains_key(k@),
            r matches Some(v) ==> v == old(self).view()[k@],
            r is Some ==> final(self).entries@ == old(self).entries@.remove(old(self).index_of(k@)),
            r is None ==> final(self).entries@ == old(self).entries@,
    {
        let ghost old_map = self.view();
        let ghost old_entries = self.entries@;
                match self.find(k) {
            Some(i) => {
                proof {
                    self.lemma_index(i as int);
                }
                let (_, v) = self.entries.remove(i);
                proof {
                    assert(self.entries@ =~= old_entries.remove(i as int));
                    assert(self.wf()) by {
                        assert forall|a: int, b: int| 0 <= a < b < self.entries@.len() implies #[trigger] self.entries@[a].0@
                            != #[trigger] self.entries@[b].0@ by {
                            let oa = if a < i { a } else { a + 1 };
                            let ob = if b < i { b } else { b + 1 };
                            assert(old_entries[oa].0@ != old_entries[ob].0@);
                        }
                    }
                    assert forall|key: Seq<char>| #[trigger] self.view().contains_key(key) == old_map.remove(k@).contains_key(key) by {
                        if self.has(key) {
                            let j = self.index_of(key);
                            let oj = if j < i { j } else { j + 1 };
                            assert(old_entries[oj].0@ == key);
                            if key == k@ {
                                assert(old_entries[i as int].0@ == key);
                            }
                        }
                        if old_map.contains_key(key) && key != k@ {
                            let j = choose|j: int| 0 <= j < old_entries.len() && #[trigger] old_entries[j].0@ == key;
                            assert(j != i);
                            let nj = if j < i { j } else { j - 1 };
                            assert(self.entries@[nj].0@ == key);
                        }
                    }
                    assert forall|key: Seq<char>| self.view().contains_key(key) implies #[trigger] self.view()[key] == old_map.remove(k@)[key] by {
                        let j = self.index_of(key);
                        self.lemma_index(j);
                        let oj = if j < i { j } else { j + 1 };
                        assert(old_entries[oj] == self.entries@[j]);
                        lemma_entries_index(old_entries, oj);
                    }
                }
                Some(v)
            },
            None => {
                proof {
                    assert forall|key: Seq<char>| #[trigger] self.view().contains_key(key) == old_map.remove(k@).contains_key(key) by {
                    }
                }
                None
            },
        }
    }

    /// Replaces the value of the entry at position `i`, keeping its key.
    pub fn set_value_at(&mut self, i: usize, v: V)
        requires
            old(self).wf(),
            i < old(self).entries@.len(),
        ensures
            final(self).wf(),
            final(self).entries@ == old(self).entries@.update(i as int, (old(self).entries@[i as int].0, v)),
            final(self).view() =~= old(self).view().insert(old(self).entries@[i as int].0@, v),
    {
        let ghost old_entries = self.entries@;
        let ghost old_map = self.view();
        let k = self.entries[i].0.clone();
        self.entries.set(i, (k, v));
        proof {
            assert(self.entries@ =~= old_entries.update(i as int, (old_entries[i as int].0, v)));
            assert(self.wf()) by {
                assert forall|a: int, b: int| 0 <= a < b < self.entries@.len() implies #[trigger] self.entries@[a].0@
                    != #[trigger] self.entries@[b].0@ by {
                    assert(old_entries[a].0@ != old_entries[b].0@);
                }
            }
            let key = old_entries[i as int].0@;
            assert forall|kk: Seq<char>| #[trigger] self.view().contains_key(kk) == old_map.insert(key, v).contains_key(kk) by {
                if self.has(kk) {
                    let j = self.index_of(kk);
                    assert(old_entries[j].0@ == kk);
                }
                if old_map.contains_key(kk) {
                    let j = choose|j: int| 0 <= j < old_entries.len() && #[trigger] old_entries[j].0@ == kk;
                    assert(self.entries@[j].0@ == kk);
                }
                if kk == key {
                    assert(self.entries@[i as int].0@ == kk);
                }
            }
            assert forall|kk: Seq<char>| self.view().contains_key(kk) implies #[trigger] self.view()[kk] == old_map.insert(key, v)[kk] by {
                let j = self.index_of(kk);
                self.lemma_index(j);
                if j != i {
                    lemma_entries_index(old_entries, j);
                    if kk == key {
                        lemma_entries_index(old_entries, i as int);
                    }
                }
            }
        }
    }
}

} // verus!
