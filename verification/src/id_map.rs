//! A map from numeric ids to values, kept as a vector of entries with unique keys;
//! its meaning is a mathematical map from id to value.
use vstd::prelude::*;

verus! {

/// No key occurs twice in the entries.
pub open spec fn id_entries_wf<V>(s: Seq<(u64, V)>) -> bool {
    forall|i: int, j: int|
        0 <= i < j < s.len() ==> #[trigger] s[i].0 != #[trigger] s[j].0
}

pub open spec fn id_entries_has<V>(s: Seq<(u64, V)>, k: u64) -> bool {
    exists|i: int| 0 <= i < s.len() && #[trigger] s[i].0 == k
}

pub open spec fn id_entries_index_of<V>(s: Seq<(u64, V)>, k: u64) -> int {
    choose|i: int| 0 <= i < s.len() && #[trigger] s[i].0 == k
}

/// The map that the entries stand for.
pub open spec fn id_entries_map<V>(s: Seq<(u64, V)>) -> Map<u64, V> {
    Map::new(|k: u64| id_entries_has(s, k), |k: u64| s[id_entries_index_of(s, k)].1)
}

pub proof fn lemma_id_entries_index<V>(s: Seq<(u64, V)>, i: int)
    requires
        id_entries_wf(s),
        0 <= i < s.len(),
    ensures
        id_entries_map(s).contains_key(s[i].0),
        id_entries_map(s)[s[i].0] == s[i].1,
        id_entries_index_of(s, s[i].0) == i,
{
    let k = s[i].0;
    assert(id_entries_has(s, k));
    let j = id_entries_index_of(s, k);
    assert(s[j].0 == k);
    if j < i {
        assert(s[j].0 != s[i].0);
    } else if j > i {
        assert(s[i].0 != s[j].0);
    }
}

/// Id-keyed map.
#[derive(Debug)]
pub struct IdMap<V> {
    pub entries: Vec<(u64, V)>,
}

impl<V> IdMap<V> {
    /// No id occurs twice.
    pub open spec fn wf(&self) -> bool {
        id_entries_wf(self.entries@)
    }

    pub open spec fn has(&self, k: u64) -> bool {
        id_entries_has(self.entries@, k)
    }

    pub open spec fn index_of(&self, k: u64) -> int {
        id_entries_index_of(self.entries@, k)
    }

    pub open spec fn view(&self) -> Map<u64, V> {
        id_entries_map(self.entries@)
    }

    pub proof fn lemma_index(&self, i: int)
        requires
            self.wf(),
            0 <= i < self.entries@.len(),
        ensures
            self.view().contains_key(self.entries@[i].0),
            self.view()[self.entries@[i].0] == self.entries@[i].1,
            self.index_of(self.entries@[i].0) == i,
    {
        lemma_id_entries_index(self.entries@, i);
    }

    /// An empty map.
    pub fn new() -> (m: Self)
        ensures
            m.wf(),
            m.view() =~= Map::<u64, V>::empty(),
            m.entries@.len() == 0,
    {
        IdMap { entries: Vec::new() }
    }

    /// Number of entries.
    pub fn len(&self) -> (n: usize)
        requires
            self.wf(),
        ensures
            n == self.entries@.len(),
            n == self.view().dom().len(),
    {
        proof {
            self.lemma_dom_len();
        }
        self.entries.len()
    }

    pub proof fn lemma_dom_len(&self)
        requires
            self.wf(),
        ensures
            self.view().dom().finite(),
            self.view().dom().len() == self.entries@.len(),
        decreases self.entries@.len(),
    {
        let n = self.entries@.len();
        let keys = Seq::new(n, |i: int| self.entries@[i].0);
        assert(keys.no_duplicates()) by {
            assert forall|i: int, j: int| 0 <= i < keys.len() && 0 <= j < keys.len() && i != j implies keys[i]
                != keys[j] by {
                if i < j {
                    assert(self.entries@[i].0 != self.entries@[j].0);
                } else {
                    assert(self.entries@[j].0 != self.entries@[i].0);
                }
            }
        }
        assert(self.view().dom() =~= keys.to_set()) by {
            assert forall|k: u64| self.view().dom().contains(k) implies keys.to_set().contains(k) by {
                let i = self.index_of(k);
                assert(keys[i] == k);
            }
            assert forall|k: u64| keys.to_set().contains(k) implies self.view().dom().contains(k) by {
                let i = choose|i: int| 0 <= i < keys.len() && keys[i] == k;
                assert(self.entries@[i].0 == k);
            }
        }
        keys.unique_seq_to_set();
    }

    /// Index of the entry for `k`, if any.
    pub fn find(&self, k: u64) -> (r: Option<usize>)
        requires
            self.wf(),
        ensures
            r is None <==> !self.view().contains_key(k),
            r matches Some(i) ==> i < self.entries@.len() && self.entries@[i as int].0 == k
                && self.index_of(k) == i,
    {
        let mut i: usize = 0;
        while i < self.entries.len()
            invariant
                self.wf(),
                i <= self.entries@.len(),
                forall|j: int| 0 <= j < i ==> #[trigger] self.entries@[j].0 != k,
            decreases self.entries@.len() - i,
        {
            if self.entries[i].0 == k {
                proof {
                    self.lemma_index(i as int);
                }
                return Some(i);
            }
            i = i + 1;
        }
        None
    }

    /// The value stored for `k`, if any.
    pub fn get(&self, k: u64) -> (r: Option<&V>)
        requires
            self.wf(),
        ensures
            r is Some <==> self.view().contains_key(k),
            r matches Some(v) ==> *v == self.view()[k],
    {
        match self.find(k) {
            Some(i) => {
                proof {
                    self.lemma_index(i as int);
                }
                Some(&self.entries[i].1)
            },
            None => None,
        }
    }

    /// The smallest id at least `n` that has an entry, if any.
    pub fn smallest_key_from(&self, n: u64) -> (r: Option<u64>)
        requires
            self.wf(),
        ensures
            r matches Some(k) ==> self.view().contains_key(k) && n <= k && forall|j: u64| #[trigger] self.view().contains_key(j) && n <= j ==> k <= j,
            r is None ==> forall|j: u64| #[trigger] self.view().contains_key(j) ==> j < n,
    {
        let mut best: Option<u64> = None;
        let mut i: usize = 0;
        while i < self.entries.len()
            invariant
                self.wf(),
                i <= self.entries@.len(),
                best matches Some(k) ==> self.view().contains_key(k) && n <= k,
                forall|x: int| 0 <= x < i && n <= #[trigger] self.entries@[x].0 ==> (best matches Some(k) && k <= self.entries@[x].0),
            decreases self.entries@.len() - i,
        {
            let k = self.entries[i].0;
            proof {
                self.lemma_index(i as int);
            }
            if n <= k {
                match best {
                    None => { best = Some(k); },
                    Some(b) => if k < b { best = Some(k); },
                }
            }
            i = i + 1;
        }
        proof {
            assert forall|j: u64| #[trigger] self.view().contains_key(j) implies (n <= j ==> (best matches Some(k) && k <= j)) by {
                assert(self.has(j));
                let x = self.index_of(j);
                assert(self.entries@[x].0 == j);
            }
        }
        best
    }

    /// The largest id below `n` that has an entry, if any.
    pub fn largest_key_below(&self, n: u64) -> (r: Option<u64>)
        requires
            self.wf(),
        ensures
            r matches Some(k) ==> self.view().contains_key(k) && k < n && forall|j: u64| #[trigger] self.view().contains_key(j) && j < n ==> j <= k,
            r is None ==> forall|j: u64| #[trigger] self.view().contains_key(j) ==> j >= n,
    {
        let mut best: Option<u64> = None;
        let mut i: usize = 0;
        while i < self.entries.len()
            invariant
                self.wf(),
                i <= self.entries@.len(),
                best matches Some(k) ==> self.view().contains_key(k) && k < n,
                forall|x: int| 0 <= x < i && #[trigger] self.entries@[x].0 < n ==> (best matches Some(k) && self.entries@[x].0 <= k),
            decreases self.entries@.len() - i,
        {
            let k = self.entries[i].0;
            proof {
                self.lemma_index(i as int);
            }
            if k < n {
                match best {
                    None => { best = Some(k); },
                    Some(b) => if k > b { best = Some(k); },
                }
            }
            i = i + 1;
        }
        proof {
            assert forall|j: u64| #[trigger] self.view().contains_key(j) implies (j < n ==> (best matches Some(k) && j <= k)) by {
                assert(self.has(j));
                let x = self.index_of(j);
                assert(self.entries@[x].0 == j);
            }
        }
        best
    }

    /// Whether `k` has an entry.
    pub fn contains(&self, k: u64) -> (b: bool)
        requires
            self.wf(),
        ensures
            b == self.view().contains_key(k),
    {
        self.find(k).is_some()
    }

    /// Stores `v` under `k`, replacing any previous value.
    pub fn insert(&mut self, k: u64, v: V)
        requires
            old(self).wf(),
        ensures
            final(self).wf(),
            final(self).view() =~= old(self).view().insert(k, v),
    {
        let ghost old_map = self.view();
        let ghost old_entries = self.entries@;
        match self.find(k) {
            Some(i) => {
                self.entries.set(i, (k, v));
                proof {
                    assert(self.wf()) by {
                        assert forall|a: int, b: int| 0 <= a < b < self.entries@.len() implies #[trigger] self.entries@[a].0
                            != #[trigger] self.entries@[b].0 by {
                            assert(old_entries[a].0 != old_entries[b].0);
                        }
                    }
                    assert forall|key: u64| #[trigger] self.view().contains_key(key) == old_map.insert(k, v).contains_key(key) by {
                        if self.has(key) {
                            let j = self.index_of(key);
                            assert(old_entries[j].0 == key || j == i);
                        }
                        if old_map.contains_key(key) {
                            let j = choose|j: int| 0 <= j < old_entries.len() && #[trigger] old_entries[j].0 == key;
                            if j != i {
                                assert(self.entries@[j].0 == key);
                            }
                        }
                        if key == k {
                            assert(self.entries@[i as int].0 == key);
                        }
                    }
                    assert forall|key: u64| self.view().contains_key(key) implies #[trigger] self.view()[key] == old_map.insert(k, v)[key] by {
                        let j = self.index_of(key);
                        self.lemma_index(j);
                        if j != i {
                            assert(old_entries[j] == self.entries@[j]);
                            assert(old_entries[j].0 == key);
                            if key == k {
                                assert(self.entries@[i as int].0 == key);
                                assert(false);
                            }
                                                        assert(id_entries_has(old_entries, key));
                        }
                    }
                }
            },
            None => {
                self.entries.push((k, v));
                proof {
                    let n = old_entries.len();
                    assert(self.wf()) by {
                        assert forall|a: int, b: int| 0 <= a < b < self.entries@.len() implies #[trigger] self.entries@[a].0
                            != #[trigger] self.entries@[b].0 by {
                            if b < n {
                                assert(old_entries[a].0 != old_entries[b].0);
                            } else {
                                assert(self.entries@[b].0 == k);
                                assert(old_entries[a] == self.entries@[a]);
                                if old_entries[a].0 == k {
                                                                        assert(id_entries_has(old_entries, k));
                                }
                            }
                        }
                    }
                    assert forall|key: u64| #[trigger] self.view().contains_key(key) == old_map.insert(k, v).contains_key(key) by {
                        if self.has(key) {
                            let j = self.index_of(key);
                            if j < n {
                                assert(old_entries[j].0 == key);
                            }
                        }
                        if old_map.contains_key(key) {
                            let j = choose|j: int| 0 <= j < old_entries.len() && #[trigger] old_entries[j].0 == key;
                            assert(self.entries@[j].0 == key);
                        }
                        if key == k {
                            assert(self.entries@[n as int].0 == key);
                        }
                    }
                    assert forall|key: u64| self.view().contains_key(key) implies #[trigger] self.view()[key] == old_map.insert(k, v)[key] by {
                        let j = self.index_of(key);
                        self.lemma_index(j);
                        if j < n {
                            assert(old_entries[j] == self.entries@[j]);
                                                                                    lemma_id_entries_index(old_entries, j);
                        }
                    }
                }
            },
        }
    }

    /// Removes the entry for `k`, returning its value if there was one.
    pub fn remove(&mut self, k: u64) -> (r: Option<V>)
        requires
            old(self).wf(),
        ensures
            final(self).wf(),
            final(self).view() =~= old(self).view().remove(k),
            r is Some <==> old(self).view().contains_key(k),
            r matches Some(v) ==> v == old(self).view()[k],
    {
        let ghost old_map = self.view();
        let ghost old_entries = self.entries@;
                match self.find(k) {
            Some(i) => {
                proof {
                    self.lemma_index(i as int);
                }
                let (_, v) = self.entries.remove(i);
                proof {
                    assert(self.entries@ =~= old_entries.remove(i as int));
                    assert(self.wf()) by {
                        assert forall|a: int, b: int| 0 <= a < b < self.entries@.len() implies #[trigger] self.entries@[a].0
                            != #[trigger] self.entries@[b].0 by {
                            let oa = if a < i { a } else { a + 1 };
                            let ob = if b < i { b } else { b + 1 };
                            assert(old_entries[oa].0 != old_entries[ob].0);
                        }
                    }
                    assert forall|key: u64| #[trigger] self.view().contains_key(key) == old_map.remove(k).contains_key(key) by {
                        if self.has(key) {
                            let j = self.index_of(key);
                            let oj = if j < i { j } else { j + 1 };
                            assert(old_entries[oj].0 == key);
                            if key == k {
                                assert(old_entries[i as int].0 == key);
                            }
                        }
                        if old_map.contains_key(key) && key != k {
                            let j = choose|j: int| 0 <= j < old_entries.len() && #[trigger] old_entries[j].0 == key;
                            assert(j != i);
                            let nj = if j < i { j } else { j - 1 };
                            assert(self.entries@[nj].0 == key);
                        }
                    }
                    assert forall|key: u64| self.view().contains_key(key) implies #[trigger] self.view()[key] == old_map.remove(k)[key] by {
                        let j = self.index_of(key);
                        self.lemma_index(j);
                        let oj = if j < i { j } else { j + 1 };
                        assert(old_entries[oj] == self.entries@[j]);
                        lemma_id_entries_index(old_entries, oj);
                    }
                }
                Some(v)
            },
            None => {
                proof {
                    assert forall|key: u64| #[trigger] self.view().contains_key(key) == old_map.remove(k).contains_key(key) by {
                    }
                }
                None
            },
        }
    }
}

} // verus!
