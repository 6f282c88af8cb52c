//! A map from texts to values whose entries can also be walked by position.
use vstd::hash_map::StringHashMap;
use vstd::prelude::*;

verus! {

/// A map with text keys.
#[verifier::reject_recursive_types(V)]
pub struct Table<V> {
    slots: Vec<(String, V)>,
    index: StringHashMap<usize>,
}

impl<V> View for Table<V> {
    type V = Map<Seq<char>, V>;

    closed spec fn view(&self) -> Map<Seq<char>, V> {
        Map::new(
            |k: Seq<char>| self.index@.contains_key(k),
            |k: Seq<char>| self.slots@[self.index@[k] as int].1,
        )
    }
}

impl<V> Table<V> {
    /// Whether positions and keys fit together.
    pub closed spec fn wf(&self) -> bool {
        &&& forall|i: int|
            0 <= i < self.slots@.len() ==> self.index@.contains_key((#[trigger] self.slots@[i]).0@)
                && self.index@[self.slots@[i].0@] == i
        &&& forall|k: Seq<char>| #[trigger]
            self.index@.contains_key(k) ==> self.index@[k] < self.slots@.len()
                && self.slots@[self.index@[k] as int].0@ == k
    }

    /// The keys, in the order in which they are walked.
    pub closed spec fn keys(&self) -> Seq<Seq<char>> {
        self.slots@.map_values(|p: (String, V)| p.0@)
    }

    /// Each key of the map is walked exactly once.
    pub proof fn keys_are_the_domain(&self)
        requires
            self.wf(),
        ensures
            self.keys().no_duplicates(),
            forall|i: int| 0 <= i < self.keys().len() ==> self@.contains_key(#[trigger] self.keys()[i]),
            forall|k: Seq<char>| #[trigger]
                self@.contains_key(k) ==> exists|i: int|
                    0 <= i < self.keys().len() && #[trigger] self.keys()[i] == k,
            self@.dom() == self.keys().to_set(),
            self@.dom().finite(),
            self@.dom().len() == self.keys().len(),
    {
        let keys = self.keys();
        assert forall|i: int, j: int| 0 <= i < keys.len() && 0 <= j < keys.len() && i != j implies keys[i]
            != keys[j] by {
            assert(self.index@[self.slots@[i].0@] == i);
            assert(self.index@[self.slots@[j].0@] == j);
        }
        assert forall|i: int| 0 <= i < keys.len() implies self@.contains_key(#[trigger] keys[i]) by {
            assert(self.index@.contains_key(self.slots@[i].0@));
        }
        assert forall|k: Seq<char>| #[trigger] self@.contains_key(k) implies exists|i: int|
            0 <= i < keys.len() && #[trigger] keys[i] == k by {
            assert(keys[self.index@[k] as int] == k);
        }
        assert(self@.dom() =~= keys.to_set()) by {
            assert forall|k: Seq<char>| self@.dom().contains(k) == #[trigger] keys.to_set().contains(
                k,
            ) by {
                if self@.contains_key(k) {
                    let i = choose|i: int| 0 <= i < keys.len() && #[trigger] keys[i] == k;
                    assert(keys.contains(k));
                }
            }
        }
        keys.unique_seq_to_set();
    }

    /// A map without entries.
    pub fn new() -> (t: Table<V>)
        ensures
            t.wf(),
            t@ == Map::<Seq<char>, V>::empty(),
            t.keys() == Seq::<Seq<char>>::empty(),
    {
        let t = Table { slots: Vec::new(), index: StringHashMap::new() };
        assert(t@ =~= Map::<Seq<char>, V>::empty());
        assert(t.keys() =~= Seq::<Seq<char>>::empty());
        t
    }

    /// The number of entries.
    pub fn len(&self) -> (n: usize)
        requires
            self.wf(),
        ensures
            n == self.keys().len(),
            n == self@.dom().len(),
            self@.dom().finite(),
    {
        proof {
            self.keys_are_the_domain();
        }
        self.slots.len()
    }

    /// The key at a position.
    pub fn key_at(&self, i: usize) -> (k: &String)
        requires
            i < self.keys().len(),
        ensures
            k@ == self.keys()[i as int],
    {
        &self.slots[i].0
    }

    /// The value at a position.
    pub fn value_at(&self, i: usize) -> (v: &V)
        requires
            self.wf(),
            i < self.keys().len(),
        ensures
            self@.contains_key(self.keys()[i as int]),
            *v == self@[self.keys()[i as int]],
    {
        assert(self.index@.contains_key(self.slots@[i as int].0@));
        &self.slots[i].1
    }

    /// The value of a key.
    pub fn get(&self, key: &str) -> (r: Option<&V>)
        requires
            self.wf(),
        ensures
            match r {
                Some(v) => self@.contains_key(key@) && *v == self@[key@],
                None => !self@.contains_key(key@),
            },
    {
        match self.index.get(key) {
            Some(i) => Some(&self.slots[*i].1),
            None => None,
        }
    }

    /// Whether the key has a value.
    pub fn contains(&self, key: &str) -> (r: bool)
        requires
            self.wf(),
        ensures
            r == self@.contains_key(key@),
    {
        self.index.contains_key(key)
    }

    /// Sets the value of a key, in place of any earlier one.
    pub fn insert(&mut self, key: String, v: V)
        requires
            old(self).wf(),
        ensures
            final(self).wf(),
            final(self)@ == old(self)@.insert(key@, v),
    {
        let ghost k = key@;
        let ghost before = *self;
        let at: Option<usize> = match self.index.get(key.as_str()) {
            Some(i) => Some(*i),
            None => None,
        };
        match at {
            Some(i) => {
                self.slots.set(i, (key, v));
                assert(self.index@ == before.index@);
                assert forall|j: int| 0 <= j < self.slots@.len() implies self.index@.contains_key(
                    (#[trigger] self.slots@[j]).0@,
                ) && self.index@[self.slots@[j].0@] == j by {
                    assert(before.slots@[j].0@ == self.slots@[j].0@);
                }
                assert(self@ =~= before@.insert(k, v)) by {
                    assert forall|q: Seq<char>| before@.insert(k, v).contains_key(q) implies #[trigger] self@[q]
                        == before@.insert(k, v)[q] by {
                        assert(self.index@.contains_key(q));
                        if q != k {
                            assert(before.index@[q] != i);
                        }
                    }
                }
            },
            None => {
                let n: usize = self.slots.len();
                self.index.insert(key.clone(), n);
                self.slots.push((key, v));
                assert forall|j: int| 0 <= j < self.slots@.len() implies self.index@.contains_key(
                    (#[trigger] self.slots@[j]).0@,
                ) && self.index@[self.slots@[j].0@] == j by {
                    if j < n {
                        assert(before.slots@[j].0@ == self.slots@[j].0@);
                        assert(before.index@.contains_key(before.slots@[j].0@));
                    }
                }
                assert forall|q: Seq<char>| #[trigger] self.index@.contains_key(q) implies self.index@[q]
                    < self.slots@.len() && self.slots@[self.index@[q] as int].0@ == q by {
                    if q != k {
                        assert(before.index@.contains_key(q));
                    }
                }
                assert(self@ =~= before@.insert(k, v)) by {
                    assert forall|q: Seq<char>| before@.insert(k, v).contains_key(q) implies #[trigger] self@[q]
                        == before@.insert(k, v)[q] by {
                        if q != k {
                            assert(before.index@.contains_key(q));
                        }
                    }
                }
            },
        }
    }

    /// Takes out the entry of a key; says whether there was one.
    pub fn remove(&mut self, key: &str) -> (existed: bool)
        requires
            old(self).wf(),
        ensures
            final(self).wf(),
            existed == old(self)@.contains_key(key@),
            final(self)@ == old(self)@.remove(key@),
    {
        let ghost before = *self;
        let at: usize = match self.index.get(key) {
            Some(i) => *i,
            None => {
                assert(self@.remove(key@) =~= self@);
                return false;
            },
        };
        let last: usize = self.slots.len() - 1;
        self.index.remove(key);
        self.slots.swap_remove(at);
        if at < last {
            let moved = self.slots[at].0.clone();
            assert(moved@ == before.slots@[last as int].0@);
            self.index.insert(moved, at);
        }
        proof {
            assert forall|j: int| 0 <= j < self.slots@.len() implies self.index@.contains_key(
                (#[trigger] self.slots@[j]).0@,
            ) && self.index@[self.slots@[j].0@] == j by {
                if j == at {
                    assert(self.slots@[j] == before.slots@[last as int]);
                } else {
                    assert(self.slots@[j] == before.slots@[j]);
                    assert(before.index@[before.slots@[j].0@] == j);
                    assert(before.index@[before.slots@[last as int].0@] == last);
                }
            }
            assert forall|q: Seq<char>| #[trigger] self.index@.contains_key(q) implies self.index@[q]
                < self.slots@.len() && self.slots@[self.index@[q] as int].0@ == q by {
                assert(before.index@.contains_key(before.slots@[last as int].0@));
                assert(before.index@.contains_key(q));
                assert(q != key@);
                if at < last && q == before.slots@[last as int].0@ {
                    assert(self.index@[q] == at);
                } else {
                    assert(self.index@[q] == before.index@[q]);
                    assert(before.slots@[before.index@[q] as int].0@ == q);
                    assert(before.index@[q] != at);
                    if before.index@[q] == last {
                        assert(q == before.slots@[last as int].0@);
                    }
                }
            }
            assert(self@ =~= before@.remove(key@)) by {
                assert forall|q: Seq<char>| self@.contains_key(q) == before@.remove(
                    key@,
                ).contains_key(q) by {
                    assert(before.index@.contains_key(before.slots@[last as int].0@));
                }
                assert forall|q: Seq<char>| before@.remove(key@).contains_key(q) implies #[trigger] self@[q]
                    == before@.remove(key@)[q] by {
                    assert(before.index@.contains_key(q));
                    if before.index@[q] == last {
                        assert(q == before.slots@[last as int].0@);
                    } else {
                        assert(before.index@[q] != at);
                        assert(before.index@[before.slots@[last as int].0@] == last);
                        assert(self.index@[q] == before.index@[q]);
                    }
                }
            }
        }
        true
    }
}

} // verus!
