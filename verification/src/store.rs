//! A map keyed by text: the open documents by URI, the fetched schemas by URL.
use vstd::prelude::*;

use crate::strings::text_eq;

verus! {

/// An entry of a `TextMap`.
pub struct Slot<V> {
    key: String,
    value: V,
}

/// A map from text keys to values, each key held once.
pub struct TextMap<V> {
    slots: Vec<Slot<V>>,
}

impl<V> TextMap<V> {
    /// No key is held twice.
    pub closed spec fn wf(self) -> bool {
        forall|i: int, j: int|
            0 <= i < self.slots.len() && 0 <= j < self.slots.len() && i != j
                ==> #[trigger] self.slots@[i].key@ != #[trigger] self.slots@[j].key@
    }

    /// The slot that holds `k`.
    closed spec fn holds(self, k: Seq<char>, i: int) -> bool {
        0 <= i < self.slots.len() && self.slots@[i].key@ == k
    }

    /// The map from each key to its value.
    pub closed spec fn view(self) -> Map<Seq<char>, V> {
        Map::new(
            |k: Seq<char>| exists|i: int| self.holds(k, i),
            |k: Seq<char>| self.slots@[choose|i: int| self.holds(k, i)].value,
        )
    }

    proof fn lemma_view_at(self, i: int)
        requires
            self.wf(),
            0 <= i < self.slots.len(),
        ensures
            self.view().contains_key(self.slots@[i].key@),
            self.view()[self.slots@[i].key@] == self.slots@[i].value,
    {
        let k = self.slots@[i].key@;
        assert(self.holds(k, i));
        let c = choose|j: int| self.holds(k, j);
        assert(self.holds(k, c));
        if c != i {
            assert(self.slots@[c].key@ != self.slots@[i].key@);
        }
    }

    /// The empty map.
    pub fn new() -> (m: TextMap<V>)
        ensures
            m.wf(),
            m.view() == Map::<Seq<char>, V>::empty(),
    {
        let m = TextMap { slots: Vec::new() };
        assert(m.view() =~= Map::<Seq<char>, V>::empty());
        m
    }

    /// The index of the slot that holds `key`.
    fn find(&self, key: &str) -> (r: Option<usize>)
        requires
            self.wf(),
        ensures
            match r {
                Some(i) => self.holds(key@, i as int),
                None => forall|i: int| !self.holds(key@, i),
            },
    {
        let mut i: usize = 0;
        while i < self.slots.len()
            invariant
                i <= self.slots.len(),
                forall|j: int| 0 <= j < i ==> !self.holds(key@, j),
            decreases self.slots.len() - i,
        {
            if text_eq(self.slots[i].key.as_str(), key) {
                return Some(i);
            }
            i = i + 1;
        }
        None
    }

    /// The value of `key`.
    pub fn get(&self, key: &str) -> (r: Option<&V>)
        requires
            self.wf(),
        ensures
            match r {
                Some(v) => self.view().contains_key(key@) && self.view()[key@] == *v,
                None => !self.view().contains_key(key@),
            },
    {
        match self.find(key) {
            Some(i) => {
                proof {
                    self.lemma_view_at(i as int);
                }
                Some(&self.slots[i].value)
            },
            None => None,
        }
    }

    /// Set the value of `key`.
    pub fn insert(&mut self, key: &str, value: V)
        requires
            old(self).wf(),
        ensures
            final(self).wf(),
            final(self).view() == old(self).view().insert(key@, value),
    {
        let ghost old_self = *self;
        match self.find(key) {
            Some(i) => {
                let old_key = self.slots[i].key.clone();
                let ghost sv = value;
                self.slots.set(i, Slot { key: old_key, value });
                proof {
                    assert forall|a: int, b: int|
                        0 <= a < self.slots.len() && 0 <= b < self.slots.len() && a != b
                            implies #[trigger] self.slots@[a].key@ != #[trigger] self.slots@[b].key@ by {
                        assert(self.slots@[a].key@ == old_self.slots@[a].key@);
                        assert(self.slots@[b].key@ == old_self.slots@[b].key@);
                    }
                    assert forall|k: Seq<char>| #[trigger] self.view().contains_key(k)
                        == old_self.view().insert(key@, sv).contains_key(k) by {
                        if exists|j: int| old_self.holds(k, j) {
                            let j = choose|j: int| old_self.holds(k, j);
                            assert(self.holds(k, j));
                        }
                        if exists|j: int| self.holds(k, j) {
                            let j = choose|j: int| self.holds(k, j);
                            assert(old_self.holds(k, j));
                        }
                    }
                    assert forall|k: Seq<char>| #[trigger] self.view().contains_key(k) implies self.view()[k]
                        == old_self.view().insert(key@, sv)[k] by {
                        let j = choose|j: int| self.holds(k, j);
                        self.lemma_view_at(j);
                        if k != key@ {
                            old_self.lemma_view_at(j);
                        }
                    }
                    assert(self.view() =~= old_self.view().insert(key@, sv));
                }
            },
            None => {
                let ghost sv = value;
                self.slots.push(Slot { key: crate::strings::to_string(key), value });
                proof {
                    let n = old_self.slots.len() as int;
                    assert forall|a: int, b: int|
                        0 <= a < self.slots.len() && 0 <= b < self.slots.len() && a != b
                            implies #[trigger] self.slots@[a].key@ != #[trigger] self.slots@[b].key@ by {
                        if a < n && b < n {
                            assert(self.slots@[a] == old_self.slots@[a]);
                            assert(self.slots@[b] == old_self.slots@[b]);
                        } else if a == n {
                            assert(!old_self.holds(key@, b));
                        } else {
                            assert(!old_self.holds(key@, a));
                        }
                    }
                    assert forall|k: Seq<char>| #[trigger] self.view().contains_key(k)
                        == old_self.view().insert(key@, sv).contains_key(k) by {
                        if exists|j: int| old_self.holds(k, j) {
                            let j = choose|j: int| old_self.holds(k, j);
                            assert(self.holds(k, j));
                        }
                        if k == key@ {
                            assert(self.holds(k, n));
                        }
                        if exists|j: int| self.holds(k, j) {
                            let j = choose|j: int| self.holds(k, j);
                            if j < n {
                                assert(old_self.holds(k, j));
                            }
                        }
                    }
                    assert forall|k: Seq<char>| #[trigger] self.view().contains_key(k) implies self.view()[k]
                        == old_self.view().insert(key@, sv)[k] by {
                        let j = choose|j: int| self.holds(k, j);
                        self.lemma_view_at(j);
                        if j < n {
                            assert(self.slots@[j] == old_self.slots@[j]);
                            old_self.lemma_view_at(j);
                        }
                    }
                    assert(self.view() =~= old_self.view().insert(key@, sv));
                }
            },
        }
    }

    /// Remove `key` and its value.
    pub fn remove(&mut self, key: &str)
        requires
            old(self).wf(),
        ensures
            final(self).wf(),
            final(self).view() == old(self).view().remove(key@),
    {
        let ghost old_self = *self;
        match self.find(key) {
            Some(i) => {
                let _ = self.slots.remove(i);
                proof {
                    let i = i as int;
                    assert forall|a: int| 0 <= a < self.slots.len() implies #[trigger] self.slots@[a]
                        == old_self.slots@[if a < i {
                        a
                    } else {
                        a + 1
                    }] by {}
                    assert forall|a: int, b: int|
                        0 <= a < self.slots.len() && 0 <= b < self.slots.len() && a != b
                            implies #[trigger] self.slots@[a].key@ != #[trigger] self.slots@[b].key@ by {
                        let a2 = if a < i {
                            a
                        } else {
                            a + 1
                        };
                        let b2 = if b < i {
                            b
                        } else {
                            b + 1
                        };
                        assert(self.slots@[a] == old_self.slots@[a2]);
                        assert(self.slots@[b] == old_self.slots@[b2]);
                    }
                    assert forall|k: Seq<char>| #[trigger] self.view().contains_key(k)
                        == old_self.view().remove(key@).contains_key(k) by {
                        if exists|j: int| old_self.holds(k, j) {
                            let j = choose|j: int| old_self.holds(k, j);
                            if k != key@ {
                                assert(j != i);
                                let j2 = if j < i {
                                    j
                                } else {
                                    j - 1
                                };
                                assert(self.slots@[j2] == old_self.slots@[j]);
                                assert(self.holds(k, j2));
                            }
                        }
                        if exists|j: int| self.holds(k, j) {
                            let j = choose|j: int| self.holds(k, j);
                            let j2 = if j < i {
                                j
                            } else {
                                j + 1
                            };
                            assert(self.slots@[j] == old_self.slots@[j2]);
                            assert(old_self.holds(k, j2));
                            assert(j2 != i);
                        }
                    }
                    assert forall|k: Seq<char>| #[trigger] self.view().contains_key(k) implies self.view()[k]
                        == old_self.view().remove(key@)[k] by {
                        let j = choose|j: int| self.holds(k, j);
                        self.lemma_view_at(j);
                        let j2 = if j < i {
                            j
                        } else {
                            j + 1
                        };
                        assert(self.slots@[j] == old_self.slots@[j2]);
                        old_self.lemma_view_at(j2);
                    }
                    assert(self.view() =~= old_self.view().remove(key@));
                }
            },
            None => {
                proof {
                    assert(!old_self.view().contains_key(key@));
                    assert(self.view() =~= old_self.view().remove(key@));
                }
            },
        }
    }
}

} // verus!
