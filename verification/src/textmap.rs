//! A small map from text keys to text values, kept as two parallel vectors
//! with distinct keys. Later insertions of a key replace its value.

use vstd::prelude::*;
use crate::text::str_eq;

verus! {

/// Text-keyed map.
pub struct TextMap {
    keys: Vec<String>,
    values: Vec<String>,
}

/// The key of entry `i` is `k`.
pub open spec fn has_key_at(ks: Seq<String>, i: int, k: Seq<char>) -> bool {
    0 <= i < ks.len() && ks[i]@ == k
}

impl View for TextMap {
    type V = Map<Seq<char>, Seq<char>>;

    closed spec fn view(&self) -> Map<Seq<char>, Seq<char>> {
        Map::new(
            |k: Seq<char>| exists|i: int| has_key_at(self.keys@, i, k),
            |k: Seq<char>| self.values@[choose|i: int| has_key_at(self.keys@, i, k)]@,
        )
    }
}

impl TextMap {
    /// Internal invariant: one value per key, and keys are distinct.
    pub closed spec fn wf(&self) -> bool {
        &&& self.keys@.len() == self.values@.len()
        &&& forall|i: int, j: int|
            0 <= i < j < self.keys@.len() ==> (#[trigger] self.keys@[i])@ != (#[trigger] self.keys@[j])@
    }

    /// Number of entries.
    pub closed spec fn spec_len(&self) -> nat {
        self.keys@.len()
    }

    proof fn lemma_lookup(&self, i: int)
        requires
            self.wf(),
            0 <= i < self.keys@.len(),
        ensures
            self@.contains_key(self.keys@[i]@),
            self@[self.keys@[i]@] == self.values@[i]@,
    {
        assert(has_key_at(self.keys@, i, self.keys@[i]@));
        let j = choose|j: int| has_key_at(self.keys@, j, self.keys@[i]@);
        if j != i {
            if j < i {
                assert(self.keys@[j]@ != self.keys@[i]@);
            } else {
                assert(self.keys@[i]@ != self.keys@[j]@);
            }
        }
    }

    /// The empty map.
    pub fn new() -> (m: Self)
        ensures
            m.wf(),
            m@ == Map::<Seq<char>, Seq<char>>::empty(),
            m.spec_len() == 0,
    {
        let m = TextMap { keys: Vec::new(), values: Vec::new() };
        assert(m@ =~= Map::<Seq<char>, Seq<char>>::empty());
        m
    }

    /// Number of entries.
    pub fn len(&self) -> (n: usize)
        requires
            self.wf(),
        ensures
            n == self@.len(),
            n == self.spec_len(),
    {
        proof {
            self.lemma_len();
        }
        self.keys.len()
    }

    /// Whether the map has no entries.
    pub fn is_empty(&self) -> (b: bool)
        requires
            self.wf(),
        ensures
            b == (self@ == Map::<Seq<char>, Seq<char>>::empty()),
    {
        proof {
            self.lemma_len();
            if self.keys@.len() > 0 {
                self.lemma_lookup(0);
                assert(!Map::<Seq<char>, Seq<char>>::empty().contains_key(self.keys@[0]@));
            } else {
                assert(self@ =~= Map::<Seq<char>, Seq<char>>::empty());
            }
        }
        self.keys.len() == 0
    }

    proof fn lemma_len(&self)
        requires
            self.wf(),
        ensures
            self@.dom().finite(),
            self@.len() == self.keys@.len(),
        decreases self.keys@.len(),
    {
        let ks = self.keys@.map_values(|s: String| s@);
        assert(self@.dom() =~= ks.to_set()) by {
            assert forall|k: Seq<char>| self@.dom().contains(k) implies ks.to_set().contains(k) by {
                let i = choose|i: int| has_key_at(self.keys@, i, k);
                assert(ks[i] == k);
            }
            assert forall|k: Seq<char>| ks.to_set().contains(k) implies self@.dom().contains(k) by {
                let i = choose|i: int| 0 <= i < ks.len() && ks[i] == k;
                assert(has_key_at(self.keys@, i, k));
            }
        }
        assert(ks.no_duplicates()) by {
            assert forall|i: int, j: int| 0 <= i < ks.len() && 0 <= j < ks.len() && i != j implies ks[i] != ks[j] by {
                if i < j {
                    assert(self.keys@[i]@ != self.keys@[j]@);
                } else {
                    assert(self.keys@[j]@ != self.keys@[i]@);
                }
            }
        }
        ks.unique_seq_to_set();
    }

    /// Position of `key`, if present.
    fn position(&self, key: &str) -> (r: Option<usize>)
        requires
            self.wf(),
        ensures
            match r {
                Some(i) => i < self.keys@.len() && self.keys@[i as int]@ == key@,
                None => !self@.contains_key(key@),
            },
    {
        let mut i: usize = 0;
        while i < self.keys.len()
            invariant
                self.wf(),
                i <= self.keys@.len(),
                forall|j: int| 0 <= j < i ==> self.keys@[j]@ != key@,
            decreases self.keys@.len() - i,
        {
            if str_eq(self.keys[i].as_str(), key) {
                return Some(i);
            }
            i = i + 1;
        }
        proof {
            if self@.contains_key(key@) {
                let j = choose|j: int| has_key_at(self.keys@, j, key@);
                assert(self.keys@[j]@ == key@);
            }
        }
        None
    }

    /// The value of `key`, if present.
    pub fn get(&self, key: &str) -> (r: Option<&String>)
        requires
            self.wf(),
        ensures
            match r {
                Some(v) => self@.contains_key(key@) && self@[key@] == v@,
                None => !self@.contains_key(key@),
            },
    {
        match self.position(key) {
            Some(i) => {
                proof {
                    self.lemma_lookup(i as int);
                }
                Some(&self.values[i])
            },
            None => None,
        }
    }

    /// Sets the value of `key`, replacing any earlier one.
    pub fn insert(&mut self, key: String, value: String)
        requires
            old(self).wf(),
        ensures
            final(self).wf(),
            final(self)@ == old(self)@.insert(key@, value@),
    {
        let ghost m0 = self@;
        let ghost ks0 = self.keys@;
        let ghost vs0 = self.values@;
        match self.position(key.as_str()) {
            Some(i) => {
                proof {
                    self.lemma_lookup(i as int);
                }
                self.values.set(i, value);
                proof {
                    assert(self.keys@ == ks0);
                    assert forall|k: Seq<char>| #![auto] self@.contains_key(k) == m0.insert(key@, value@).contains_key(k) by {
                        if m0.insert(key@, value@).contains_key(k) && k != key@ {
                            let j = choose|j: int| has_key_at(ks0, j, k);
                            assert(has_key_at(self.keys@, j, k));
                        }
                        if k == key@ {
                            assert(has_key_at(self.keys@, i as int, k));
                        }
                    }
                    assert forall|k: Seq<char>| #![auto] self@.contains_key(k) implies self@[k] == m0.insert(key@, value@)[k] by {
                        let j = choose|j: int| has_key_at(self.keys@, j, k);
                        self.lemma_lookup(j);
                        if j != i as int {
                            assert(self.values@[j] == vs0[j]);
                            assert(k != key@) by {
                                if j < i {
                                    assert(ks0[j]@ != ks0[i as int]@);
                                } else {
                                    assert(ks0[i as int]@ != ks0[j]@);
                                }
                            }
                        }
                    }
                    assert(self@ =~= m0.insert(key@, value@));
                }
            },
            None => {
                let ghost kk = key@;
                let ghost vv = value@;
                self.keys.push(key);
                self.values.push(value);
                proof {
                    let n = ks0.len() as int;
                    assert forall|i: int, j: int|
                        0 <= i < j < self.keys@.len() implies (#[trigger] self.keys@[i])@ != (#[trigger] self.keys@[j])@ by {
                        if j == n {
                            assert(self.keys@[i] == ks0[i]);
                            assert(has_key_at(ks0, i, ks0[i]@));
                        } else {
                            assert(self.keys@[i] == ks0[i]);
                            assert(self.keys@[j] == ks0[j]);
                        }
                    }
                    assert forall|k: Seq<char>| #![auto] self@.contains_key(k) == m0.insert(kk, vv).contains_key(k) by {
                        if self@.contains_key(k) {
                            let j = choose|j: int| has_key_at(self.keys@, j, k);
                            if j < n {
                                assert(has_key_at(ks0, j, k));
                            }
                        }
                        if m0.insert(kk, vv).contains_key(k) {
                            if k == kk {
                                assert(has_key_at(self.keys@, n, k));
                            } else {
                                let j = choose|j: int| has_key_at(ks0, j, k);
                                assert(has_key_at(self.keys@, j, k));
                            }
                        }
                    }
                    assert forall|k: Seq<char>| #![auto] self@.contains_key(k) implies self@[k] == m0.insert(kk, vv)[k] by {
                        let j = choose|j: int| has_key_at(self.keys@, j, k);
                        self.lemma_lookup(j);
                        if j < n {
                            assert(self.values@[j] == vs0[j]);
                            assert(k != kk);
                            assert(has_key_at(ks0, j, k));
                            let j0 = choose|j0: int| has_key_at(ks0, j0, k);
                            if j0 != j {
                                if j0 < j {
                                    assert(ks0[j0]@ != ks0[j]@);
                                } else {
                                    assert(ks0[j]@ != ks0[j0]@);
                                }
                            }
                        }
                    }
                    assert(self@ =~= m0.insert(kk, vv));
                }
            },
        }
    }
}

} // verus!
