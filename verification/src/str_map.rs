//! A map keyed by account-like strings that keeps its keys in a list:
//! a new key goes to the end, a removed key is replaced by the last one.
//! This is the order in which the contracts page through their records.
use vstd::prelude::*;

verus! {

/// `s` without its entry at `i`, whose place goes to the last entry.
pub open spec fn swap_removed<A>(s: Seq<A>, i: int) -> Seq<A> {
    s.update(i, s.last()).drop_last()
}

/// Keys and values in two parallel lists; keys are distinct.
pub struct StrMap<V> {
    pub keys: Vec<String>,
    pub vals: Vec<V>,
}

impl<V> View for StrMap<V> {
    type V = Map<Seq<char>, V>;

    open spec fn view(&self) -> Map<Seq<char>, V> {
        Map::new(|k: Seq<char>| self.has(k), |k: Seq<char>| self.at(k))
    }
}

impl<V> StrMap<V> {
    /// The keys, in order.
    pub open spec fn key_seq(&self) -> Seq<Seq<char>> {
        self.keys@.map_values(|k: String| k@)
    }

    /// The lists have the same length and no key occurs twice.
    pub open spec fn wf(&self) -> bool {
        &&& self.keys@.len() == self.vals@.len()
        &&& self.key_seq().no_duplicates()
    }

    /// Whether `k` is a key.
    pub open spec fn has(&self, k: Seq<char>) -> bool {
        self.key_seq().contains(k)
    }

    /// The value under `k` (meaningful where `k` is a key).
    pub open spec fn at(&self, k: Seq<char>) -> V {
        self.vals@[self.key_seq().index_of(k)]
    }

    /// The value under `k`, if any.
    pub open spec fn lookup(&self, k: Seq<char>) -> Option<V> {
        if self.has(k) {
            Some(self.at(k))
        } else {
            None
        }
    }

    pub proof fn lemma_index(&self, i: int)
        requires
            self.wf(),
            0 <= i < self.keys@.len(),
        ensures
            self.has(self.key_seq()[i]),
            self.key_seq().index_of(self.key_seq()[i]) == i,
            self.at(self.key_seq()[i]) == self.vals@[i],
            self@.contains_key(self.key_seq()[i]),
            self@[self.key_seq()[i]] == self.vals@[i],
    {
        let k = self.key_seq()[i];
        assert(self.key_seq().contains(k));
    }

    pub proof fn lemma_has_index(&self, k: Seq<char>)
        requires
            self.wf(),
            self.has(k),
        ensures
            0 <= self.key_seq().index_of(k) < self.keys@.len(),
            self.key_seq()[self.key_seq().index_of(k)] == k,
    {
    }

    /// An empty map.
    pub fn new() -> (r: Self)
        ensures
            r.wf(),
            r.keys@.len() == 0,
            r@ == Map::<Seq<char>, V>::empty(),
    {
        let r = StrMap { keys: Vec::new(), vals: Vec::new() };
        assert(r@ =~= Map::<Seq<char>, V>::empty());
        r
    }

    /// Number of entries.
    pub fn len(&self) -> (r: usize)
        ensures
            r == self.keys@.len(),
    {
        self.keys.len()
    }

    /// Whether the map is empty.
    pub fn is_empty(&self) -> (r: bool)
        requires
            self.wf(),
        ensures
            r <==> self.keys@.len() == 0,
            r <==> self@ == Map::<Seq<char>, V>::empty(),
    {
        if self.keys.len() == 0 {
            assert(self@ =~= Map::<Seq<char>, V>::empty());
            true
        } else {
            proof {
                self.lemma_index(0);
            }
            false
        }
    }

    /// The position of `k` among the keys.
    pub fn find(&self, k: &String) -> (r: Option<usize>)
        requires
            self.wf(),
        ensures
            r is Some <==> self.has(k@),
            r matches Some(i) ==> i < self.keys@.len() && self.key_seq()[i as int] == k@
                && self.key_seq().index_of(k@) == i,
    {
        let mut i: usize = 0;
        while i < self.keys.len()
            invariant
                self.wf(),
                0 <= i <= self.keys@.len(),
                forall|j: int| 0 <= j < i ==> self.key_seq()[j] != k@,
            decreases self.keys@.len() - i,
        {
            if self.keys[i] == *k {
                proof {
                    self.lemma_index(i as int);
                }
                return Some(i);
            }
            i = i + 1;
        }
        None
    }

    /// The key at a position.
    pub fn key_at(&self, i: usize) -> (r: &String)
        requires
            i < self.keys@.len(),
        ensures
            r@ == self.key_seq()[i as int],
    {
        &self.keys[i]
    }

    /// The value at a position.
    pub fn val_at(&self, i: usize) -> (r: &V)
        requires
            i < self.vals@.len(),
        ensures
            *r == self.vals@[i as int],
    {
        &self.vals[i]
    }

    /// The value under `k`, if any.
    pub fn get(&self, k: &String) -> (r: Option<&V>)
        requires
            self.wf(),
        ensures
            r is Some <==> self@.contains_key(k@),
            r matches Some(v) ==> *v == self@[k@],
    {
        match self.find(k) {
            Some(i) => {
                proof {
                    self.lemma_index(i as int);
                }
                Some(&self.vals[i])
            },
            None => None,
        }
    }

    /// Replaces the value at a position, keeping the key order.
    pub fn set_at(&mut self, i: usize, v: V)
        requires
            old(self).wf(),
            i < old(self).keys@.len(),
        ensures
            final(self).wf(),
            final(self).keys == old(self).keys,
            final(self).vals@ == old(self).vals@.update(i as int, v),
            final(self)@ == old(self)@.insert(old(self).key_seq()[i as int], v),
    {
        proof {
            old(self).lemma_index(i as int);
        }
        self.vals.remove(i);
        self.vals.insert(i, v);
        proof {
            let k = old(self).key_seq()[i as int];
            assert(self.vals@ =~= old(self).vals@.update(i as int, v));
            assert forall|x: Seq<char>| #[trigger] self@.contains_key(x) == old(self)@.insert(
                k,
                v,
            ).contains_key(x) by {
                if x == k {
                    assert(self.has(k));
                }
            }
            assert forall|x: Seq<char>| self@.contains_key(x) implies #[trigger] self@[x] == old(
                self,
            )@.insert(k, v)[x] by {
                let j = self.key_seq().index_of(x);
                old(self).lemma_has_index(x);
                self.lemma_index(j);
                old(self).lemma_index(j);
            }
            assert(self@ =~= old(self)@.insert(k, v));
        }
    }

    /// Takes the value at a position out, leaving `placeholder` there.
    pub fn take_at(&mut self, i: usize, placeholder: V) -> (r: V)
        requires
            old(self).wf(),
            i < old(self).keys@.len(),
        ensures
            final(self).wf(),
            final(self).keys == old(self).keys,
            final(self).vals@ == old(self).vals@.update(i as int, placeholder),
            final(self)@ == old(self)@.insert(old(self).key_seq()[i as int], placeholder),
            r == old(self).vals@[i as int],
    {
        proof {
            old(self).lemma_index(i as int);
        }
        let r = self.vals.remove(i);
        self.vals.insert(i, placeholder);
        proof {
            let k = old(self).key_seq()[i as int];
            assert(self.vals@ =~= old(self).vals@.update(i as int, placeholder));
            assert forall|x: Seq<char>| #[trigger] self@.contains_key(x) == old(self)@.insert(
                k,
                placeholder,
            ).contains_key(x) by {
                if x == k {
                    assert(self.has(k));
                }
            }
            assert forall|x: Seq<char>| self@.contains_key(x) implies #[trigger] self@[x] == old(
                self,
            )@.insert(k, placeholder)[x] by {
                let j = self.key_seq().index_of(x);
                old(self).lemma_has_index(x);
                self.lemma_index(j);
                old(self).lemma_index(j);
            }
            assert(self@ =~= old(self)@.insert(k, placeholder));
        }
        r
    }

    /// Sets the value under `k`: in place where `k` is a key, else at the end.
    pub fn insert(&mut self, k: &String, v: V)
        requires
            old(self).wf(),
        ensures
            final(self).wf(),
            final(self)@ == old(self)@.insert(k@, v),
            old(self).has(k@) ==> final(self).keys@ == old(self).keys@ && final(self).vals@
                == old(self).vals@.update(old(self).key_seq().index_of(k@), v),
            !old(self).has(k@) ==> final(self).key_seq() == old(self).key_seq().push(k@)
                && final(self).vals@ == old(self).vals@.push(v),
    {
        match self.find(k) {
            Some(i) => {
                self.set_at(i, v);
            },
            None => {
                self.keys.push(k.clone());
                self.vals.push(v);
                proof {
                    assert(self.key_seq() =~= old(self).key_seq().push(k@));
                    assert forall|x: Seq<char>| #[trigger] self@.contains_key(x) == old(
                        self,
                    )@.insert(k@, v).contains_key(x) by {
                        if x == k@ {
                            assert(self.key_seq()[self.key_seq().len() - 1] == k@);
                        } else if old(self).has(x) {
                            let j = old(self).key_seq().index_of(x);
                            assert(self.key_seq()[j] == x);
                        }
                    }
                    assert forall|x: Seq<char>| self@.contains_key(x) implies #[trigger] self@[x]
                        == old(self)@.insert(k@, v)[x] by {
                        if x == k@ {
                            self.lemma_index(self.keys@.len() - 1);
                        } else {
                            let j = old(self).key_seq().index_of(x);
                            old(self).lemma_has_index(x);
                            old(self).lemma_index(j);
                            assert(self.key_seq()[j] == x);
                            self.lemma_index(j);
                        }
                    }
                    assert(self@ =~= old(self)@.insert(k@, v));
                }
            },
        }
    }

    /// Removes the entry under `k`, moving the last entry into its place.
    pub fn remove(&mut self, k: &String) -> (r: Option<V>)
        requires
            old(self).wf(),
        ensures
            final(self).wf(),
            final(self)@ == old(self)@.remove(k@),
            r == old(self).lookup(k@),
            r is Some <==> old(self)@.contains_key(k@),
            r matches Some(v) ==> v == old(self)@[k@],
            !old(self).has(k@) ==> final(self).keys@ == old(self).keys@ && final(self).vals@
                == old(self).vals@,
            old(self).has(k@) ==> ({
                let i = old(self).key_seq().index_of(k@);
                &&& final(self).key_seq() == old(self).key_seq().update(
                    i,
                    old(self).key_seq().last(),
                ).drop_last()
                &&& final(self).vals@ == old(self).vals@.update(i, old(self).vals@.last()).drop_last()
            }),
    {
        match self.find(k) {
            Some(i) => {
                proof {
                    old(self).lemma_index(i as int);
                }
                self.keys.swap_remove(i);
                let v = self.vals.swap_remove(i);
                proof {
                    let ks = old(self).key_seq();
                    let n = ks.len();
                    assert(self.key_seq() =~= ks.update(i as int, ks.last()).drop_last());
                    assert forall|a: int, b: int|
                        0 <= a < self.key_seq().len() && 0 <= b < self.key_seq().len() && a != b
                        implies self.key_seq()[a] != self.key_seq()[b] by {
                        let ia = if a == i { n - 1 } else { a };
                        let ib = if b == i { n - 1 } else { b };
                        assert(self.key_seq()[a] == ks[ia]);
                        assert(self.key_seq()[b] == ks[ib]);
                    }
                    assert forall|x: Seq<char>| #[trigger] self@.contains_key(x) == old(
                        self,
                    )@.remove(k@).contains_key(x) by {
                        if self.has(x) {
                            let j = self.key_seq().index_of(x);
                            let oj = if j == i { n - 1 } else { j };
                            assert(ks[oj] == x);
                            assert(oj != i);
                        }
                        if old(self).has(x) && x != k@ {
                            let j = ks.index_of(x);
                            old(self).lemma_has_index(x);
                            if j == n - 1 {
                                assert(self.key_seq()[i as int] == x);
                            } else {
                                assert(self.key_seq()[j] == x);
                            }
                        }
                    }
                    assert forall|x: Seq<char>| self@.contains_key(x) implies #[trigger] self@[x]
                        == old(self)@.remove(k@)[x] by {
                        let j = self.key_seq().index_of(x);
                        self.lemma_has_index(x);
                        self.lemma_index(j);
                        let oj = if j == i { n - 1 } else { j };
                        assert(ks[oj] == x);
                        old(self).lemma_index(oj);
                    }
                    assert(self@ =~= old(self)@.remove(k@));
                }
                Some(v)
            },
            None => {
                assert(self@ =~= old(self)@.remove(k@));
                None
            },
        }
    }

    /// `new` is `self` with at most the value at position `i` changed.
    pub open spec fn only_changed_at(&self, new: Self, i: int) -> bool {
        &&& new.keys == self.keys
        &&& new.vals@.len() == self.vals@.len()
        &&& forall|j: int| 0 <= j < self.vals@.len() && j != i ==> new.vals@[j] == self.vals@[j]
    }

    /// Removes every entry.
    pub fn clear(&mut self)
        ensures
            final(self).wf(),
            final(self).keys@.len() == 0,
            final(self)@ == Map::<Seq<char>, V>::empty(),
    {
        self.keys.clear();
        self.vals.clear();
        assert(self@ =~= Map::<Seq<char>, V>::empty());
    }
}

} // verus!
