//! A verified association map from `u64` ids to values.
//!
//! This is the storage primitive behind the whole store: one instance maps
//! entity ids to one component type's values, one maps type tags to whole
//! per-type stores, and one maps resource tags to singleton resources.
//! Keys and values sit in two parallel vectors whose key column holds no
//! duplicates; the abstract value is the finite map [`View::view`] built
//! from the two columns.

use vstd::prelude::*;
use vstd::seq_lib::*;

verus! {

/// A mapping from `u64` ids to values of type `V`, with upsert, removal,
/// in-place mutation, and simultaneous mutable access to two distinct
/// entries.
pub struct IdMap<V> {
    keys: Vec<u64>,
    vals: Vec<V>,
}

impl<V> View for IdMap<V> {
    type V = Map<u64, V>;

    /// The abstract finite map this container holds.
    closed spec fn view(&self) -> Map<u64, V> {
        Map::new(
            |k: u64| self.keys@.contains(k),
            |k: u64| self.vals@[self.keys@.index_of(k)],
        )
    }
}

impl<V> IdMap<V> {
    /// The key column: the ids present, in storage order.
    pub closed spec fn key_seq(self) -> Seq<u64> {
        self.keys@
    }

    /// Well-formed: the two columns run in parallel and no id occurs twice.
    pub closed spec fn wf(self) -> bool {
        &&& self.keys@.no_duplicates()
        &&& self.keys@.len() == self.vals@.len()
    }

    /// The value at column position `i` is the map's entry for the key at
    /// that position.
    proof fn lemma_at(self, i: int)
        requires
            self.wf(),
            0 <= i < self.key_seq().len(),
        ensures
            self@.contains_key(self.key_seq()[i]),
            self@[self.key_seq()[i]] == self.vals@[i],
    {
        let k = self.keys@[i];
        assert(self.keys@.contains(k));
        let j = self.keys@.index_of(k);
        assert(self.keys@[j] == k);
        assert(j == i);
    }

    /// Every column position holds a key of the map.
    pub proof fn lemma_key_at(self, i: int)
        requires
            self.wf(),
            0 <= i < self.key_seq().len(),
        ensures
            self@.contains_key(self.key_seq()[i]),
    {
        self.lemma_at(i);
    }

    /// What well-formedness gives a caller: the map's domain is the set of
    /// stored keys, and its size is the length of the key column.
    pub proof fn lemma_wf(self)
        requires
            self.wf(),
        ensures
            self@.dom() == self.key_seq().to_set(),
            self@.dom().finite(),
            self@.dom().len() == self.key_seq().len(),
            self.key_seq().no_duplicates(),
    {
        assert(self@.dom() =~= self.key_seq().to_set());
        self.key_seq().unique_seq_to_set();
    }

    /// An empty map.
    pub fn new() -> (r: IdMap<V>)
        ensures
            r.wf(),
            r@ == Map::<u64, V>::empty(),
            r.key_seq() == Seq::<u64>::empty(),
    {
        let r = IdMap { keys: Vec::new(), vals: Vec::new() };
        proof {
            assert(r@ =~= Map::<u64, V>::empty());
        }
        r
    }

    /// How many entries are stored.
    pub fn len(&self) -> (r: usize)
        ensures
            r == self.key_seq().len(),
            self.wf() ==> r == self@.dom().len(),
    {
        proof {
            if self.wf() {
                self.lemma_wf();
            }
        }
        self.keys.len()
    }

    /// The column position of `k`, if `k` is present.
    fn position_of(&self, k: u64) -> (r: Option<usize>)
        ensures
            match r {
                Some(i) => i < self.key_seq().len() && self.key_seq()[i as int] == k,
                None => !self.key_seq().contains(k),
            },
    {
        let n = self.keys.len();
        let mut i: usize = 0;
        while i < n
            invariant
                i <= n,
                n == self.key_seq().len(),
                forall|m: int| 0 <= m < i ==> self.key_seq()[m] != k,
            decreases n - i,
        {
            if self.keys[i] == k {
                return Some(i);
            }
            i += 1;
        }
        None
    }

    /// Whether an entry for `k` is present.
    pub fn contains(&self, k: u64) -> (r: bool)
        ensures
            r == self@.contains_key(k),
    {
        self.position_of(k).is_some()
    }

    /// Upserts `k -> v`: the previous value for `k`, if any, is returned
    /// and replaced; otherwise a new entry is added.
    pub fn insert(&mut self, k: u64, v: V) -> (r: Option<V>)
        requires
            old(self).wf(),
        ensures
            final(self).wf(),
            final(self)@ == old(self)@.insert(k, v),
            match r {
                Some(prev) => old(self)@.contains_key(k) && prev == old(self)@[k],
                None => !old(self)@.contains_key(k),
            },
            final(self).key_seq() == if old(self)@.contains_key(k) {
                old(self).key_seq()
            } else {
                old(self).key_seq().push(k)
            },
    {
        match self.position_of(k) {
            Some(i) => {
                proof {
                    old(self).lemma_at(i as int);
                }
                self.vals.push(v);
                let prev = self.vals.swap_remove(i);
                proof {
                    assert(self.vals@ =~= old(self).vals@.update(i as int, v));
                    self.lemma_view_update(*old(self), i as int, k, v);
                }
                Some(prev)
            },
            None => {
                self.keys.push(k);
                self.vals.push(v);
                proof {
                    let pre = *old(self);
                    assert forall|m: int, n: int|
                        0 <= m < self.keys@.len() && 0 <= n < self.keys@.len() && m != n
                        implies self.keys@[m] != self.keys@[n] by {
                        if m < pre.keys@.len() && n < pre.keys@.len() {
                            assert(pre.keys@.no_duplicates());
                        } else if m < pre.keys@.len() {
                            assert(!pre.keys@.contains(k));
                            assert(pre.keys@[m] == self.keys@[m]);
                        } else {
                            assert(!pre.keys@.contains(k));
                            assert(pre.keys@[n] == self.keys@[n]);
                        }
                    }
                    assert(self.wf());
                    assert forall|k2: u64| #[trigger] self@.contains_key(k2)
                        implies pre@.insert(k, v).contains_key(k2) && self@[k2] == pre@.insert(
                        k,
                        v,
                    )[k2] by {
                        let j = choose|j: int| 0 <= j < self.keys@.len() && self.keys@[j] == k2;
                        self.lemma_at(j);
                        if j < pre.keys@.len() {
                            pre.lemma_at(j);
                        }
                    }
                    assert forall|k2: u64| #[trigger] pre@.insert(k, v).contains_key(k2)
                        implies self@.contains_key(k2) by {
                        if k2 == k {
                            assert(self.keys@[pre.keys@.len() as int] == k);
                        } else {
                            let j = choose|j: int|
                                0 <= j < pre.keys@.len() && pre.keys@[j] == k2;
                            assert(self.keys@[j] == k2);
                        }
                    }
                    assert(self@ =~= pre@.insert(k, v));
                }
                None
            },
        }
    }

    /// Updating the value column at the position of key `k` updates the map
    /// at `k` and nothing else.
    proof fn lemma_view_update(self, pre: IdMap<V>, i: int, k: u64, v: V)
        requires
            pre.wf(),
            0 <= i < pre.key_seq().len(),
            pre.key_seq()[i] == k,
            self.keys@ == pre.keys@,
            self.vals@ == pre.vals@.update(i, v),
        ensures
            self.wf(),
            self@ == pre@.insert(k, v),
    {
        assert(self.wf());
        assert forall|k2: u64| #[trigger] self@.contains_key(k2)
            implies self@[k2] == pre@.insert(k, v)[k2] by {
            let j = choose|j: int| 0 <= j < self.keys@.len() && self.keys@[j] == k2;
            self.lemma_at(j);
            pre.lemma_at(j);
        }
        assert(self@ =~= pre@.insert(k, v));
    }

    /// Removes and returns the value filed under `k`; absence is not an
    /// error.
    pub fn remove(&mut self, k: u64) -> (r: Option<V>)
        requires
            old(self).wf(),
        ensures
            final(self).wf(),
            final(self)@ == old(self)@.remove(k),
            match r {
                Some(prev) => old(self)@.contains_key(k) && prev == old(self)@[k],
                None => !old(self)@.contains_key(k),
            },
    {
        match self.position_of(k) {
            Some(i) => {
                proof {
                    old(self).lemma_at(i as int);
                }
                self.keys.remove(i);
                let prev = self.vals.remove(i);
                proof {
                    let pre = *old(self);
                    assert forall|m: int, n: int|
                        0 <= m < self.keys@.len() && 0 <= n < self.keys@.len() && m != n
                        implies self.keys@[m] != self.keys@[n] by {
                        let m0: int = if m < i { m } else { m + 1 };
                        let n0: int = if n < i { n } else { n + 1 };
                        assert(self.keys@[m] == pre.keys@[m0]);
                        assert(self.keys@[n] == pre.keys@[n0]);
                    }
                    assert(self.wf());
                    assert forall|k2: u64| #[trigger] self@.contains_key(k2)
                        implies pre@.remove(k).contains_key(k2) && self@[k2] == pre@.remove(
                        k,
                    )[k2] by {
                        let j = choose|j: int| 0 <= j < self.keys@.len() && self.keys@[j] == k2;
                        self.lemma_at(j);
                        let j0: int = if j < i { j } else { j + 1 };
                        assert(pre.keys@[j0] == k2);
                        pre.lemma_at(j0);
                        assert(k2 != k);
                    }
                    assert forall|k2: u64| #[trigger] pre@.remove(k).contains_key(k2)
                        implies self@.contains_key(k2) by {
                        let j0 = choose|j0: int|
                            0 <= j0 < pre.keys@.len() && pre.keys@[j0] == k2;
                        assert(k2 != k);
                        assert(j0 != i);
                        let j: int = if j0 < i { j0 } else { j0 - 1 };
                        assert(self.keys@[j] == k2);
                    }
                    assert(self@ =~= pre@.remove(k));
                }
                Some(prev)
            },
            None => {
                proof {
                    assert(old(self)@ =~= old(self)@.remove(k));
                }
                None
            },
        }
    }

    /// Mutable access to the value filed under `k`, if any.
    pub fn get_mut(&mut self, k: u64) -> (r: Option<&mut V>)
        requires
            old(self).wf(),
        ensures
            final(self).wf(),
            final(self).key_seq() == old(self).key_seq(),
            r.is_some() == old(self)@.contains_key(k),
            r.is_some() ==> *r.unwrap() == old(self)@[k] && final(self)@ == old(self)@.insert(
                k,
                *final(r.unwrap()),
            ),
            r.is_none() ==> final(self)@ == old(self)@,
    {
        match self.position_of(k) {
            Some(i) => {
                proof {
                    old(self).lemma_at(i as int);
                }
                let p = &mut self.vals[i];
                proof {
                    Self::lemma_view_update(after_borrow(*self), *old(self), i as int, k, *final(p));
                }
                Some(p)
            },
            None => None,
        }
    }

    /// Updating the value column at the distinct positions of keys `k1`
    /// and `k2` updates the map at exactly those keys.
    proof fn lemma_view_update2(
        self,
        pre: IdMap<V>,
        i1: int,
        k1: u64,
        v1: V,
        i2: int,
        k2: u64,
        v2: V,
    )
        requires
            pre.wf(),
            0 <= i1 < pre.key_seq().len(),
            0 <= i2 < pre.key_seq().len(),
            i1 != i2,
            pre.key_seq()[i1] == k1,
            pre.key_seq()[i2] == k2,
            self.keys@ == pre.keys@,
            self.vals@ == pre.vals@.update(i1, v1).update(i2, v2),
        ensures
            self.wf(),
            self@ == pre@.insert(k1, v1).insert(k2, v2),
    {
        assert(self.wf());
        assert(k1 != k2);
        assert forall|k: u64| #[trigger] self@.contains_key(k)
            implies self@[k] == pre@.insert(k1, v1).insert(k2, v2)[k] by {
            let j = choose|j: int| 0 <= j < self.keys@.len() && self.keys@[j] == k;
            self.lemma_at(j);
            pre.lemma_at(j);
        }
        assert(self@ =~= pre@.insert(k1, v1).insert(k2, v2));
    }

    /// Two simultaneous mutable references into one vector, at positions
    /// `i < j`.
    fn pair_mut_at(vals: &mut Vec<V>, i: usize, j: usize) -> ((a, b): (&mut V, &mut V))
        requires
            i < j < old(vals).len(),
        ensures
            *a == old(vals)@[i as int],
            *b == old(vals)@[j as int],
            final(vals)@ == old(vals)@.update(i as int, *final(a)).update(j as int, *final(b)),
    {
        let s = vals.as_mut_slice();
        let (left, right) = s.split_at_mut(j);
        let (l1, l2) = left.split_at_mut(i);
        let a = l2.first_mut().unwrap();
        let b = right.first_mut().unwrap();
        proof {
            assert(after_borrow(*vals)@ =~= old(vals)@.update(i as int, *final(a)).update(
                j as int,
                *final(b),
            ));
        }
        (a, b)
    }

    /// Simultaneous mutable access to the values filed under two *distinct*
    /// present ids; the call fails (returning nothing and changing nothing)
    /// if the ids are equal or either is absent, never by handing out two
    /// aliasing references.
    pub fn get_pair_mut(&mut self, k1: u64, k2: u64) -> (r: Option<(&mut V, &mut V)>)
        requires
            old(self).wf(),
        ensures
            final(self).wf(),
            final(self).key_seq() == old(self).key_seq(),
            r.is_some() == (k1 != k2 && old(self)@.contains_key(k1)
                && old(self)@.contains_key(k2)),
            r.is_some() ==> *r.unwrap().0 == old(self)@[k1] && *r.unwrap().1 == old(self)@[k2]
                && final(self)@ == old(self)@.insert(k1, *final(r.unwrap().0)).insert(
                k2,
                *final(r.unwrap().1),
            ),
            r.is_none() ==> final(self)@ == old(self)@,
    {
        if k1 == k2 {
            return None;
        }
        let i1 = match self.position_of(k1) {
            Some(i) => i,
            None => {
                return None;
            },
        };
        let i2 = match self.position_of(k2) {
            Some(i) => i,
            None => {
                return None;
            },
        };
        proof {
            old(self).lemma_at(i1 as int);
            old(self).lemma_at(i2 as int);
        }
        if i1 < i2 {
            let (a, b) = Self::pair_mut_at(&mut self.vals, i1, i2);
            proof {
                Self::lemma_view_update2(
                    after_borrow(*self),
                    *old(self),
                    i1 as int,
                    k1,
                    *final(a),
                    i2 as int,
                    k2,
                    *final(b),
                );
            }
            Some((a, b))
        } else {
            let (b, a) = Self::pair_mut_at(&mut self.vals, i2, i1);
            proof {
                Self::lemma_view_update2(
                    after_borrow(*self),
                    *old(self),
                    i2 as int,
                    k2,
                    *final(b),
                    i1 as int,
                    k1,
                    *final(a),
                );
                assert(old(self)@.insert(k2, *final(b)).insert(k1, *final(a)) =~= old(self)@.insert(
                    k1,
                    *final(a),
                ).insert(k2, *final(b)));
            }
            Some((a, b))
        }
    }

    /// Removes every entry.
    pub fn clear(&mut self)
        ensures
            final(self).wf(),
            final(self)@ == Map::<u64, V>::empty(),
            final(self).key_seq() == Seq::<u64>::empty(),
    {
        self.keys.clear();
        self.vals.clear();
        proof {
            assert(self@ =~= Map::<u64, V>::empty());
        }
    }

    /// A snapshot of the stored ids, in storage order.
    pub fn keys_vec(&self) -> (r: Vec<u64>)
        ensures
            r@ == self.key_seq(),
    {
        let n = self.keys.len();
        let mut r: Vec<u64> = Vec::new();
        let mut i: usize = 0;
        while i < n
            invariant
                i <= n,
                n == self.key_seq().len(),
                r@ == self.key_seq().subrange(0, i as int),
            decreases n - i,
        {
            r.push(self.keys[i]);
            proof {
                assert(r@ =~= self.key_seq().subrange(0, i + 1));
            }
            i += 1;
        }
        proof {
            assert(r@ =~= self.key_seq());
        }
        r
    }

    /// Mutable access to the value at column position `i`.
    pub fn value_at_mut(&mut self, i: usize) -> (r: &mut V)
        requires
            old(self).wf(),
            i < old(self).key_seq().len(),
        ensures
            final(self).wf(),
            final(self).key_seq() == old(self).key_seq(),
            *r == old(self)@[old(self).key_seq()[i as int]],
            final(self)@ == old(self)@.insert(old(self).key_seq()[i as int], *final(r)),
    {
        proof {
            old(self).lemma_at(i as int);
        }
        let p = &mut self.vals[i];
        proof {
            Self::lemma_view_update(
                after_borrow(*self),
                *old(self),
                i as int,
                old(self).key_seq()[i as int],
                *final(p),
            );
        }
        p
    }

    /// The value filed under `k`, if any.
    pub fn get(&self, k: u64) -> (r: Option<&V>)
        requires
            self.wf(),
        ensures
            match r {
                Some(v) => self@.contains_key(k) && *v == self@[k],
                None => !self@.contains_key(k),
            },
    {
        match self.position_of(k) {
            Some(i) => {
                proof {
                    self.lemma_at(i as int);
                }
                Some(&self.vals[i])
            },
            None => None,
        }
    }
}

} // verus!
