//! One component type's storage: a mapping from entity id to value.
//!
//! A [`ComponentList`] holds every value of one registered component type,
//! keyed by the owning entity. Borrows are the guard discipline of the
//! store: a shared borrow is a read guard (many may coexist), a mutable
//! borrow is a write guard (exclusive), and release happens on every exit
//! path when the borrow ends. [`ComponentList::get_many_mut`] hands out
//! simultaneous mutable access to two *distinct* entities' values inside
//! one such exclusive borrow, for pairwise interactions.
//!
//! Query composition against a second list is set algebra on snapshots.
//! The binary operations beyond AND (`with`) and AND-NOT (`without`) are
//! evaluated over the ids visible to the snapshot — those in the query or
//! in this list — since a snapshot cannot name ids it has never seen.

use vstd::prelude::*;
use vstd::seq_lib::*;

use crate::entity::EntityId;
use crate::idmap::IdMap;
use crate::query::QueriedEntities;
use crate::query::ids_of;

verus! {

/// Mapping raw ids commutes with pushing one more entity id.
proof fn lemma_ids_push(v: Seq<EntityId>, e: EntityId)
    ensures
        ids_of(v.push(e)) == ids_of(v).push(e@),
{
    assert(ids_of(v.push(e)) =~= ids_of(v).push(e@));
}

/// Pushing a fresh id keeps a sequence duplicate-free and inserts the id
/// into the underlying set.
proof fn lemma_push_fresh(s: Seq<u64>, x: u64)
    requires
        s.no_duplicates(),
        !s.contains(x),
    ensures
        s.push(x).no_duplicates(),
        s.push(x).to_set() == s.to_set().insert(x),
{
    assert forall|m: int, n: int|
        0 <= m < s.push(x).len() && 0 <= n < s.push(x).len() && m != n implies s.push(x)[m]
        != s.push(x)[n] by {
        if m < s.len() && n < s.len() {
        } else if m < s.len() {
            assert(s.push(x)[n] == x);
            if s[m] == x {
                assert(s.contains(x)) by {
                    assert(s[m] == x);
                }
            }
        } else {
            assert(s.push(x)[m] == x);
            if s[n] == x {
                assert(s.contains(x)) by {
                    assert(s[n] == x);
                }
            }
        }
    }
    lemma_push_to_set(s, x);
}

/// The set of a sequence after pushing an id.
proof fn lemma_push_to_set(s: Seq<u64>, x: u64)
    ensures
        s.push(x).to_set() == s.to_set().insert(x),
{
    assert forall|y: u64| s.push(x).to_set().contains(y) == s.to_set().insert(x).contains(y) by {
        if s.push(x).contains(y) {
            let m = choose|m: int| 0 <= m < s.push(x).len() && s.push(x)[m] == y;
            if m < s.len() {
                assert(s.contains(y)) by {
                    assert(s[m] == y);
                }
            } else {
                assert(y == x);
            }
        }
        if s.contains(y) {
            let m = choose|m: int| 0 <= m < s.len() && s[m] == y;
            assert(s.push(x).contains(y)) by {
                assert(s.push(x)[m] == y);
            }
        }
        if y == x {
            assert(s.push(x).contains(y)) by {
                assert(s.push(x)[s.len() as int] == x);
            }
        }
    }
    assert(s.push(x).to_set() =~= s.to_set().insert(x));
}

/// One step of prefix growth, on the sequence and on its set.
proof fn lemma_prefix_snoc(s: Seq<u64>, i: int)
    requires
        0 <= i < s.len(),
    ensures
        s.subrange(0, i + 1) == s.subrange(0, i).push(s[i]),
        s.subrange(0, i + 1).to_set() == s.subrange(0, i).to_set().insert(s[i]),
{
    assert(s.subrange(0, i + 1) =~= s.subrange(0, i).push(s[i]));
    lemma_push_to_set(s.subrange(0, i), s[i]);
}

/// In a duplicate-free sequence, element `i` does not occur before `i`.
proof fn lemma_prefix_fresh(s: Seq<u64>, i: int)
    requires
        s.no_duplicates(),
        0 <= i < s.len(),
    ensures
        !s.subrange(0, i).to_set().contains(s[i]),
{
    if s.subrange(0, i).to_set().contains(s[i]) {
        let m = choose|m: int| 0 <= m < i && s.subrange(0, i)[m] == s[i];
        assert(s[m] == s[i]);
    }
}

/// Per-type component storage: entity id -> component value.
pub struct ComponentList<C> {
    entries: IdMap<C>,
}

impl<C> View for ComponentList<C> {
    type V = Map<u64, C>;

    /// The abstract mapping from entity ids to stored values.
    closed spec fn view(&self) -> Map<u64, C> {
        self.entries@
    }
}

impl<C> ComponentList<C> {
    /// Well-formed: the underlying columns are consistent.
    pub closed spec fn wf(self) -> bool {
        self.entries.wf()
    }

    /// An empty list.
    pub fn new() -> (r: ComponentList<C>)
        ensures
            r.wf(),
            r@ == Map::<u64, C>::empty(),
    {
        ComponentList { entries: IdMap::new() }
    }

    /// How many entities hold this component.
    pub fn len(&self) -> (r: usize)
        requires
            self.wf(),
        ensures
            r == self@.dom().len(),
    {
        self.entries.len()
    }

    /// Whether `entity` holds this component.
    pub fn contains(&self, entity: &EntityId) -> (r: bool)
        ensures
            r == self@.contains_key(entity@),
    {
        self.entries.contains(entity.id())
    }

    /// Upserts `entity`'s value: any previous value is returned and
    /// replaced.
    pub fn insert(&mut self, entity: &EntityId, component: C) -> (r: Option<C>)
        requires
            old(self).wf(),
        ensures
            final(self).wf(),
            final(self)@ == old(self)@.insert(entity@, component),
            match r {
                Some(prev) => old(self)@.contains_key(entity@) && prev == old(self)@[entity@],
                None => !old(self)@.contains_key(entity@),
            },
    {
        self.entries.insert(entity.id(), component)
    }

    /// Removes and returns `entity`'s value; absence is no error.
    pub fn remove(&mut self, entity: &EntityId) -> (r: Option<C>)
        requires
            old(self).wf(),
        ensures
            final(self).wf(),
            final(self)@ == old(self)@.remove(entity@),
            match r {
                Some(prev) => old(self)@.contains_key(entity@) && prev == old(self)@[entity@],
                None => !old(self)@.contains_key(entity@),
            },
    {
        self.entries.remove(entity.id())
    }

    /// `entity`'s value, if it holds one.
    pub fn get(&self, entity: &EntityId) -> (r: Option<&C>)
        requires
            self.wf(),
        ensures
            match r {
                Some(v) => self@.contains_key(entity@) && *v == self@[entity@],
                None => !self@.contains_key(entity@),
            },
    {
        self.entries.get(entity.id())
    }

    /// Mutable access to `entity`'s value, if it holds one.
    pub fn get_mut(&mut self, entity: &EntityId) -> (r: Option<&mut C>)
        requires
            old(self).wf(),
        ensures
            final(self).wf(),
            r.is_some() == old(self)@.contains_key(entity@),
            r.is_some() ==> *r.unwrap() == old(self)@[entity@] && final(self)@ == old(
                self,
            )@.insert(entity@, *final(r.unwrap())),
            r.is_none() ==> final(self)@ == old(self)@,
    {
        self.entries.get_mut(entity.id())
    }

    /// Simultaneous mutable access to the values of two *distinct* entities
    /// that both hold this component — the multi-entity mutable borrow for
    /// pairwise interactions. Equal ids or a missing value fail the call
    /// (changing nothing) rather than aliasing two references to one slot.
    pub fn get_many_mut(&mut self, e1: &EntityId, e2: &EntityId) -> (r: Option<(&mut C, &mut C)>)
        requires
            old(self).wf(),
        ensures
            final(self).wf(),
            r.is_some() == (e1@ != e2@ && old(self)@.contains_key(e1@) && old(self)@.contains_key(
                e2@,
            )),
            r.is_some() ==> *r.unwrap().0 == old(self)@[e1@] && *r.unwrap().1 == old(self)@[e2@]
                && final(self)@ == old(self)@.insert(e1@, *final(r.unwrap().0)).insert(
                e2@,
                *final(r.unwrap().1),
            ),
            r.is_none() ==> final(self)@ == old(self)@,
    {
        self.entries.get_pair_mut(e1.id(), e2.id())
    }

    /// Removes every entity's value.
    pub fn clear(&mut self)
        ensures
            final(self).wf(),
            final(self)@ == Map::<u64, C>::empty(),
    {
        self.entries.clear();
    }

    /// A snapshot of all entity ids currently holding this component.
    pub fn query(&self) -> (r: QueriedEntities)
        requires
            self.wf(),
        ensures
            r.wf(),
            r@ == self@.dom(),
    {
        proof {
            self.entries.lemma_wf();
        }
        let ks = self.entries.keys_vec();
        let n = ks.len();
        let mut out: Vec<EntityId> = Vec::new();
        let mut i: usize = 0;
        while i < n
            invariant
                i <= n,
                n == ks@.len(),
                ids_of(out@) == ks@.subrange(0, i as int),
            decreases n - i,
        {
            let ghost out0 = out@;
            out.push(EntityId::new(ks[i]));
            proof {
                lemma_ids_push(out0, EntityId(ks@[i as int]));
                assert(ids_of(out@) =~= ks@.subrange(0, i + 1));
            }
            i += 1;
        }
        proof {
            assert(ids_of(out@) =~= ks@);
            assert(ids_of(out@).to_set() =~= self@.dom());
        }
        QueriedEntities::from_vec(out)
    }

    /// Keeps the snapshot's ids whose presence in this list matches
    /// `keep_present`.
    fn filter_by_presence(&self, query: &QueriedEntities, keep_present: bool) -> (r:
        QueriedEntities)
        requires
            self.wf(),
            query.wf(),
        ensures
            r.wf(),
            keep_present ==> r@ == query@.intersect(self@.dom()),
            !keep_present ==> r@ == query@.difference(self@.dom()),
    {
        let ghost chosen = if keep_present {
            query@.intersect(self@.dom())
        } else {
            query@.difference(self@.dom())
        };
        let n = query.len();
        let mut out: Vec<EntityId> = Vec::new();
        let mut i: usize = 0;
        while i < n
            invariant
                i <= n,
                n == query.ids().len(),
                query.wf(),
                self.wf(),
                chosen == if keep_present {
                    query@.intersect(self@.dom())
                } else {
                    query@.difference(self@.dom())
                },
                ids_of(out@).no_duplicates(),
                ids_of(out@).to_set() == query.ids().subrange(0, i as int).to_set().intersect(
                    chosen,
                ),
            decreases n - i,
        {
            let e = query.get(i);
            let ghost out0 = out@;
            proof {
                lemma_prefix_snoc(query.ids(), i as int);
                lemma_prefix_fresh(query.ids(), i as int);
            }
            if self.contains(&e) == keep_present {
                proof {
                    assert(chosen.contains(e@));
                    assert(!ids_of(out0).contains(e@)) by {
                        if ids_of(out0).contains(e@) {
                            assert(ids_of(out0).to_set().contains(e@));
                        }
                    }
                }
                out.push(e);
                proof {
                    lemma_ids_push(out0, e);
                    lemma_push_fresh(ids_of(out0), e@);
                    assert(ids_of(out@).to_set() =~= query.ids().subrange(
                        0,
                        i + 1,
                    ).to_set().intersect(chosen));
                }
            } else {
                proof {
                    assert(!chosen.contains(e@));
                    assert(ids_of(out@).to_set() =~= query.ids().subrange(
                        0,
                        i + 1,
                    ).to_set().intersect(chosen));
                }
            }
            i += 1;
        }
        proof {
            assert(query.ids().subrange(0, n as int) =~= query.ids());
            assert(ids_of(out@).to_set() =~= chosen) by {
                assert forall|x: u64| chosen.contains(x) implies query.ids().to_set().contains(
                    x,
                ) by {}
            }
        }
        QueriedEntities::from_vec(out)
    }

    /// Extends `base` with this list's ids that are not in `query`.
    ///
    /// `base` must be duplicate-free against those ids, which holds
    /// whenever `base`'s set is contained in `query`'s.
    fn union_missing(&self, base: QueriedEntities, query: &QueriedEntities) -> (r: QueriedEntities)
        requires
            self.wf(),
            base.wf(),
            query.wf(),
            base@.subset_of(query@),
        ensures
            r.wf(),
            r@ == base@.union(self@.dom().difference(query@)),
    {
        proof {
            self.entries.lemma_wf();
        }
        let ghost dom = self@.dom();
        let ks = self.entries.keys_vec();
        let n = ks.len();
        let ghost base0 = base@;
        let mut out: Vec<EntityId> = base.into_vec();
        let mut i: usize = 0;
        while i < n
            invariant
                i <= n,
                n == ks@.len(),
                self.wf(),
                query.wf(),
                ks@ == self.entries.key_seq(),
                ks@.no_duplicates(),
                dom == ks@.to_set(),
                dom == self@.dom(),
                base0.subset_of(query@),
                ids_of(out@).no_duplicates(),
                ids_of(out@).to_set() == base0.union(
                    ks@.subrange(0, i as int).to_set().difference(query@),
                ),
            decreases n - i,
        {
            let e = EntityId::new(ks[i]);
            let ghost out0 = out@;
            proof {
                lemma_prefix_snoc(ks@, i as int);
                lemma_prefix_fresh(ks@, i as int);
            }
            if !query.contains(&e) {
                proof {
                    assert(!ids_of(out0).contains(e@)) by {
                        if ids_of(out0).contains(e@) {
                            assert(ids_of(out0).to_set().contains(e@));
                        }
                    }
                }
                out.push(e);
                proof {
                    lemma_ids_push(out0, e);
                    lemma_push_fresh(ids_of(out0), e@);
                    assert(ids_of(out@).to_set() =~= base0.union(
                        ks@.subrange(0, i + 1).to_set().difference(query@),
                    ));
                }
            } else {
                proof {
                    assert(ids_of(out@).to_set() =~= base0.union(
                        ks@.subrange(0, i + 1).to_set().difference(query@),
                    ));
                }
            }
            i += 1;
        }
        proof {
            assert(ks@.subrange(0, n as int) =~= ks@);
            assert(ids_of(out@).to_set() =~= base0.union(dom.difference(query@)));
        }
        QueriedEntities::from_vec(out)
    }

    /// AND: keeps exactly the snapshot's ids that hold this component.
    pub fn with(&self, query: QueriedEntities) -> (r: QueriedEntities)
        requires
            self.wf(),
            query.wf(),
        ensures
            r.wf(),
            r@ == query@.intersect(self@.dom()),
    {
        self.filter_by_presence(&query, true)
    }

    /// AND NOT: keeps exactly the snapshot's ids that lack this component.
    pub fn without(&self, query: QueriedEntities) -> (r: QueriedEntities)
        requires
            self.wf(),
            query.wf(),
        ensures
            r.wf(),
            r@ == query@.difference(self@.dom()),
    {
        self.filter_by_presence(&query, false)
    }

    /// OR: the snapshot's ids together with every id holding this
    /// component.
    pub fn or(&self, query: QueriedEntities) -> (r: QueriedEntities)
        requires
            self.wf(),
            query.wf(),
        ensures
            r.wf(),
            r@ == query@.union(self@.dom()),
    {
        let base = query.clone();
        let r = self.union_missing(base, &query);
        proof {
            assert(query@.union(self@.dom().difference(query@)) =~= query@.union(self@.dom()));
        }
        r
    }

    /// XOR: the ids in the snapshot or holding this component, but not
    /// both.
    pub fn xor(&self, query: QueriedEntities) -> (r: QueriedEntities)
        requires
            self.wf(),
            query.wf(),
        ensures
            r.wf(),
            r@ == query@.difference(self@.dom()).union(self@.dom().difference(query@)),
    {
        let base = self.filter_by_presence(&query, false);
        self.union_missing(base, &query)
    }

    /// NAND over the visible universe (the snapshot's ids and this list's):
    /// every visible id not carrying both memberships. On that universe
    /// this coincides with [`ComponentList::xor`].
    pub fn nand(&self, query: QueriedEntities) -> (r: QueriedEntities)
        requires
            self.wf(),
            query.wf(),
        ensures
            r.wf(),
            r@ == query@.union(self@.dom()).difference(query@.intersect(self@.dom())),
    {
        let r = self.xor(query);
        proof {
            assert(r@ =~= query@.union(self@.dom()).difference(query@.intersect(self@.dom())));
        }
        r
    }

    /// NOR over the visible universe: a visible id is in the snapshot or in
    /// this list by construction, so the result is always empty.
    pub fn nor(&self, query: QueriedEntities) -> (r: QueriedEntities)
        requires
            self.wf(),
            query.wf(),
        ensures
            r.wf(),
            r@ == Set::<u64>::empty(),
    {
        QueriedEntities::new()
    }

    /// XNOR over the visible universe: both memberships or neither; no
    /// visible id has neither, so this coincides with
    /// [`ComponentList::with`].
    pub fn xnor(&self, query: QueriedEntities) -> (r: QueriedEntities)
        requires
            self.wf(),
            query.wf(),
        ensures
            r.wf(),
            r@ == query@.intersect(self@.dom()),
    {
        self.filter_by_presence(&query, true)
    }
}

} // verus!
