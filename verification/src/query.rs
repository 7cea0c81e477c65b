//! Snapshot query results.
//!
//! A [`QueriedEntities`] value is an owned, order-insensitive collection of
//! entity ids: a snapshot of which entities satisfied a predicate at the
//! moment it was built. It is plain data — re-iterable, cloneable, and
//! independent of the store once constructed — so entities created or
//! destroyed later are not reflected in it. Callers may rely on set
//! membership only, never on iteration order.

use vstd::prelude::*;
use vstd::seq_lib::*;

use crate::entity::EntityId;

verus! {

/// The raw ids behind a sequence of entity ids.
pub open spec fn ids_of(s: Seq<EntityId>) -> Seq<u64> {
    s.map_values(|e: EntityId| e@)
}

/// An owned snapshot set of entity ids.
pub struct QueriedEntities {
    entities: Vec<EntityId>,
}

impl View for QueriedEntities {
    type V = Set<u64>;

    /// The set of ids this snapshot holds.
    open spec fn view(&self) -> Set<u64> {
        self.ids().to_set()
    }
}

impl QueriedEntities {
    /// The held ids in storage order. The order is an artefact of
    /// construction; contracts speak of the set [`QueriedEntities::view`].
    pub closed spec fn ids(self) -> Seq<u64> {
        ids_of(self.entities@)
    }

    /// Well-formed: no id occurs twice.
    pub open spec fn wf(self) -> bool {
        self.ids().no_duplicates()
    }

    /// An empty snapshot.
    pub fn new() -> (r: QueriedEntities)
        ensures
            r.wf(),
            r@ == Set::<u64>::empty(),
            r.ids() == Seq::<u64>::empty(),
    {
        let r = QueriedEntities { entities: Vec::new() };
        proof {
            assert(r.ids() =~= Seq::<u64>::empty());
            assert(r@ =~= Set::<u64>::empty());
        }
        r
    }

    /// Wraps a vector of ids as a snapshot.
    pub(crate) fn from_vec(entities: Vec<EntityId>) -> (r: QueriedEntities)
        requires
            ids_of(entities@).no_duplicates(),
        ensures
            r.wf(),
            r.ids() == ids_of(entities@),
    {
        QueriedEntities { entities }
    }

    /// How many ids the snapshot holds.
    pub fn len(&self) -> (r: usize)
        ensures
            r == self.ids().len(),
            self.wf() ==> r == self@.len(),
    {
        proof {
            if self.wf() {
                self.ids().unique_seq_to_set();
            }
        }
        self.entities.len()
    }

    /// Whether the snapshot holds no id.
    pub fn is_empty(&self) -> (r: bool)
        ensures
            r == (self.ids().len() == 0),
    {
        self.entities.is_empty()
    }

    /// Whether `e` is in the snapshot.
    pub fn contains(&self, e: &EntityId) -> (r: bool)
        ensures
            r == self@.contains(e@),
    {
        let n = self.entities.len();
        let mut i: usize = 0;
        while i < n
            invariant
                i <= n,
                n == self.ids().len(),
                forall|m: int| 0 <= m < i ==> self.ids()[m] != e@,
            decreases n - i,
        {
            if self.entities[i].id() == e.id() {
                proof {
                    assert(self.ids()[i as int] == e@);
                }
                return true;
            }
            i += 1;
        }
        proof {
            assert(!self.ids().contains(e@));
        }
        false
    }

    /// The id at position `i`; positions only enumerate the snapshot, their
    /// order means nothing.
    pub fn get(&self, i: usize) -> (r: EntityId)
        requires
            i < self.ids().len(),
        ensures
            r@ == self.ids()[i as int],
            self@.contains(r@),
    {
        self.entities[i]
    }

    /// Unwraps the snapshot into its vector of ids.
    pub(crate) fn into_vec(self) -> (r: Vec<EntityId>)
        ensures
            ids_of(r@) == self.ids(),
    {
        self.entities
    }

    /// The held ids as a vector, for iteration outside the store.
    pub fn entities(&self) -> (r: &Vec<EntityId>)
        ensures
            ids_of(r@) == self.ids(),
    {
        &self.entities
    }
}

impl Clone for QueriedEntities {
    /// Copy semantics: the clone holds exactly the same ids.
    fn clone(&self) -> (r: Self)
        ensures
            r.ids() == self.ids(),
            r@ == self@,
            r.wf() == self.wf(),
    {
        let n = self.entities.len();
        let mut entities: Vec<EntityId> = Vec::new();
        let mut i: usize = 0;
        while i < n
            invariant
                i <= n,
                n == self.entities@.len(),
                entities@ == self.entities@.subrange(0, i as int),
            decreases n - i,
        {
            entities.push(self.entities[i]);
            proof {
                assert(entities@ =~= self.entities@.subrange(0, i + 1));
            }
            i += 1;
        }
        proof {
            assert(entities@ =~= self.entities@);
        }
        QueriedEntities { entities }
    }
}

} // verus!
