//! Entity identities and the generator that issues them.

use vstd::prelude::*;

verus! {

/// An opaque, totally ordered, hashable handle for one entity.
///
/// An id carries no data of its own: its meaning is exactly the set of
/// components currently filed under it. Ids come from an
/// [`EntityIdGenerator`] and are never reused within one generator's
/// lifetime; two equal ids always denote the same logical entity.
#[derive(Debug, Clone, Copy, PartialEq, Eq, Structural, Hash, PartialOrd, Ord)]
pub struct EntityId(pub u64);

impl View for EntityId {
    type V = u64;

    open spec fn view(&self) -> u64 {
        self.0
    }
}

impl EntityId {
    /// Wraps a raw number as an entity id.
    pub fn new(id: u64) -> (r: EntityId)
        ensures
            r@ == id,
    {
        EntityId(id)
    }

    /// The raw number behind this id.
    pub fn id(&self) -> (r: u64)
        ensures
            r == self@,
    {
        self.0
    }
}

impl From<u64> for EntityId {
    fn from(val: u64) -> (r: EntityId) {
        EntityId(val)
    }
}

impl vstd::std_specs::convert::FromSpecImpl<u64> for EntityId {
    open spec fn obeys_from_spec() -> bool {
        true
    }

    open spec fn from_spec(val: u64) -> EntityId {
        EntityId(val)
    }
}

/// Issues unique, strictly increasing entity identities.
///
/// The counter is plain data: callers that share a generator across
/// systems synchronise it externally (the [`crate::locked::LockedWorld`]
/// lock does so for the generator owned by a world).
pub struct EntityIdGenerator {
    next_id: u64,
}

impl EntityIdGenerator {
    /// The id the next call of [`Self::generate`] will return.
    pub closed spec fn next(self) -> u64 {
        self.next_id
    }

    /// The set of ids this generator has already handed out.
    pub open spec fn issued(self) -> Set<u64> {
        Set::new(|i: u64| i < self.next())
    }

    /// A fresh generator that has issued nothing.
    pub fn new() -> (r: EntityIdGenerator)
        ensures
            r.next() == 0,
            r.issued() == Set::<u64>::empty(),
    {
        let r = EntityIdGenerator { next_id: 0 };
        proof {
            assert(r.issued() =~= Set::<u64>::empty());
        }
        r
    }

    /// Returns a fresh id, strictly greater than every previously issued
    /// one; in particular the result was never issued before.
    pub fn generate(&mut self) -> (r: EntityId)
        requires
            old(self).next() < u64::MAX,
        ensures
            r@ == old(self).next(),
            final(self).next() == old(self).next() + 1,
            !old(self).issued().contains(r@),
            final(self).issued() == old(self).issued().insert(r@),
            forall|i: u64| old(self).issued().contains(i) ==> i < r@,
    {
        let n = self.next_id;
        self.next_id = n + 1;
        proof {
            assert(self.issued() =~= old(self).issued().insert(n));
        }
        EntityId(n)
    }
}

/// One `generate` call: `pre` is the generator before, `post` after, and
/// `id` the result, exactly as [`EntityIdGenerator::generate`] promises.
pub open spec fn generate_step(pre: EntityIdGenerator, post: EntityIdGenerator, id: EntityId) -> bool {
    &&& id@ == pre.next()
    &&& post.next() == pre.next() + 1
}

proof fn lemma_next_monotone(gens: Seq<EntityIdGenerator>, ids: Seq<EntityId>, i: int, j: int)
    requires
        gens.len() == ids.len() + 1,
        forall|k: int| 0 <= k < ids.len() ==> generate_step(gens[k], gens[k + 1], ids[k]),
        0 <= i <= j < gens.len(),
    ensures
        gens[i].next() <= gens[j].next(),
    decreases j - i,
{
    if i < j {
        lemma_next_monotone(gens, ids, i, j - 1);
        assert(generate_step(gens[j - 1], gens[j], ids[j - 1]));
    }
}

/// Uniqueness: over any sequence of `generate` calls on one generator,
/// the returned ids are pairwise distinct.
///
/// `gens[k]` is the generator state before the `k`-th call and `ids[k]`
/// its result, so consecutive states are related by [`generate_step`].
pub proof fn lemma_entity_ids_unique(gens: Seq<EntityIdGenerator>, ids: Seq<EntityId>)
    requires
        gens.len() == ids.len() + 1,
        forall|k: int| 0 <= k < ids.len() ==> generate_step(gens[k], gens[k + 1], ids[k]),
    ensures
        forall|i: int, j: int| 0 <= i < j < ids.len() ==> ids[i]@ != ids[j]@,
        forall|i: int, j: int| 0 <= i < j < ids.len() ==> ids[i] != ids[j],
{
    assert forall|i: int, j: int| 0 <= i < j < ids.len() implies ids[i]@ != ids[j]@ by {
        assert(generate_step(gens[i], gens[i + 1], ids[i]));
        assert(generate_step(gens[j], gens[j + 1], ids[j]));
        lemma_next_monotone(gens, ids, i + 1, j);
    }
}

} // verus!
