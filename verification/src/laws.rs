//! The store's laws, stated once over the same specification functions
//! that the methods' contracts use.
//!
//! Each law quantifies over every world state the contracts can produce:
//! [`crate::world::World::insert`] ensures its result is
//! `lookup(pre, tag, e)` and the new tables are `upserted(pre, tag, e, v)`,
//! [`crate::world::World::remove`] the analogue with `removed`, and
//! [`crate::world::World::delete_entity`] with `deleted` — so a chain of
//! calls is exactly a chain of these functions, and the lemmas below speak
//! about every such chain. The uniqueness law for entity ids is
//! [`crate::entity::lemma_entity_ids_unique`], beside the generator.

use vstd::prelude::*;

use crate::world::deleted;
use crate::world::lookup;
use crate::world::removed;
use crate::world::store_of;
use crate::world::upserted;

verus! {

/// Upsert: inserting `v1` then `v2` under one tag for one entity leaves
/// `v2` as the entity's value; the first insertion finds whatever the
/// entity had before (nothing, if it had nothing), and the second finds
/// `v1`.
pub proof fn lemma_upsert<C>(cv: Map<u64, Map<u64, C>>, tag: u64, e: u64, v1: C, v2: C)
    ensures
        lookup(upserted(upserted(cv, tag, e, v1), tag, e, v2), tag, e) == Some(v2),
        lookup(upserted(cv, tag, e, v1), tag, e) == Some(v1),
        !store_of(cv, tag).contains_key(e) ==> lookup(cv, tag, e) == None::<C>,
{
}

/// Round trip: after inserting `v`, a removal finds exactly `v`, and a
/// second removal finds nothing.
pub proof fn lemma_round_trip<C>(cv: Map<u64, Map<u64, C>>, tag: u64, e: u64, v: C)
    ensures
        lookup(upserted(cv, tag, e, v), tag, e) == Some(v),
        lookup(removed(upserted(cv, tag, e, v), tag, e), tag, e) == None::<C>,
        removed(removed(upserted(cv, tag, e, v), tag, e), tag, e) == removed(
            upserted(cv, tag, e, v),
            tag,
            e,
        ),
{
    let cv1 = upserted(cv, tag, e, v);
    let cv2 = removed(cv1, tag, e);
    assert(cv2[tag] =~= cv1[tag].remove(e));
    assert(removed(cv2, tag, e) =~= cv2) by {
        assert(cv2[tag].remove(e) =~= cv2[tag]);
        assert(cv2.insert(tag, cv2[tag]) =~= cv2);
    }
}

/// Deletion snapshot isolation: a snapshot is an owned value, so deleting
/// an entity leaves every snapshot built earlier untouched — it still
/// contains the id — while a lookup of that entity after the deletion
/// finds nothing under any tag.
pub proof fn lemma_deletion_snapshot<C>(cv: Map<u64, Map<u64, C>>, q: Set<u64>, tag: u64, e: u64)
    requires
        q == store_of(cv, tag).dom(),
        q.contains(e),
    ensures
        q.contains(e),
        forall|t: u64| lookup(#[trigger] deleted(cv, e), t, e) == None::<C>,
{
    assert forall|t: u64| lookup(#[trigger] deleted(cv, e), t, e) == None::<C> by {
        if deleted(cv, e).contains_key(t) {
            assert(deleted(cv, e)[t] == cv[t].remove(e));
        }
    }
}

} // verus!
