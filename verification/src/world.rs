//! The world: the facade over per-type component storage, singleton
//! resources, and entity identity.
//!
//! Component types have no compile-time schema here: a type is a `u64`
//! *tag* chosen by the embedding code, registered on first insertion, and
//! every value filed under one tag lives in that tag's [`ComponentList`].
//! The registry therefore needs no runtime downcast: the tag alone selects
//! the store. Resources are a parallel table keyed the same way but
//! holding at most one value per tag, never keyed by entity.
//!
//! Borrows of one tag's list ([`World::component_list_ref`] /
//! [`World::component_list_mut`]) are the read and write guards of the
//! store; they release on every exit path when the borrow ends, and a
//! guard cannot be re-acquired while one is live. Querying an unknown tag
//! is reported, not silently empty: asking for an unregistered tag's list
//! yields nothing, so no snapshot can be built from it.

use vstd::prelude::*;

use crate::entity::EntityId;
use crate::entity::EntityIdGenerator;
use crate::idmap::IdMap;
use crate::store::ComponentList;

verus! {

/// An opaque handle for one created resource.
#[derive(Debug, Clone, Copy, PartialEq, Eq, Structural, Hash, PartialOrd, Ord)]
pub struct ResourceId(pub u64);

impl View for ResourceId {
    type V = u64;

    open spec fn view(&self) -> u64 {
        self.0
    }
}

impl From<u64> for ResourceId {
    fn from(val: u64) -> (r: ResourceId) {
        ResourceId(val)
    }
}

impl vstd::std_specs::convert::FromSpecImpl<u64> for ResourceId {
    open spec fn obeys_from_spec() -> bool {
        true
    }

    open spec fn from_spec(val: u64) -> ResourceId {
        ResourceId(val)
    }
}

/// Misuse that the world reports instead of corrupting state.
#[derive(Debug, Clone, Copy, PartialEq, Eq, Structural)]
pub enum WorldError {
    /// A component tag was registered a second time.
    TypeAlreadyRegistered,
    /// A resource tag was created a second time.
    DuplicateResource,
}

/// The store registered under `tag`, or an empty one if none is.
pub open spec fn store_of<C>(cv: Map<u64, Map<u64, C>>, tag: u64) -> Map<u64, C> {
    if cv.contains_key(tag) {
        cv[tag]
    } else {
        Map::empty()
    }
}

/// The component tables after upserting `v` for `e` under `tag`,
/// registering the tag if it was absent.
pub open spec fn upserted<C>(cv: Map<u64, Map<u64, C>>, tag: u64, e: u64, v: C) -> Map<
    u64,
    Map<u64, C>,
> {
    cv.insert(tag, store_of(cv, tag).insert(e, v))
}

/// The component tables after removing `e`'s value under `tag`.
pub open spec fn removed<C>(cv: Map<u64, Map<u64, C>>, tag: u64, e: u64) -> Map<u64, Map<u64, C>> {
    if cv.contains_key(tag) {
        cv.insert(tag, cv[tag].remove(e))
    } else {
        cv
    }
}

/// The component tables after deleting entity `e` from every store.
pub open spec fn deleted<C>(cv: Map<u64, Map<u64, C>>, e: u64) -> Map<u64, Map<u64, C>> {
    cv.map_values(|m: Map<u64, C>| m.remove(e))
}

/// `e`'s value under `tag`, if the tag is registered and holds one.
pub open spec fn lookup<C>(cv: Map<u64, Map<u64, C>>, tag: u64, e: u64) -> Option<C> {
    if store_of(cv, tag).contains_key(e) {
        Some(store_of(cv, tag)[e])
    } else {
        None
    }
}

/// One store after upserting a batch of entries in order.
pub open spec fn upserted_all<C>(m: Map<u64, C>, entries: Seq<(EntityId, C)>) -> Map<u64, C>
    decreases entries.len(),
{
    if entries.len() == 0 {
        m
    } else {
        upserted_all(m.insert(entries.first().0@, entries.first().1), entries.drop_first())
    }
}

/// The facade aggregating the component-type registry, the resource
/// table, and the entity id generator.
pub struct World<C, R> {
    components: IdMap<ComponentList<C>>,
    resources: IdMap<R>,
    entity_gen: EntityIdGenerator,
    next_resource_id: u64,
}

impl<C, R> World<C, R> {
    /// The component tables: tag -> (entity id -> value).
    pub closed spec fn components_view(self) -> Map<u64, Map<u64, C>> {
        self.components@.map_values(|cl: ComponentList<C>| cl@)
    }

    /// The resource table: tag -> singleton value.
    pub closed spec fn resources_view(self) -> Map<u64, R> {
        self.resources@
    }

    /// The entity id generator this world owns.
    pub closed spec fn gen(self) -> EntityIdGenerator {
        self.entity_gen
    }

    /// The id the next created resource will get.
    pub closed spec fn next_resource(self) -> u64 {
        self.next_resource_id
    }

    /// Well-formed: both tables are consistent and every registered store
    /// is.
    pub closed spec fn wf(self) -> bool {
        &&& self.components.wf()
        &&& self.resources.wf()
        &&& forall|t: u64|
            #[trigger] self.components@.contains_key(t) ==> self.components@[t].wf()
    }

    /// Replacing one entry of the component registry is one insertion on
    /// the view level.
    proof fn lemma_cv_update(post: World<C, R>, pre: World<C, R>, tag: u64, cl: ComponentList<C>)
        requires
            pre.wf(),
            post.components.wf(),
            post.components@ == pre.components@.insert(tag, cl),
            post.resources == pre.resources,
            post.entity_gen == pre.entity_gen,
            post.next_resource_id == pre.next_resource_id,
        ensures
            post.components_view() == pre.components_view().insert(tag, cl@),
            cl.wf() ==> post.wf(),
            post.resources_view() == pre.resources_view(),
            post.gen() == pre.gen(),
            post.next_resource() == pre.next_resource(),
    {
        assert(post.components_view() =~= pre.components_view().insert(tag, cl@));
        if cl.wf() {
            assert forall|t: u64| #[trigger] post.components@.contains_key(t)
                implies post.components@[t].wf() by {
                if t != tag {
                    assert(pre.components@.contains_key(t));
                }
            }
        }
    }

    /// A fresh world: nothing registered, no resources, no ids issued.
    pub fn new() -> (r: World<C, R>)
        ensures
            r.wf(),
            r.components_view() == Map::<u64, Map<u64, C>>::empty(),
            r.resources_view() == Map::<u64, R>::empty(),
            r.gen().next() == 0,
            r.next_resource() == 0,
    {
        let r = World {
            components: IdMap::new(),
            resources: IdMap::new(),
            entity_gen: EntityIdGenerator::new(),
            next_resource_id: 0,
        };
        proof {
            assert(r.components_view() =~= Map::<u64, Map<u64, C>>::empty());
        }
        r
    }

    /// Issues a fresh entity id, distinct from every id this world has
    /// issued before.
    pub fn create_entity(&mut self) -> (r: EntityId)
        requires
            old(self).wf(),
            old(self).gen().next() < u64::MAX,
        ensures
            final(self).wf(),
            r@ == old(self).gen().next(),
            !old(self).gen().issued().contains(r@),
            final(self).gen().next() == old(self).gen().next() + 1,
            final(self).gen().issued() == old(self).gen().issued().insert(r@),
            final(self).components_view() == old(self).components_view(),
            final(self).resources_view() == old(self).resources_view(),
            final(self).next_resource() == old(self).next_resource(),
    {
        self.entity_gen.generate()
    }

    /// Whether a store for `tag` exists.
    pub fn is_registered(&self, tag: u64) -> (r: bool)
        ensures
            r == self.components_view().contains_key(tag),
    {
        self.components.contains(tag)
    }

    /// Creates an empty store for `tag`; registering a tag twice is a
    /// reported logic error that changes nothing.
    pub fn register_type(&mut self, tag: u64) -> (r: Result<(), WorldError>)
        requires
            old(self).wf(),
        ensures
            final(self).wf(),
            r == if old(self).components_view().contains_key(tag) {
                Err::<(), WorldError>(WorldError::TypeAlreadyRegistered)
            } else {
                Ok::<(), WorldError>(())
            },
            r is Ok ==> final(self).components_view() == old(self).components_view().insert(
                tag,
                Map::<u64, C>::empty(),
            ),
            r is Err ==> final(self).components_view() == old(self).components_view(),
            final(self).resources_view() == old(self).resources_view(),
            final(self).gen() == old(self).gen(),
            final(self).next_resource() == old(self).next_resource(),
    {
        let ghost pre = *old(self);
        if self.components.contains(tag) {
            Err(WorldError::TypeAlreadyRegistered)
        } else {
            let list = ComponentList::new();
            self.components.insert(tag, list);
            proof {
                Self::lemma_cv_update(*self, pre, tag, list);
            }
            Ok(())
        }
    }

    /// Upserts `entity`'s value under `tag`, registering the tag on first
    /// insertion; any previous value for that entity is returned and
    /// replaced.
    pub fn insert(&mut self, tag: u64, entity: &EntityId, component: C) -> (r: Option<C>)
        requires
            old(self).wf(),
        ensures
            final(self).wf(),
            final(self).components_view() == upserted(
                old(self).components_view(),
                tag,
                entity@,
                component,
            ),
            r == lookup(old(self).components_view(), tag, entity@),
            final(self).resources_view() == old(self).resources_view(),
            final(self).gen() == old(self).gen(),
            final(self).next_resource() == old(self).next_resource(),
    {
        let ghost pre = *old(self);
        match self.components.get_mut(tag) {
            Some(cl) => {
                let r = cl.insert(entity, component);
                proof {
                    Self::lemma_cv_update(after_borrow(*self), pre, tag, *final(cl));
                }
                r
            },
            None => {
                let mut list = ComponentList::new();
                let r = list.insert(entity, component);
                self.components.insert(tag, list);
                proof {
                    Self::lemma_cv_update(*self, pre, tag, list);
                    assert(store_of(pre.components_view(), tag) =~= Map::<u64, C>::empty());
                }
                r
            },
        }
    }

    /// Upserts a batch of entries under `tag` in order, registering the
    /// tag even when the batch is empty.
    pub fn insert_many(&mut self, tag: u64, entries: Vec<(EntityId, C)>)
        requires
            old(self).wf(),
        ensures
            final(self).wf(),
            final(self).components_view() == old(self).components_view().insert(
                tag,
                upserted_all(store_of(old(self).components_view(), tag), entries@),
            ),
            final(self).resources_view() == old(self).resources_view(),
            final(self).gen() == old(self).gen(),
            final(self).next_resource() == old(self).next_resource(),
    {
        let ghost pre = *old(self);
        let ghost entries0 = entries@;
        let mut rest = entries;
        if !self.is_registered(tag) {
            let _reg = self.register_type(tag);
        }
        proof {
            if pre.components_view().contains_key(tag) {
                assert(self.components_view() =~= pre.components_view().insert(
                    tag,
                    store_of(pre.components_view(), tag),
                ));
            }
        }
        while !rest.is_empty()
            invariant
                self.wf(),
                self.components_view().contains_key(tag),
                upserted_all(store_of(pre.components_view(), tag), entries0) == upserted_all(
                    self.components_view()[tag],
                    rest@,
                ),
                self.components_view() == pre.components_view().insert(
                    tag,
                    self.components_view()[tag],
                ),
                self.resources_view() == pre.resources_view(),
                self.gen() == pre.gen(),
                self.next_resource() == pre.next_resource(),
            decreases rest@.len(),
        {
            let (entity, component) = rest.remove(0);
            self.insert(tag, &entity, component);
            proof {
                assert(self.components_view() =~= pre.components_view().insert(
                    tag,
                    self.components_view()[tag],
                ));
            }
        }
        proof {
            assert(self.components_view() =~= pre.components_view().insert(
                tag,
                upserted_all(store_of(pre.components_view(), tag), entries0),
            ));
        }
    }

    /// Removes and returns `entity`'s value under `tag`; an unregistered
    /// tag or an absent value is no error.
    pub fn remove(&mut self, tag: u64, entity: &EntityId) -> (r: Option<C>)
        requires
            old(self).wf(),
        ensures
            final(self).wf(),
            final(self).components_view() == removed(old(self).components_view(), tag, entity@),
            r == lookup(old(self).components_view(), tag, entity@),
            final(self).resources_view() == old(self).resources_view(),
            final(self).gen() == old(self).gen(),
            final(self).next_resource() == old(self).next_resource(),
    {
        let ghost pre = *old(self);
        match self.components.get_mut(tag) {
            Some(cl) => {
                let r = cl.remove(entity);
                proof {
                    Self::lemma_cv_update(after_borrow(*self), pre, tag, *final(cl));
                }
                r
            },
            None => None,
        }
    }

    /// Whether `entity` holds a component under `tag`.
    pub fn contains(&self, tag: u64, entity: &EntityId) -> (r: bool)
        requires
            self.wf(),
        ensures
            r == lookup(self.components_view(), tag, entity@).is_some(),
    {
        match self.components.get(tag) {
            Some(cl) => cl.contains(entity),
            None => false,
        }
    }

    /// Deletes `entity` from every registered store. Snapshots built
    /// before the call are owned values and keep the id; later lookups
    /// find nothing under it.
    pub fn delete_entity(&mut self, entity: &EntityId)
        requires
            old(self).wf(),
        ensures
            final(self).wf(),
            final(self).components_view() == deleted(old(self).components_view(), entity@),
            final(self).resources_view() == old(self).resources_view(),
            final(self).gen() == old(self).gen(),
            final(self).next_resource() == old(self).next_resource(),
    {
        let ghost pre = *old(self);
        let ghost ks = pre.components.key_seq();
        proof {
            pre.components.lemma_wf();
        }
        let n = self.components.len();
        let mut i: usize = 0;
        while i < n
            invariant
                i <= n,
                pre.wf(),
                n == ks.len(),
                ks.no_duplicates(),
                ks == pre.components.key_seq(),
                self.components.wf(),
                self.components.key_seq() == ks,
                self.resources == pre.resources,
                self.entity_gen == pre.entity_gen,
                self.next_resource_id == pre.next_resource_id,
                forall|m: int|
                    0 <= m < i ==> (#[trigger] self.components@[ks[m]])@ == pre.components@[
                        ks[m]
                    ]@.remove(entity@) && self.components@[ks[m]].wf(),
                forall|m: int|
                    i <= m < n ==> #[trigger] self.components@[ks[m]] == pre.components@[ks[m]],
            decreases n - i,
        {
            let cl = self.components.value_at_mut(i);
            proof {
                pre.components.lemma_key_at(i as int);
            }
            cl.remove(entity);
            proof {
                assert forall|m: int|
                    0 <= m < i + 1 implies (#[trigger] self.components@[ks[m]])@
                    == pre.components@[ks[m]]@.remove(entity@) && self.components@[ks[m]].wf() by {
                    if m < i {
                        assert(ks[m] != ks[i as int]);
                    }
                }
                assert forall|m: int|
                    i + 1 <= m < n implies #[trigger] self.components@[ks[m]] == pre.components@[
                    ks[m]
                ] by {
                    assert(ks[m] != ks[i as int]);
                }
            }
            i += 1;
        }
        proof {
            self.components.lemma_wf();
            pre.components.lemma_wf();
            assert forall|t: u64| #[trigger] self.components@.contains_key(t)
                implies self.components@[t]@ == pre.components@[t]@.remove(entity@)
                && self.components@[t].wf() && pre.components@.contains_key(t) by {
                assert(ks.to_set().contains(t));
                let m = choose|m: int| 0 <= m < ks.len() && ks[m] == t;
                assert(self.components@[ks[m]]@ == pre.components@[ks[m]]@.remove(entity@));
            }
            assert(self.components@.dom() =~= pre.components@.dom());
            assert(self.components_view() =~= deleted(pre.components_view(), entity@));
        }
    }

    /// A shared borrow (read guard) of the store registered under `tag`.
    pub fn component_list_ref(&self, tag: u64) -> (r: Option<&ComponentList<C>>)
        requires
            self.wf(),
        ensures
            match r {
                Some(cl) => self.components_view().contains_key(tag) && cl@
                    == self.components_view()[tag] && cl.wf(),
                None => !self.components_view().contains_key(tag),
            },
    {
        self.components.get(tag)
    }

    /// A mutable borrow (write guard) of the store registered under `tag`;
    /// exclusive while it lives, released when it ends.
    pub fn component_list_mut(&mut self, tag: u64) -> (r: Option<&mut ComponentList<C>>)
        requires
            old(self).wf(),
        ensures
            r.is_some() == old(self).components_view().contains_key(tag),
            r.is_some() ==> (*r.unwrap())@ == old(self).components_view()[tag]
                && (*r.unwrap()).wf(),
            r.is_some() ==> final(self).components_view() == old(self).components_view().insert(
                tag,
                (*final(r.unwrap()))@,
            ),
            r.is_some() ==> ((*final(r.unwrap())).wf() ==> final(self).wf()),
            r.is_none() ==> {
                &&& final(self).components_view() == old(self).components_view()
                &&& final(self).wf()
            },
            final(self).resources_view() == old(self).resources_view(),
            final(self).gen() == old(self).gen(),
            final(self).next_resource() == old(self).next_resource(),
    {
        let ghost pre = *old(self);
        let r = self.components.get_mut(tag);
        match r {
            Some(cl) => {
                proof {
                    Self::lemma_cv_update(after_borrow(*self), pre, tag, *final(cl));
                }
                Some(cl)
            },
            None => None,
        }
    }

    /// Replacing two distinct entries of the component registry is two
    /// insertions on the view level.
    proof fn lemma_cv_update2(
        post: World<C, R>,
        pre: World<C, R>,
        tag1: u64,
        cl1: ComponentList<C>,
        tag2: u64,
        cl2: ComponentList<C>,
    )
        requires
            pre.wf(),
            post.components.wf(),
            tag1 != tag2,
            post.components@ == pre.components@.insert(tag1, cl1).insert(tag2, cl2),
            post.resources == pre.resources,
            post.entity_gen == pre.entity_gen,
            post.next_resource_id == pre.next_resource_id,
        ensures
            post.components_view() == pre.components_view().insert(tag1, cl1@).insert(tag2, cl2@),
            cl1.wf() && cl2.wf() ==> post.wf(),
            post.resources_view() == pre.resources_view(),
            post.gen() == pre.gen(),
            post.next_resource() == pre.next_resource(),
    {
        assert(post.components_view() =~= pre.components_view().insert(tag1, cl1@).insert(
            tag2,
            cl2@,
        ));
        if cl1.wf() && cl2.wf() {
            assert forall|t: u64| #[trigger] post.components@.contains_key(t)
                implies post.components@[t].wf() by {
                if t != tag1 && t != tag2 {
                    assert(pre.components@.contains_key(t));
                }
            }
        }
    }

    /// Simultaneous mutable borrows (write guards) of the stores of two
    /// *distinct* registered tags, so unrelated component types can be
    /// written inside one tenancy of the world. Equal tags or an
    /// unregistered tag fail the call rather than aliasing one store.
    pub fn component_lists_mut(&mut self, tag1: u64, tag2: u64) -> (r: Option<
        (&mut ComponentList<C>, &mut ComponentList<C>),
    >)
        requires
            old(self).wf(),
        ensures
            r.is_some() == (tag1 != tag2 && old(self).components_view().contains_key(tag1)
                && old(self).components_view().contains_key(tag2)),
            r.is_some() ==> {
                &&& (*r.unwrap().0)@ == old(self).components_view()[tag1]
                &&& (*r.unwrap().1)@ == old(self).components_view()[tag2]
                &&& (*r.unwrap().0).wf()
                &&& (*r.unwrap().1).wf()
                &&& final(self).components_view() == old(self).components_view().insert(
                    tag1,
                    (*final(r.unwrap().0))@,
                ).insert(tag2, (*final(r.unwrap().1))@)
                &&& ((*final(r.unwrap().0)).wf() && (*final(r.unwrap().1)).wf()
                    ==> final(self).wf())
            },
            r.is_none() ==> {
                &&& final(self).components_view() == old(self).components_view()
                &&& final(self).wf()
            },
            final(self).resources_view() == old(self).resources_view(),
            final(self).gen() == old(self).gen(),
            final(self).next_resource() == old(self).next_resource(),
    {
        let ghost pre = *old(self);
        match self.components.get_pair_mut(tag1, tag2) {
            Some((a, b)) => {
                proof {
                    Self::lemma_cv_update2(
                        after_borrow(*self),
                        pre,
                        tag1,
                        *final(a),
                        tag2,
                        *final(b),
                    );
                }
                Some((a, b))
            },
            None => None,
        }
    }

    /// Creates the singleton resource for `tag`; creating a second one
    /// under the same tag is a reported logic error that changes nothing.
    pub fn create_resource(&mut self, tag: u64, resource: R) -> (r: Result<ResourceId, WorldError>)
        requires
            old(self).wf(),
            old(self).next_resource() < u64::MAX,
        ensures
            final(self).wf(),
            old(self).resources_view().contains_key(tag) ==> {
                &&& r == Err::<ResourceId, WorldError>(WorldError::DuplicateResource)
                &&& final(self).resources_view() == old(self).resources_view()
                &&& final(self).next_resource() == old(self).next_resource()
            },
            !old(self).resources_view().contains_key(tag) ==> {
                &&& r == Ok::<ResourceId, WorldError>(ResourceId(old(self).next_resource()))
                &&& final(self).resources_view() == old(self).resources_view().insert(
                    tag,
                    resource,
                )
                &&& final(self).next_resource() == old(self).next_resource() + 1
            },
            final(self).components_view() == old(self).components_view(),
            final(self).gen() == old(self).gen(),
    {
        if self.resources.contains(tag) {
            Err(WorldError::DuplicateResource)
        } else {
            let id = self.next_resource_id;
            self.next_resource_id = id + 1;
            self.resources.insert(tag, resource);
            Ok(ResourceId(id))
        }
    }

    /// A shared borrow (read guard) of the resource created under `tag`.
    pub fn resource_ref(&self, tag: u64) -> (r: Option<&R>)
        requires
            self.wf(),
        ensures
            match r {
                Some(v) => self.resources_view().contains_key(tag) && *v
                    == self.resources_view()[tag],
                None => !self.resources_view().contains_key(tag),
            },
    {
        self.resources.get(tag)
    }

    /// A mutable borrow (write guard) of the resource created under `tag`;
    /// exclusive while it lives, released when it ends.
    pub fn resource_mut(&mut self, tag: u64) -> (r: Option<&mut R>)
        requires
            old(self).wf(),
        ensures
            final(self).wf(),
            r.is_some() == old(self).resources_view().contains_key(tag),
            r.is_some() ==> {
                &&& *r.unwrap() == old(self).resources_view()[tag]
                &&& final(self).resources_view() == old(self).resources_view().insert(
                    tag,
                    *final(r.unwrap()),
                )
            },
            r.is_none() ==> final(self).resources_view() == old(self).resources_view(),
            final(self).components_view() == old(self).components_view(),
            final(self).gen() == old(self).gen(),
            final(self).next_resource() == old(self).next_resource(),
    {
        self.resources.get_mut(tag)
    }
}

} // verus!
