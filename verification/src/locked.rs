//! Shared access to a world from several systems.
//!
//! A [`LockedWorld`] owns the world behind a verified reader/writer lock
//! whose invariant is the world's well-formedness: every writer must hand
//! back a well-formed world, so every reader finds one. Acquiring a guard
//! is the sole blocking operation of the store; a guard is released by an
//! explicit call, as the deadlock discipline asks, and the lock does not
//! detect a system that never releases.

use vstd::prelude::*;
use vstd::rwlock::ReadHandle;
use vstd::rwlock::RwLock;
use vstd::rwlock::WriteHandle;

use crate::world::World;

verus! {

/// The lock invariant: the guarded world is well-formed.
pub open spec fn world_inv<C, R>() -> spec_fn(World<C, R>) -> bool {
    |w: World<C, R>| w.wf()
}

/// A world owned by a reader/writer lock.
#[verifier::reject_recursive_types(C)]
#[verifier::reject_recursive_types(R)]
pub struct LockedWorld<C, R> {
    lock: RwLock<World<C, R>, spec_fn(World<C, R>) -> bool>,
}

/// Exclusive (write) tenancy of the locked world.
#[verifier::reject_recursive_types(C)]
#[verifier::reject_recursive_types(R)]
pub struct WriterWorldGuard<'a, C, R> {
    world: World<C, R>,
    handle: WriteHandle<'a, World<C, R>, spec_fn(World<C, R>) -> bool>,
}

/// Shared (read) tenancy of the locked world; many may coexist.
#[verifier::reject_recursive_types(C)]
#[verifier::reject_recursive_types(R)]
pub struct ReaderWorldGuard<'a, C, R> {
    handle: ReadHandle<'a, World<C, R>, spec_fn(World<C, R>) -> bool>,
}

/// Tenancy that reads the world now and may upgrade to write it.
///
/// The underlying verified lock has no distinct upgradable mode, so this
/// guard already holds the lock exclusively and the upgrade itself cannot
/// block; what it preserves is the discipline that nothing is written
/// before [`UpgradableReaderWorldGuard::upgrade`].
#[verifier::reject_recursive_types(C)]
#[verifier::reject_recursive_types(R)]
pub struct UpgradableReaderWorldGuard<'a, C, R> {
    world: World<C, R>,
    handle: WriteHandle<'a, World<C, R>, spec_fn(World<C, R>) -> bool>,
}

impl<C, R> LockedWorld<C, R> {
    /// Well-formed: the lock carries the well-formedness invariant.
    pub closed spec fn wf(self) -> bool {
        self.lock.pred() == world_inv::<C, R>()
    }

    /// A lock around a fresh, empty world.
    pub fn new() -> (r: LockedWorld<C, R>)
        ensures
            r.wf(),
    {
        LockedWorld { lock: RwLock::new(World::new(), Ghost(world_inv())) }
    }

    /// Blocks until no writer holds the lock, then returns shared tenancy.
    pub fn lock_shared(&self) -> (g: ReaderWorldGuard<'_, C, R>)
        requires
            self.wf(),
        ensures
            g.wf(),
            g.world_view().wf(),
    {
        ReaderWorldGuard { handle: self.lock.acquire_read() }
    }

    /// Blocks until no reader or writer holds the lock, then returns
    /// exclusive tenancy.
    pub fn lock_exclusive(&self) -> (g: WriterWorldGuard<'_, C, R>)
        requires
            self.wf(),
        ensures
            g.wf(),
            g.world_view().wf(),
    {
        let (world, handle) = self.lock.acquire_write();
        WriterWorldGuard { world, handle }
    }

    /// Acquires the lock for reading with the right to upgrade.
    pub fn lock_upgradable(&self) -> (g: UpgradableReaderWorldGuard<'_, C, R>)
        requires
            self.wf(),
        ensures
            g.wf(),
            g.world_view().wf(),
    {
        let (world, handle) = self.lock.acquire_write();
        UpgradableReaderWorldGuard { world, handle }
    }
}

impl<'a, C, R> ReaderWorldGuard<'a, C, R> {
    /// The world this guard observes, fixed for the guard's lifetime.
    pub closed spec fn world_view(self) -> World<C, R> {
        self.handle.view()
    }

    /// Well-formed: the observed world is.
    pub closed spec fn wf(self) -> bool {
        self.world_view().wf()
    }

    /// Read access to the guarded world.
    pub fn world(&self) -> (r: &World<C, R>)
        requires
            self.wf(),
        ensures
            *r == self.world_view(),
            r.wf(),
    {
        self.handle.borrow()
    }

    /// Releases the shared tenancy.
    pub fn release(self) {
        self.handle.release_read()
    }
}

impl<'a, C, R> WriterWorldGuard<'a, C, R> {
    /// The world this guard holds.
    pub closed spec fn world_view(self) -> World<C, R> {
        self.world
    }

    /// Well-formed: releasing through this guard restores the lock
    /// invariant.
    pub closed spec fn wf(self) -> bool {
        self.handle.rwlock().pred() == world_inv::<C, R>()
    }

    /// Read access to the guarded world.
    pub fn world(&self) -> (r: &World<C, R>)
        ensures
            *r == self.world_view(),
    {
        &self.world
    }

    /// Write access to the guarded world.
    pub fn world_mut(&mut self) -> (r: &mut World<C, R>)
        ensures
            *r == old(self).world_view(),
            final(self).world_view() == *final(r),
            final(self).wf() == old(self).wf(),
    {
        &mut self.world
    }

    /// Hands the world back and releases the lock; the world must be
    /// well-formed again, as the lock invariant demands.
    pub fn release(self)
        requires
            self.wf(),
            self.world_view().wf(),
    {
        let WriterWorldGuard { world, handle } = self;
        handle.release_write(world)
    }
}

impl<'a, C, R> UpgradableReaderWorldGuard<'a, C, R> {
    /// The world this guard observes.
    pub closed spec fn world_view(self) -> World<C, R> {
        self.world
    }

    /// Well-formed: an upgrade yields a well-formed writer guard.
    pub closed spec fn wf(self) -> bool {
        self.handle.rwlock().pred() == world_inv::<C, R>()
    }

    /// Read access to the guarded world.
    pub fn world(&self) -> (r: &World<C, R>)
        ensures
            *r == self.world_view(),
    {
        &self.world
    }

    /// Turns the read tenancy into write tenancy over the same world.
    pub fn upgrade(self) -> (g: WriterWorldGuard<'a, C, R>)
        ensures
            g.world_view() == self.world_view(),
            g.wf() == self.wf(),
    {
        let UpgradableReaderWorldGuard { world, handle } = self;
        WriterWorldGuard { world, handle }
    }

    /// Releases the tenancy without writing.
    pub fn release(self)
        requires
            self.wf(),
            self.world_view().wf(),
    {
        let UpgradableReaderWorldGuard { world, handle } = self;
        handle.release_write(world)
    }
}

} // verus!
