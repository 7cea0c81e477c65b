//! A verified entity-component store.
//!
//! Mutable application state is organised as *entities* (opaque identities)
//! carrying *components* (plain data records filed under a per-type tag).
//! The [`world::World`] owns one storage map per registered component tag,
//! a parallel singleton *resource* table for global state, and the id
//! generator; it exposes entity lifecycle, component upsert/removal,
//! scoped read/write access to one tag's storage, and snapshot queries
//! composable by set operations.
//!
//! Shared access from several systems goes through [`locked::LockedWorld`],
//! a reader/writer lock around the world whose invariant (well-formedness
//! of the whole store) is checked at every release.

pub mod entity;
pub mod idmap;
pub mod laws;
pub mod locked;
pub mod query;
pub mod store;
pub mod world;
