//! Persistent entity database for dynamically spawned unit groups.
//!
//! The library keeps the authoritative record of every spawned group and
//! unit: a durable store with secondary indices, an id allocator, a planar
//! geometry engine that resolves spawn locations, lifecycle management with
//! cascading deletes, position-update batching, and a copy-on-write
//! snapshot pipeline for background saves.  The live simulation engine is
//! an external collaborator: the store only queues spawn and despawn
//! intents and consumes resolved terrain answers and event notifications.

use vstd::prelude::*;

pub mod chunk;
pub mod entity;
pub mod geom;
pub mod ids;
pub mod idset;
pub mod names;
pub mod nameidx;
pub mod save;
pub mod spawnloc;
pub mod store;
pub mod sync;
pub mod laws;
pub mod lifecycle;
pub mod linkmap;
pub mod crateidx;

verus! {

/// Every failure the entity database can report.  Validation errors are
/// raised before any store mutation; lookup errors never panic.
#[derive(Clone, Copy, Debug, PartialEq, Eq, Structural)]
pub enum DbError {
    /// The requested spawn template is not known.
    MissingTemplate,
    /// A unit type had no entry in the classification table.
    UnclassifiedUnitType,
    /// Some resolved unit position fell on water; the spawn was rejected.
    WaterPlacement,
    /// Lookup of a group id or name found nothing.
    NoSuchGroup,
    /// Lookup of a unit id or name found nothing.
    NoSuchUnit,
    /// Every unit of the group is dead.
    NoLivingUnits,
    /// A derived entity name was already taken in the store.
    NameCollision,
    /// The offset-direction nudge could not reach the required clearance.
    NoClearance,
    /// A terrain answer did not match the positions it was asked for.
    BadTerrainData,
    /// A saved document was internally inconsistent and was not loaded.
    CorruptSave,
}

} // verus!
