//! Object bookkeeping for a rigid-body physics backend: generational slot
//! tables, the lifecycle rules that tie bodies, shapes, colliders and joints
//! together, deferred destruction, and the translation of proximity
//! transitions into per-area overlap events.
//!
//! The simulation engine itself is not part of this library. The library
//! keeps what the engine is to be told in tables and queues of plain values:
//! the engine's side builds its colliders from the collider records, learns
//! of insertions and removals from the event queues, and hands the proximity
//! transitions of each step back.

use crate::servers_storage::ServersStorage;
use crate::servers_storage::World;
use vstd::prelude::*;

pub mod area_physics_server;
pub mod attachment;
pub mod body;
pub mod body_storage;
pub mod collider;
pub mod collider_storage;
pub mod consistency;
pub mod conversors;
pub mod force_generator;
pub mod force_generator_storage;
pub mod joint;
pub mod joint_physics_server;
pub mod joint_storage;
pub mod objects;
pub mod rigid_body_physics_server;
pub mod servers_storage;
pub mod shape;
pub mod shape_physics_server;
pub mod storage;
pub mod utils;
pub mod watch_list;
pub mod world_physics_server;

verus! {

/// The backend: the maker of physics worlds.
#[derive(Clone, Copy, Debug)]
pub struct NPhysicsBackend;

impl NPhysicsBackend {
    /// An empty world, which the servers work on.
    pub fn create_world() -> (storages: ServersStorage)
        ensures
            storages.wf(),
            storages@ == World::empty(),
            storages@.consistent(),
            forall|n: nat| n <= usize::MAX ==> #[trigger] storages.spare(n),
    {
        ServersStorage::new()
    }
}

} // verus!
