//! The bookkeeping record of a force generator.

use crate::storage::StoreKey;
use vstd::prelude::*;

verus! {

/// A force generator of a world. The generator itself stays with the engine.
#[derive(Clone, Copy, Debug)]
pub struct ForceGenerator {
    pub self_key: Option<StoreKey>,
    pub world_key: StoreKey,
}

impl ForceGenerator {
    /// Creates the record of a force generator of the world `world_key`.
    pub fn new(world_key: StoreKey) -> (generator: ForceGenerator)
        ensures
            generator.self_key is None,
            generator.world_key == world_key,
    {
        ForceGenerator { self_key: None, world_key }
    }
}

} // verus!
