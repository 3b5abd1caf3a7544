//! The bookkeeping record of a collider: what it was built from and who owns
//! it. The engine's own collider is built from this record.

use crate::storage::StoreKey;
use crate::utils::UserData;
use ncollide3d::pipeline::object::CollisionGroups;
use vstd::prelude::*;

verus! {

/// A part of a body: the body's key and the index of the part. Rigid bodies
/// and areas have the single part zero.
#[derive(Clone, Copy, Debug, PartialEq, Eq, Structural, Hash)]
pub struct BodyPartHandle(pub StoreKey, pub usize);

/// The density of a collider: none, or one unit.
#[derive(Clone, Copy, Debug, PartialEq, Eq, Structural, Hash)]
pub enum Density {
    Zero,
    One,
}

/// What a collider is built from.
#[derive(Clone, Copy, Debug)]
pub struct ColliderDesc {
    /// The shape that gives the geometry.
    pub shape: Option<StoreKey>,
    /// The collision filter.
    pub collision_groups: CollisionGroups,
    /// The density, by which the collider adds to its body's mass.
    pub density: Density,
    /// A sensor detects proximity and takes no part in the dynamics.
    pub sensor: bool,
    /// Whether the collider carries the material of its body.
    pub body_material: bool,
}

/// A collider: always owned by exactly one body part.
#[derive(Clone, Copy, Debug)]
pub struct Collider {
    pub body_part: BodyPartHandle,
    pub shape: Option<StoreKey>,
    pub collision_groups: CollisionGroups,
    pub density: Density,
    pub sensor: bool,
    pub body_material: bool,
    pub user_data: Option<UserData>,
}

impl ColliderDesc {
    /// The collider that this description gives on `body_part`; nothing is
    /// recorded about its owner yet.
    pub open spec fn built(self, body_part: BodyPartHandle) -> Collider {
        Collider {
            body_part,
            shape: self.shape,
            collision_groups: self.collision_groups,
            density: self.density,
            sensor: self.sensor,
            body_material: self.body_material,
            user_data: None,
        }
    }

    /// Builds the collider on `body_part`.
    pub fn build(&self, body_part: BodyPartHandle) -> (collider: Collider)
        ensures
            collider == self.built(body_part),
    {
        Collider {
            body_part,
            shape: self.shape,
            collision_groups: self.collision_groups,
            density: self.density,
            sensor: self.sensor,
            body_material: self.body_material,
            user_data: None,
        }
    }

    /// Sets the density.
    pub fn set_density(&mut self, density: Density)
        ensures
            *final(self) == (ColliderDesc { density, ..*old(self) }),
    {
        self.density = density;
    }
}

impl Collider {
    /// Records the owner.
    pub fn set_user_data(&mut self, user_data: Option<UserData>)
        ensures
            *final(self) == (Collider { user_data, ..*old(self) }),
    {
        self.user_data = user_data;
    }

    /// The recorded owner.
    pub fn user_data(&self) -> (user_data: Option<&UserData>)
        ensures
            user_data is Some == self.user_data is Some,
            user_data is Some ==> *user_data->0 == self.user_data->0,
    {
        self.user_data.as_ref()
    }

    /// Replaces the collision filter.
    pub fn set_collision_groups(&mut self, collision_groups: CollisionGroups)
        ensures
            *final(self) == (Collider { collision_groups, ..*old(self) }),
    {
        self.collision_groups = collision_groups;
    }
}

} // verus!
