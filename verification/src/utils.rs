//! What a collider records about its owner, and the contacts gathered for a
//! collider.

use crate::objects::ContactEvent;
use crate::storage::StoreKey;
use amethyst_core::ecs::Entity;
use vstd::prelude::*;

verus! {

/// The kind of object that owns a collider.
#[derive(Clone, Copy, Debug, PartialEq, Eq, Structural, Hash)]
pub enum ObjectType {
    RigidBody,
    Area,
}

/// The owner of a collider, recorded on the collider when it is built: the
/// owner's kind, its key, and the entity recorded for it.
#[derive(Clone, Copy, Debug)]
pub struct UserData {
    pub object_type: ObjectType,
    pub store_key: StoreKey,
    pub entity: Option<Entity>,
}

impl UserData {
    /// Records an owner.
    pub fn new(object_type: ObjectType, store_key: StoreKey, entity: Option<Entity>) -> (data:
        UserData)
        ensures
            data == (UserData { object_type, store_key, entity }),
    {
        UserData { object_type, store_key, entity }
    }

    /// The recorded kind.
    pub fn object_type(&self) -> (kind: ObjectType)
        ensures
            kind == self.object_type,
    {
        self.object_type
    }

    /// The recorded key.
    pub fn store_key(&self) -> (key: StoreKey)
        ensures
            key == self.store_key,
    {
        self.store_key
    }

    /// The recorded entity.
    pub fn entity(&self) -> (entity: Option<Entity>)
        ensures
            entity == self.entity,
    {
        self.entity
    }
}

/// The contacts gathered for one collider.
#[derive(Debug)]
pub struct ContactData {
    pub collider_handle: StoreKey,
    pub contacts: Vec<ContactEvent>,
}

} // verus!
