//! The codec between the tags that callers hold and the keys of the stores,
//! and the conversion of collision groups.
//!
//! A tag encodes a key as its `UsizeU64` form: the slot index, then the
//! generation. The mapping is one to one in both directions; a tag of any
//! other form was not issued by this library and has no key.

use crate::objects::PhysicsAreaTag;
use crate::objects::PhysicsJointTag;
use crate::objects::PhysicsRigidBodyTag;
use crate::objects::PhysicsShapeTag;
use crate::storage::StoreKey;
use vstd::prelude::*;

pub mod collision_group_conversor;

verus! {

impl PhysicsRigidBodyTag {
    /// Whether the tag has the form that encodes a key.
    pub open spec fn is_key(self) -> bool {
        self is UsizeU64
    }

    /// The key that the tag encodes.
    pub open spec fn key(self) -> StoreKey
        recommends
            self.is_key(),
    {
        StoreKey { index: self->UsizeU64_0, generation: self->UsizeU64_1 }
    }
}

/// Decodes the key of a rigid body tag.
pub fn rigid_tag_to_store_key(tag: PhysicsRigidBodyTag) -> (key: StoreKey)
    requires
        tag.is_key(),
    ensures
        key == tag.key(),
        tag == PhysicsRigidBodyTag::UsizeU64(key.index, key.generation),
{
    match tag {
        PhysicsRigidBodyTag::UsizeU64(index, generation) => StoreKey::from_raw_parts(index, generation),
        _ => vstd::pervasive::unreached(),
    }
}

/// Encodes `key` as a rigid body tag.
pub fn store_key_to_rigid_tag(key: StoreKey) -> (tag: PhysicsRigidBodyTag)
    ensures
        tag.is_key(),
        tag.key() == key,
        tag == PhysicsRigidBodyTag::UsizeU64(key.index, key.generation),
{
    let (index, generation) = key.into_raw_parts();
    PhysicsRigidBodyTag::UsizeU64(index, generation)
}

impl PhysicsAreaTag {
    /// Whether the tag has the form that encodes a key.
    pub open spec fn is_key(self) -> bool {
        self is UsizeU64
    }

    /// The key that the tag encodes.
    pub open spec fn key(self) -> StoreKey
        recommends
            self.is_key(),
    {
        StoreKey { index: self->UsizeU64_0, generation: self->UsizeU64_1 }
    }
}

/// Decodes the key of a area tag.
pub fn area_tag_to_store_key(tag: PhysicsAreaTag) -> (key: StoreKey)
    requires
        tag.is_key(),
    ensures
        key == tag.key(),
        tag == PhysicsAreaTag::UsizeU64(key.index, key.generation),
{
    match tag {
        PhysicsAreaTag::UsizeU64(index, generation) => StoreKey::from_raw_parts(index, generation),
        _ => vstd::pervasive::unreached(),
    }
}

/// Encodes `key` as a area tag.
pub fn store_key_to_area_tag(key: StoreKey) -> (tag: PhysicsAreaTag)
    ensures
        tag.is_key(),
        tag.key() == key,
        tag == PhysicsAreaTag::UsizeU64(key.index, key.generation),
{
    let (index, generation) = key.into_raw_parts();
    PhysicsAreaTag::UsizeU64(index, generation)
}

impl PhysicsShapeTag {
    /// Whether the tag has the form that encodes a key.
    pub open spec fn is_key(self) -> bool {
        self is UsizeU64
    }

    /// The key that the tag encodes.
    pub open spec fn key(self) -> StoreKey
        recommends
            self.is_key(),
    {
        StoreKey { index: self->UsizeU64_0, generation: self->UsizeU64_1 }
    }
}

/// Decodes the key of a shape tag.
pub fn shape_tag_to_store_key(tag: PhysicsShapeTag) -> (key: StoreKey)
    requires
        tag.is_key(),
    ensures
        key == tag.key(),
        tag == PhysicsShapeTag::UsizeU64(key.index, key.generation),
{
    match tag {
        PhysicsShapeTag::UsizeU64(index, generation) => StoreKey::from_raw_parts(index, generation),
        _ => vstd::pervasive::unreached(),
    }
}

/// Encodes `key` as a shape tag.
pub fn store_key_to_shape_tag(key: StoreKey) -> (tag: PhysicsShapeTag)
    ensures
        tag.is_key(),
        tag.key() == key,
        tag == PhysicsShapeTag::UsizeU64(key.index, key.generation),
{
    let (index, generation) = key.into_raw_parts();
    PhysicsShapeTag::UsizeU64(index, generation)
}

impl PhysicsJointTag {
    /// Whether the tag has the form that encodes a key.
    pub open spec fn is_key(self) -> bool {
        self is UsizeU64
    }

    /// The key that the tag encodes.
    pub open spec fn key(self) -> StoreKey
        recommends
            self.is_key(),
    {
        StoreKey { index: self->UsizeU64_0, generation: self->UsizeU64_1 }
    }
}

/// Decodes the key of a joint tag.
pub fn joint_tag_to_store_key(tag: PhysicsJointTag) -> (key: StoreKey)
    requires
        tag.is_key(),
    ensures
        key == tag.key(),
        tag == PhysicsJointTag::UsizeU64(key.index, key.generation),
{
    match tag {
        PhysicsJointTag::UsizeU64(index, generation) => StoreKey::from_raw_parts(index, generation),
        _ => vstd::pervasive::unreached(),
    }
}

/// Encodes `key` as a joint tag.
pub fn store_key_to_joint_tag(key: StoreKey) -> (tag: PhysicsJointTag)
    ensures
        tag.is_key(),
        tag.key() == key,
        tag == PhysicsJointTag::UsizeU64(key.index, key.generation),
{
    let (index, generation) = key.into_raw_parts();
    PhysicsJointTag::UsizeU64(index, generation)
}

} // verus!
