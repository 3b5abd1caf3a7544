use amethyst_nphysics::conversors::area_tag_to_store_key;
use amethyst_nphysics::conversors::collision_group_conversor::from_nphysics;
use amethyst_nphysics::conversors::collision_group_conversor::to_nphysics;
use amethyst_nphysics::conversors::joint_tag_to_store_key;
use amethyst_nphysics::conversors::rigid_tag_to_store_key;
use amethyst_nphysics::conversors::shape_tag_to_store_key;
use amethyst_nphysics::conversors::store_key_to_area_tag;
use amethyst_nphysics::conversors::store_key_to_joint_tag;
use amethyst_nphysics::conversors::store_key_to_rigid_tag;
use amethyst_nphysics::conversors::store_key_to_shape_tag;
use amethyst_nphysics::objects::CollisionGroup;
use amethyst_nphysics::objects::PhysicsAreaTag;
use amethyst_nphysics::objects::PhysicsJointTag;
use amethyst_nphysics::objects::PhysicsRigidBodyTag;
use amethyst_nphysics::objects::PhysicsShapeTag;
use amethyst_nphysics::storage::StoreKey;

#[test]
fn test_conversors_physics_rigid_body_tag() {
    let tag = PhysicsRigidBodyTag::UsizeU64(1, 10);
    let key = rigid_tag_to_store_key(tag);
    assert_eq!(key, StoreKey::from_raw_parts(1, 10));
    assert_eq!(tag, store_key_to_rigid_tag(key));
}

#[test]
fn test_conversors_physics_area_tag() {
    let tag = PhysicsAreaTag::UsizeU64(1, 10);
    let key = area_tag_to_store_key(tag);
    assert_eq!(key, StoreKey::from_raw_parts(1, 10));
    assert_eq!(tag, store_key_to_area_tag(key));
}

#[test]
fn test_conversors_physics_shape_tag() {
    let tag = PhysicsShapeTag::UsizeU64(1, 10);
    let key = shape_tag_to_store_key(tag);
    assert_eq!(key, StoreKey::from_raw_parts(1, 10));
    assert_eq!(tag, store_key_to_shape_tag(key));
}

#[test]
fn test_conversors_physics_joint_tag() {
    let tag = PhysicsJointTag::UsizeU64(1, 10);
    let key = joint_tag_to_store_key(tag);
    assert_eq!(key, StoreKey::from_raw_parts(1, 10));
    assert_eq!(tag, store_key_to_joint_tag(key));
}

#[test]
fn key_to_tag_to_key_is_the_identity() {
    let key = StoreKey::from_raw_parts(usize::MAX, u64::MAX);
    assert_eq!(rigid_tag_to_store_key(store_key_to_rigid_tag(key)), key);
    assert_eq!(area_tag_to_store_key(store_key_to_area_tag(key)), key);
    assert_eq!(shape_tag_to_store_key(store_key_to_shape_tag(key)), key);
    assert_eq!(joint_tag_to_store_key(store_key_to_joint_tag(key)), key);
}

fn ids(groups: &[CollisionGroup]) -> Vec<u8> {
    groups.iter().map(|g| g.get()).collect()
}

#[test]
fn collision_groups_reach_the_engine_filter() {
    let belong_to = vec![CollisionGroup::new(3), CollisionGroup::new(1), CollisionGroup::new(3)];
    let collide_with = vec![CollisionGroup::new(4), CollisionGroup::new(3)];
    let groups = to_nphysics(&belong_to, &collide_with);
    for g in 0..30usize {
        assert_eq!(groups.is_member_of(g), g == 1 || g == 3, "membership of {}", g);
        assert_eq!(groups.is_group_whitelisted(g), g == 3 || g == 4, "whitelist of {}", g);
        // What the object belongs to but does not collide with is blacklisted.
        assert_eq!(groups.is_group_blacklisted(g), g == 1, "blacklist of {}", g);
    }
}

#[test]
fn engine_filter_reads_back_in_increasing_order() {
    let belong_to = vec![CollisionGroup::new(28), CollisionGroup::new(0), CollisionGroup::new(7)];
    let collide_with = vec![CollisionGroup::new(2)];
    let groups = to_nphysics(&belong_to, &collide_with);
    let (member, white) = from_nphysics(&groups);
    assert_eq!(ids(&member), vec![0, 7, 28]);
    assert_eq!(ids(&white), vec![2]);
}

#[test]
fn empty_group_lists_give_an_empty_filter() {
    let groups = to_nphysics(&[], &[]);
    let (member, white) = from_nphysics(&groups);
    assert!(member.is_empty());
    assert!(white.is_empty());
    for g in 0..30usize {
        assert!(!groups.is_group_blacklisted(g));
    }
}

#[test]
fn default_collision_group_is_one() {
    assert_eq!(CollisionGroup::default().get(), 1);
    assert_eq!(CollisionGroup::new(28).get(), 28);
}
