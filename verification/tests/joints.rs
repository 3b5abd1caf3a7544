use amethyst_nphysics::collider::BodyPartHandle;
use amethyst_nphysics::conversors::joint_tag_to_store_key;
use amethyst_nphysics::conversors::rigid_tag_to_store_key;
use amethyst_nphysics::joint_physics_server::JointError;
use amethyst_nphysics::joint_physics_server::JointNpServer;
use amethyst_nphysics::objects::BodyMode;
use amethyst_nphysics::objects::CollisionGroup;
use amethyst_nphysics::objects::JointDesc;
use amethyst_nphysics::objects::JointPosition;
use amethyst_nphysics::objects::PhysicsJointTag;
use amethyst_nphysics::objects::PhysicsRigidBodyTag;
use amethyst_nphysics::objects::RigidBodyDesc;
use amethyst_nphysics::rigid_body_physics_server::RBodyNpServer;
use amethyst_nphysics::servers_storage::ServersStorage;
use amethyst_nphysics::world_physics_server::WorldNpServer;

fn body(storages: &mut ServersStorage) -> PhysicsRigidBodyTag {
    RBodyNpServer::create(
        storages,
        &RigidBodyDesc {
            mode: BodyMode::Dynamic,
            belong_to: vec![CollisionGroup::default()],
            collide_with: vec![CollisionGroup::default()],
            lock_translation_x: false,
            lock_translation_y: false,
            lock_translation_z: false,
            lock_rotation_x: false,
            lock_rotation_y: false,
            lock_rotation_z: false,
            contacts_to_report: 0,
        },
    )
}

fn materialized(storages: &ServersStorage, joint: PhysicsJointTag) -> bool {
    storages.joints.get(joint_tag_to_store_key(joint)).is_some()
}

fn awake(storages: &ServersStorage, body: PhysicsRigidBodyTag) -> bool {
    storages.bodies.get(rigid_tag_to_store_key(body)).unwrap().activated
}

#[test]
fn joint_round_trip() {
    let mut storages = ServersStorage::new();
    let a = body(&mut storages);
    let b = body(&mut storages);
    let c = body(&mut storages);
    let joint = JointNpServer::create_joint(&mut storages, &JointDesc::Fixed, &JointPosition::Middle);
    let key = joint_tag_to_store_key(joint);
    assert!(!materialized(&storages, joint));

    // First body: half attached, no constraint, no event.
    assert_eq!(JointNpServer::insert_rigid_body(&mut storages, joint, a), Ok(()));
    assert!(!materialized(&storages, joint));
    assert_eq!(storages.joints.pop_insertion_event(), None);

    // Second body: materialized, exactly one insertion event.
    assert_eq!(JointNpServer::insert_rigid_body(&mut storages, joint, b), Ok(()));
    assert!(materialized(&storages, joint));
    let part_a = BodyPartHandle(rigid_tag_to_store_key(a), 0);
    let part_b = BodyPartHandle(rigid_tag_to_store_key(b), 0);
    assert_eq!(storages.joints.pop_insertion_event(), Some((key, part_a, part_b)));
    assert_eq!(storages.joints.pop_insertion_event(), None);
    assert_eq!(storages.joints.get(key).unwrap().anchors(), (part_a, part_b));

    // A third body is refused, and nothing changes.
    assert_eq!(
        JointNpServer::insert_rigid_body(&mut storages, joint, c),
        Err(JointError::JointFull)
    );
    assert!(materialized(&storages, joint));
    let record = storages.joints.get_joint(key).unwrap();
    assert_eq!(record.body_0, Some((rigid_tag_to_store_key(a), 0)));
    assert_eq!(record.body_1, Some((rigid_tag_to_store_key(b), 0)));
    assert_eq!(storages.joints.pop_insertion_event(), None);
    assert_eq!(storages.joints.pop_removal_event(), None);

    // Detaching a body dematerializes, exactly once, and wakes both bodies.
    assert!(!awake(&storages, a));
    assert!(!awake(&storages, b));
    assert_eq!(JointNpServer::remove_rigid_body(&mut storages, joint, b), Ok(()));
    assert!(!materialized(&storages, joint));
    assert_eq!(storages.joints.pop_removal_event(), Some((key, part_a, part_b)));
    assert_eq!(storages.joints.pop_removal_event(), None);
    assert!(awake(&storages, a));
    assert!(awake(&storages, b));
    assert!(!awake(&storages, c));
    let record = storages.joints.get_joint(key).unwrap();
    assert_eq!(record.body_0, Some((rigid_tag_to_store_key(a), 0)));
    assert_eq!(record.body_1, None);

    // Detaching the other body leaves the joint bare, with no further event.
    assert_eq!(JointNpServer::remove_rigid_body(&mut storages, joint, a), Ok(()));
    let record = storages.joints.get_joint(key).unwrap();
    assert_eq!(record.body_0, None);
    assert_eq!(record.body_1, None);
    assert_eq!(storages.joints.pop_removal_event(), None);
    assert_eq!(storages.joints.pop_insertion_event(), None);
}

#[test]
fn freed_slot_of_a_joint_is_filled_first() {
    let mut storages = ServersStorage::new();
    let a = body(&mut storages);
    let b = body(&mut storages);
    let c = body(&mut storages);
    let joint = JointNpServer::create_joint(&mut storages, &JointDesc::Fixed, &JointPosition::Exact);
    let key = joint_tag_to_store_key(joint);
    JointNpServer::insert_rigid_body(&mut storages, joint, a).unwrap();
    JointNpServer::insert_rigid_body(&mut storages, joint, b).unwrap();
    JointNpServer::remove_rigid_body(&mut storages, joint, a).unwrap();
    JointNpServer::insert_rigid_body(&mut storages, joint, c).unwrap();
    let record = storages.joints.get_joint(key).unwrap();
    assert_eq!(record.body_0, Some((rigid_tag_to_store_key(c), 0)));
    assert_eq!(record.body_1, Some((rigid_tag_to_store_key(b), 0)));
    assert!(materialized(&storages, joint));
    // Materialized twice, dematerialized once.
    let mut inserted = 0;
    while storages.joints.pop_insertion_event().is_some() {
        inserted += 1;
    }
    let mut removed = 0;
    while storages.joints.pop_removal_event().is_some() {
        removed += 1;
    }
    assert_eq!((inserted, removed), (2, 1));
}

#[test]
fn joint_errors() {
    let mut storages = ServersStorage::new();
    let a = body(&mut storages);
    let b = body(&mut storages);
    let missing = PhysicsJointTag::UsizeU64(9, 9);
    assert_eq!(
        JointNpServer::insert_rigid_body(&mut storages, missing, a),
        Err(JointError::JointNotFound)
    );
    // Detaching from a joint that is gone is not an error.
    assert_eq!(JointNpServer::remove_rigid_body(&mut storages, missing, a), Ok(()));
    let joint = JointNpServer::create_joint(&mut storages, &JointDesc::Fixed, &JointPosition::Middle);
    JointNpServer::insert_rigid_body(&mut storages, joint, a).unwrap();
    assert_eq!(
        JointNpServer::remove_rigid_body(&mut storages, joint, b),
        Err(JointError::BodyNotInJoint)
    );
    // The body of the joint is woken all the same.
    assert!(awake(&storages, a));
    assert!(!awake(&storages, b));
}

#[test]
fn joint_with_a_body_that_does_not_exist_gets_no_constraint() {
    let mut storages = ServersStorage::new();
    let a = body(&mut storages);
    let ghost = PhysicsRigidBodyTag::UsizeU64(30, 2);
    let joint = JointNpServer::create_joint(&mut storages, &JointDesc::Fixed, &JointPosition::Middle);
    assert_eq!(JointNpServer::insert_rigid_body(&mut storages, joint, a), Ok(()));
    assert_eq!(JointNpServer::insert_rigid_body(&mut storages, joint, ghost), Ok(()));
    assert!(!materialized(&storages, joint));
    assert_eq!(storages.joints.pop_insertion_event(), None);
}

#[test]
fn collected_joint_wakes_its_bodies_and_tells_the_engine() {
    let mut storages = ServersStorage::new();
    let a = body(&mut storages);
    let b = body(&mut storages);
    let joint = JointNpServer::create_joint(&mut storages, &JointDesc::Fixed, &JointPosition::Middle);
    let key = joint_tag_to_store_key(joint);
    JointNpServer::insert_rigid_body(&mut storages, joint, a).unwrap();
    JointNpServer::insert_rigid_body(&mut storages, joint, b).unwrap();
    joint.request_resource_removal(&mut storages.gc);
    assert!(storages.joints.contains(key));
    WorldNpServer::garbage_collect(&mut storages);
    assert!(!storages.joints.contains(key));
    assert!(storages.gc.joints.is_empty());
    assert!(awake(&storages, a));
    assert!(awake(&storages, b));
    let part_a = BodyPartHandle(rigid_tag_to_store_key(a), 0);
    let part_b = BodyPartHandle(rigid_tag_to_store_key(b), 0);
    assert_eq!(storages.joints.pop_removal_event(), Some((key, part_a, part_b)));
    assert_eq!(storages.joints.pop_removal_event(), None);
}
