use amethyst_nphysics::body::Body;
use amethyst_nphysics::body::NpRigidBody;
use amethyst_nphysics::body_storage::BodyStorage;
use amethyst_nphysics::collider::BodyPartHandle;
use amethyst_nphysics::collider::Collider;
use amethyst_nphysics::collider::ColliderDesc;
use amethyst_nphysics::collider::Density;
use amethyst_nphysics::collider_storage::ColliderStorage;
use amethyst_nphysics::conversors::collision_group_conversor::to_nphysics;
use amethyst_nphysics::force_generator::ForceGenerator;
use amethyst_nphysics::force_generator_storage::ForceGeneratorStorage;
use amethyst_nphysics::joint::Joint;
use amethyst_nphysics::joint::NpJointConstraint;
use amethyst_nphysics::joint_storage::JointStorage;
use amethyst_nphysics::objects::AxisLocks;
use amethyst_nphysics::objects::BodyMode;
use amethyst_nphysics::objects::JointDesc;
use amethyst_nphysics::objects::JointPosition;
use amethyst_nphysics::objects::PhysicsAreaTag;
use amethyst_nphysics::objects::PhysicsGarbageCollector;
use amethyst_nphysics::objects::PhysicsJointTag;
use amethyst_nphysics::objects::PhysicsRigidBodyTag;
use amethyst_nphysics::objects::PhysicsShapeTag;
use amethyst_nphysics::objects::ShapeDesc;
use amethyst_nphysics::rigid_body_physics_server::RBodyNpServer;
use amethyst_nphysics::servers_storage::ServersStorage;
use amethyst_nphysics::shape::RigidShape;
use amethyst_nphysics::storage::Storage;
use amethyst_nphysics::storage::StoreKey;
use amethyst_nphysics::utils::ObjectType;
use amethyst_nphysics::utils::UserData;
use amethyst_nphysics::watch_list::find_watched;

fn engine_body() -> NpRigidBody {
    NpRigidBody {
        status: BodyMode::Dynamic,
        kinematic_translations: AxisLocks::free(),
        kinematic_rotations: AxisLocks::free(),
        activated: false,
    }
}

fn collider(body: StoreKey) -> Collider {
    ColliderDesc {
        shape: None,
        collision_groups: to_nphysics(&[], &[]),
        density: Density::One,
        sensor: false,
        body_material: true,
    }
    .build(BodyPartHandle(body, 0))
}

#[test]
fn default_storage_is_empty() {
    let storage: Storage<u8> = Storage::default();
    assert_eq!(storage.len(), 0);
    assert_eq!(storage.removals(), 0);
    assert!(storage.iter().is_empty());
}

#[test]
fn body_table_queues_a_removal_event_for_every_drop() {
    let mut bodies = BodyStorage::new();
    let key = bodies.insert_body(Body::new_rigid_body(engine_body(), to_nphysics(&[], &[]), 0));
    assert!(bodies.contains(key));
    assert_eq!(bodies.len(), 1);
    assert_eq!(bodies.get(key), Some(&engine_body()));
    bodies.drop_body(key);
    // Dropping a key that is gone queues an event all the same.
    bodies.drop_body(key);
    assert!(!bodies.contains(key));
    assert!(bodies.get_body(key).is_none());
    assert_eq!(bodies.removals(), 1);
    assert_eq!(bodies.pop_removal_event(), Some(key));
    assert_eq!(bodies.pop_removal_event(), Some(key));
    assert_eq!(bodies.pop_removal_event(), None);
}

#[test]
fn wake_requests_are_taken_once() {
    let mut bodies = BodyStorage::new();
    let a = bodies.insert_body(Body::new_rigid_body(engine_body(), to_nphysics(&[], &[]), 0));
    let b = bodies.insert_body(Body::new_area(engine_body(), to_nphysics(&[], &[])));
    let c = bodies.insert_body(Body::new_rigid_body(engine_body(), to_nphysics(&[], &[]), 0));
    RBodyNpServer::active_body(c, &mut bodies);
    RBodyNpServer::active_body(a, &mut bodies);
    RBodyNpServer::active_body(StoreKey::from_raw_parts(40, 0), &mut bodies);
    assert!(bodies.get(a).unwrap().activated);
    assert!(!bodies.get(b).unwrap().activated);
    let mut expected = vec![a, c];
    expected.sort_by_key(|k| k.index);
    assert_eq!(bodies.take_activations(), expected);
    assert!(!bodies.get(a).unwrap().activated);
    assert!(!bodies.get(c).unwrap().activated);
    assert!(bodies.take_activations().is_empty());
    assert_eq!(bodies.len(), 3);
}

#[test]
fn body_activate_sets_the_request() {
    let mut body = Body::new_area(engine_body(), to_nphysics(&[], &[]));
    assert!(!body.rigid_body().unwrap().activated);
    body.activate();
    assert!(body.rigid_body().unwrap().activated);
    body.rigid_body_mut().unwrap().status = BodyMode::Static;
    assert_eq!(body.np_body.status, BodyMode::Static);
}

#[test]
fn collider_table_queues_insertions_and_removals() {
    let mut colliders = ColliderStorage::new();
    let owner = StoreKey::from_raw_parts(3, 1);
    let a = colliders.insert_collider(collider(owner));
    let b = colliders.insert_collider(collider(owner));
    assert_eq!(colliders.len(), 2);
    assert_eq!(colliders.iter().len(), 2);
    assert_eq!(colliders.collision_object(a).unwrap().body_part, BodyPartHandle(owner, 0));
    assert!(colliders.get_collider(a).unwrap().user_data().is_none());
    colliders
        .get_collider_mut(a)
        .unwrap()
        .set_user_data(Some(UserData::new(ObjectType::Area, owner, None)));
    assert_eq!(
        colliders.get_collider(a).unwrap().user_data().unwrap().object_type(),
        ObjectType::Area
    );
    assert_eq!(colliders.pop_insertion_event(), Some(b));
    assert_eq!(colliders.pop_insertion_event(), Some(a));
    assert_eq!(colliders.pop_insertion_event(), None);
    assert!(colliders.remove(a));
    assert!(!colliders.remove(a));
    colliders.drop_collider(a);
    colliders.drop_collider(b);
    assert_eq!(colliders.removals(), 2);
    assert_eq!(colliders.pop_removal_event(), Some(b));
    assert_eq!(colliders.pop_removal_event(), Some(a));
    assert_eq!(colliders.pop_removal_event(), None);
}

#[test]
fn joint_table_tells_of_constraints_only() {
    let mut joints = JointStorage::new();
    let bare = joints.insert(Joint::new(JointDesc::Fixed, JointPosition::Middle));
    assert_eq!(joints.pop_insertion_event(), None);
    joints.notify_joint_created(bare);
    joints.notify_joint_removed(bare);
    assert_eq!(joints.pop_insertion_event(), None);
    assert_eq!(joints.pop_removal_event(), None);
    assert!(joints.get(bare).is_none());

    let part_0 = BodyPartHandle(StoreKey::from_raw_parts(0, 0), 0);
    let part_1 = BodyPartHandle(StoreKey::from_raw_parts(1, 0), 0);
    let mut made = Joint::new(JointDesc::Fixed, JointPosition::Exact);
    made.body_0 = Some((part_0.0, 0));
    made.body_1 = Some((part_1.0, 0));
    made.np_joint = Some(NpJointConstraint { anchor_0: part_0, anchor_1: part_1 });
    let key = joints.insert(made);
    assert_eq!(joints.pop_insertion_event(), Some((key, part_0, part_1)));
    assert_eq!(joints.len(), 2);
    joints.notify_joint_removed(key);
    assert_eq!(joints.pop_removal_event(), Some((key, part_0, part_1)));
    joints.drop_joint(key);
    assert_eq!(joints.pop_removal_event(), Some((key, part_0, part_1)));
    // Removal on the engine's behalf queues nothing.
    joints.remove(bare);
    assert_eq!(joints.pop_removal_event(), None);
    assert_eq!(joints.len(), 0);
    assert_eq!(joints.removals(), 2);
    assert!(joints.iter().is_empty());
}

#[test]
fn force_generator_table() {
    let mut generators = ForceGeneratorStorage::new();
    let world = StoreKey::from_raw_parts(0, 0);
    let key = generators.insert(ForceGenerator::new(world));
    assert!(generators.contains(key));
    assert_eq!(generators.len(), 1);
    assert_eq!(generators.get_force_generator(key).unwrap().world_key, world);
    assert_eq!(generators.get_force_generator(key).unwrap().self_key, None);
    generators.drop(key);
    assert!(!generators.contains(key));
    assert!(generators.get_force_generator(key).is_none());
    assert_eq!(generators.removals(), 1);
}

#[test]
fn shape_registers_and_unregisters_bodies() {
    let mut shape = RigidShape::new(&ShapeDesc::Capsule);
    let a = StoreKey::from_raw_parts(1, 0);
    let b = StoreKey::from_raw_parts(2, 0);
    assert!(!shape.is_concave());
    assert_eq!(shape.shape_handle(), None);
    shape.register_body(a);
    shape.register_body(b);
    shape.register_body(a);
    assert_eq!(shape.bodies(), &vec![a, b, a]);
    // Every occurrence goes.
    shape.unregister_body(a);
    assert_eq!(shape.bodies(), &vec![b]);
    shape.unregister_body(a);
    assert_eq!(shape.bodies(), &vec![b]);
    shape.update(&ShapeDesc::TriMesh);
    assert!(shape.is_concave());
    assert_eq!(shape.bodies(), &vec![b]);
}

#[test]
fn released_tags_are_queued_in_order() {
    let mut gc = PhysicsGarbageCollector::default();
    let b1 = PhysicsRigidBodyTag::UsizeU64(1, 0);
    let b2 = PhysicsRigidBodyTag::UsizeU64(0, 4);
    b1.request_resource_removal(&mut gc);
    b2.request_resource_removal(&mut gc);
    PhysicsAreaTag::UsizeU64(2, 0).request_resource_removal(&mut gc);
    PhysicsShapeTag::UsizeU64(3, 0).request_resource_removal(&mut gc);
    PhysicsJointTag::UsizeU64(4, 0).request_resource_removal(&mut gc);
    assert_eq!(gc.bodies, vec![b1, b2]);
    assert_eq!(gc.areas, vec![PhysicsAreaTag::UsizeU64(2, 0)]);
    assert_eq!(gc.shapes, vec![PhysicsShapeTag::UsizeU64(3, 0)]);
    assert_eq!(gc.joints, vec![PhysicsJointTag::UsizeU64(4, 0)]);
}

#[test]
fn watch_list_is_searched_by_bisection() {
    let keys: Vec<StoreKey> = vec![
        StoreKey::from_raw_parts(0, 3),
        StoreKey::from_raw_parts(2, 0),
        StoreKey::from_raw_parts(2, 5),
        StoreKey::from_raw_parts(7, 1),
    ];
    for (i, key) in keys.iter().enumerate() {
        assert_eq!(find_watched(&keys, *key), (true, i));
    }
    assert_eq!(find_watched(&keys, StoreKey::from_raw_parts(0, 0)), (false, 0));
    assert_eq!(find_watched(&keys, StoreKey::from_raw_parts(2, 3)), (false, 2));
    assert_eq!(find_watched(&keys, StoreKey::from_raw_parts(9, 0)), (false, 4));
    assert_eq!(find_watched(&vec![], StoreKey::from_raw_parts(9, 0)), (false, 0));
}

#[test]
fn table_accessors_give_the_tables() {
    let mut storages = ServersStorage::new();
    let key = storages
        .bodies_w()
        .insert_body(Body::new_area(engine_body(), to_nphysics(&[], &[])));
    assert!(storages.bodies_r().contains(key));
    let c = storages.colliders_w().insert_collider(collider(key));
    assert!(storages.colliders_r().contains(c));
    let j = storages.joints_w().insert(Joint::new(JointDesc::Fixed, JointPosition::Middle));
    assert!(storages.joints_r().contains(j));
    let f = storages.force_generator_w().insert(ForceGenerator::new(key));
    assert!(storages.force_generator_r().contains(f));
    let s = storages.shapes_w().insert(RigidShape::new(&ShapeDesc::Plane));
    assert!(storages.shapes_r().has(s));
    assert!(storages.has_spare(usize::MAX - 1));
    assert!(!storages.has_spare(usize::MAX));
}
