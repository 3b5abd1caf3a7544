use amethyst_nphysics::area_physics_server::AreaNpServer;
use amethyst_nphysics::conversors::area_tag_to_store_key;
use amethyst_nphysics::conversors::rigid_tag_to_store_key;
use amethyst_nphysics::conversors::shape_tag_to_store_key;
use amethyst_nphysics::objects::AreaDesc;
use amethyst_nphysics::objects::BodyMode;
use amethyst_nphysics::objects::CollisionGroup;
use amethyst_nphysics::objects::PhysicsShapeTag;
use amethyst_nphysics::objects::RigidBodyDesc;
use amethyst_nphysics::objects::ShapeDesc;
use amethyst_nphysics::rigid_body_physics_server::RBodyNpServer;
use amethyst_nphysics::servers_storage::ServersStorage;
use amethyst_nphysics::shape_physics_server::ShapeNpServer;
use amethyst_nphysics::world_physics_server::WorldNpServer;

fn body_desc() -> RigidBodyDesc {
    RigidBodyDesc {
        mode: BodyMode::Dynamic,
        belong_to: vec![CollisionGroup::default()],
        collide_with: vec![CollisionGroup::default()],
        lock_translation_x: false,
        lock_translation_y: false,
        lock_translation_z: false,
        lock_rotation_x: false,
        lock_rotation_y: false,
        lock_rotation_z: false,
        contacts_to_report: 0,
    }
}

fn area_desc() -> AreaDesc {
    AreaDesc {
        belong_to: vec![CollisionGroup::default()],
        collide_with: vec![CollisionGroup::default()],
    }
}

fn shape_exists(storages: &ServersStorage, shape: PhysicsShapeTag) -> bool {
    storages.shapes.has(shape_tag_to_store_key(shape))
}

#[test]
fn destruction_waits_for_the_collection() {
    let mut storages = ServersStorage::new();
    let body = RBodyNpServer::create(&mut storages, &body_desc());
    body.request_resource_removal(&mut storages.gc);
    // Releasing the handle only queues the tag.
    assert!(storages.bodies.contains(rigid_tag_to_store_key(body)));
    assert_eq!(storages.gc.bodies, vec![body]);
    WorldNpServer::garbage_collect(&mut storages);
    assert!(!storages.bodies.contains(rigid_tag_to_store_key(body)));
    assert!(storages.gc.bodies.is_empty());
    // The engine is told of the removal.
    assert_eq!(storages.bodies.pop_removal_event(), Some(rigid_tag_to_store_key(body)));
    assert_eq!(storages.bodies.pop_removal_event(), None);
}

#[test]
fn collected_body_is_detached_and_loses_its_collider() {
    let mut storages = ServersStorage::new();
    let body = RBodyNpServer::create(&mut storages, &body_desc());
    let shape = ShapeNpServer::create_shape(&mut storages, &ShapeDesc::Sphere);
    RBodyNpServer::set_shape(&mut storages, body, Some(shape)).unwrap();
    let collider =
        storages.bodies.get_body(rigid_tag_to_store_key(body)).unwrap().collider_key.unwrap();
    body.request_resource_removal(&mut storages.gc);
    WorldNpServer::garbage_collect(&mut storages);
    assert!(!storages.colliders.contains(collider));
    assert_eq!(storages.colliders.pop_removal_event(), Some(collider));
    assert!(storages.shapes.get(shape_tag_to_store_key(shape)).unwrap().bodies().is_empty());
    assert!(shape_exists(&storages, shape));
}

#[test]
fn shape_in_use_is_marked_and_retried_until_free() {
    let mut storages = ServersStorage::new();
    let body = RBodyNpServer::create(&mut storages, &body_desc());
    let shape = ShapeNpServer::create_shape(&mut storages, &ShapeDesc::Sphere);
    RBodyNpServer::set_shape(&mut storages, body, Some(shape)).unwrap();
    let key = shape_tag_to_store_key(shape);
    shape.request_resource_removal(&mut storages.gc);

    for round in 0..3 {
        let blocked = WorldNpServer::garbage_collect(&mut storages);
        // Only the first attempt that is held up is reported.
        assert_eq!(blocked, if round == 0 { vec![shape] } else { vec![] });
        assert!(shape_exists(&storages, shape));
        assert!(storages.shapes.get(key).unwrap().marked_for_drop);
        assert_eq!(storages.gc.shapes, vec![shape]);
        assert_eq!(storages.shapes.removals(), 0);
    }

    RBodyNpServer::set_shape(&mut storages, body, None).unwrap();
    // Still there until the collector runs.
    assert!(shape_exists(&storages, shape));
    assert!(WorldNpServer::garbage_collect(&mut storages).is_empty());
    assert!(!shape_exists(&storages, shape));
    assert!(storages.gc.shapes.is_empty());
    assert_eq!(storages.shapes.removals(), 1);

    // Exactly one removal: later collections find nothing to do.
    WorldNpServer::garbage_collect(&mut storages);
    assert_eq!(storages.shapes.removals(), 1);
    assert!(storages.gc.shapes.is_empty());
}

#[test]
fn shape_on_two_bodies_is_kept_until_both_let_go() {
    let mut storages = ServersStorage::new();
    let first = RBodyNpServer::create(&mut storages, &body_desc());
    let second = AreaNpServer::create(&mut storages, &area_desc());
    let shape = ShapeNpServer::create_shape(&mut storages, &ShapeDesc::Cube);
    RBodyNpServer::set_shape(&mut storages, first, Some(shape)).unwrap();
    AreaNpServer::set_shape(&mut storages, second, Some(shape)).unwrap();
    shape.request_resource_removal(&mut storages.gc);

    WorldNpServer::garbage_collect(&mut storages);
    assert!(shape_exists(&storages, shape));

    // One body detaches.
    RBodyNpServer::set_shape(&mut storages, first, None).unwrap();
    WorldNpServer::garbage_collect(&mut storages);
    assert!(shape_exists(&storages, shape));
    assert_eq!(
        storages.shapes.get(shape_tag_to_store_key(shape)).unwrap().bodies(),
        &vec![area_tag_to_store_key(second)]
    );

    // The other body is destroyed: the same collection frees the area first,
    // then the shape.
    second.request_resource_removal(&mut storages.gc);
    WorldNpServer::garbage_collect(&mut storages);
    assert!(!storages.bodies.contains(area_tag_to_store_key(second)));
    assert!(!shape_exists(&storages, shape));
    assert!(storages.gc.shapes.is_empty());
    assert!(storages.gc.areas.is_empty());
    // The surviving body is untouched.
    assert!(storages.bodies.contains(rigid_tag_to_store_key(first)));
}

#[test]
fn drop_shape_answers_whether_the_request_is_settled() {
    let mut storages = ServersStorage::new();
    let body = RBodyNpServer::create(&mut storages, &body_desc());
    let used = ShapeNpServer::create_shape(&mut storages, &ShapeDesc::Sphere);
    let free = ShapeNpServer::create_shape(&mut storages, &ShapeDesc::Plane);
    RBodyNpServer::set_shape(&mut storages, body, Some(used)).unwrap();
    assert!(ShapeNpServer::has_dependency(shape_tag_to_store_key(used), &storages.shapes));
    assert!(!ShapeNpServer::has_dependency(shape_tag_to_store_key(free), &storages.shapes));
    assert!(!ShapeNpServer::drop_shape(used, &mut storages.shapes));
    assert!(ShapeNpServer::drop_shape(free, &mut storages.shapes));
    assert!(shape_exists(&storages, used));
    assert!(!shape_exists(&storages, free));
    // A tag that does not resolve is settled at once.
    assert!(ShapeNpServer::drop_shape(free, &mut storages.shapes));
    assert!(!ShapeNpServer::has_dependency(shape_tag_to_store_key(free), &storages.shapes));
}

#[test]
fn released_shape_and_body_go_in_one_collection() {
    let mut storages = ServersStorage::new();
    let body = RBodyNpServer::create(&mut storages, &body_desc());
    let shape = ShapeNpServer::create_shape(&mut storages, &ShapeDesc::Convex);
    RBodyNpServer::set_shape(&mut storages, body, Some(shape)).unwrap();
    // The shape is released before the body; the order of release does not matter.
    shape.request_resource_removal(&mut storages.gc);
    body.request_resource_removal(&mut storages.gc);
    WorldNpServer::garbage_collect(&mut storages);
    assert_eq!(storages.bodies.len(), 0);
    assert_eq!(storages.shapes.len(), 0);
    assert_eq!(storages.colliders.len(), 0);
    assert!(storages.gc.shapes.is_empty());
}

#[test]
fn tag_of_a_collected_body_never_resolves_to_its_successor() {
    let mut storages = ServersStorage::new();
    let old = RBodyNpServer::create(&mut storages, &body_desc());
    old.request_resource_removal(&mut storages.gc);
    WorldNpServer::garbage_collect(&mut storages);
    let mut desc = body_desc();
    desc.mode = BodyMode::Static;
    let new = RBodyNpServer::create(&mut storages, &desc);
    // The slot is taken again, and the old tag still resolves to nothing.
    assert_eq!(rigid_tag_to_store_key(new).index, rigid_tag_to_store_key(old).index);
    assert_ne!(new, old);
    assert_eq!(RBodyNpServer::mode(&storages, old), BodyMode::Disabled);
    assert_eq!(RBodyNpServer::mode(&storages, new), BodyMode::Static);
    RBodyNpServer::set_mode(&mut storages, old, BodyMode::Kinematic);
    assert_eq!(RBodyNpServer::mode(&storages, new), BodyMode::Static);
}

#[test]
fn collection_of_a_stale_tag_is_harmless() {
    let mut storages = ServersStorage::new();
    let body = RBodyNpServer::create(&mut storages, &body_desc());
    let keep = RBodyNpServer::create(&mut storages, &body_desc());
    body.request_resource_removal(&mut storages.gc);
    body.request_resource_removal(&mut storages.gc);
    WorldNpServer::garbage_collect(&mut storages);
    assert_eq!(storages.bodies.len(), 1);
    assert!(storages.bodies.contains(rigid_tag_to_store_key(keep)));
    assert_eq!(storages.bodies.removals(), 1);
}

#[test]
fn a_shape_released_twice_is_reported_once() {
    let mut storages = ServersStorage::new();
    let body = RBodyNpServer::create(&mut storages, &body_desc());
    let used = ShapeNpServer::create_shape(&mut storages, &ShapeDesc::Sphere);
    let free = ShapeNpServer::create_shape(&mut storages, &ShapeDesc::Plane);
    RBodyNpServer::set_shape(&mut storages, body, Some(used)).unwrap();
    used.request_resource_removal(&mut storages.gc);
    free.request_resource_removal(&mut storages.gc);
    used.request_resource_removal(&mut storages.gc);
    assert_eq!(WorldNpServer::garbage_collect(&mut storages), vec![used]);
    // Both requests for the shape in use stay queued; the free shape is gone.
    assert_eq!(storages.gc.shapes, vec![used, used]);
    assert!(!shape_exists(&storages, free));
    assert!(WorldNpServer::garbage_collect(&mut storages).is_empty());
}
