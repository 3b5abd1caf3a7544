use amethyst_core::ecs::Builder;
use amethyst_core::ecs::Entity;
use amethyst_core::ecs::World;
use amethyst_core::ecs::WorldExt;
use amethyst_nphysics::area_physics_server::AreaNpServer;
use amethyst_nphysics::attachment::ServerError;
use amethyst_nphysics::collider::Density;
use amethyst_nphysics::conversors::rigid_tag_to_store_key;
use amethyst_nphysics::conversors::shape_tag_to_store_key;
use amethyst_nphysics::objects::AreaDesc;
use amethyst_nphysics::objects::AxisLocks;
use amethyst_nphysics::objects::BodyMode;
use amethyst_nphysics::objects::CollisionGroup;
use amethyst_nphysics::objects::PhysicsRigidBodyTag;
use amethyst_nphysics::objects::PhysicsShapeTag;
use amethyst_nphysics::objects::RigidBodyDesc;
use amethyst_nphysics::objects::ShapeDesc;
use amethyst_nphysics::rigid_body_physics_server::RBodyNpServer;
use amethyst_nphysics::servers_storage::ServersStorage;
use amethyst_nphysics::shape_physics_server::ShapeNpServer;
use amethyst_nphysics::utils::ObjectType;
use amethyst_nphysics::world_physics_server::WorldNpServer;
use amethyst_nphysics::NPhysicsBackend;

fn body_desc() -> RigidBodyDesc {
    RigidBodyDesc {
        mode: BodyMode::Dynamic,
        belong_to: vec![CollisionGroup::default()],
        collide_with: vec![CollisionGroup::default()],
        lock_translation_x: false,
        lock_translation_y: false,
        lock_translation_z: false,
        lock_rotation_x: false,
        lock_rotation_y: false,
        lock_rotation_z: false,
        contacts_to_report: 0,
    }
}

fn area_desc() -> AreaDesc {
    AreaDesc {
        belong_to: vec![CollisionGroup::default()],
        collide_with: vec![CollisionGroup::default()],
    }
}

fn entities(n: usize) -> Vec<Entity> {
    let mut world = World::new();
    (0..n).map(|_| world.create_entity().build()).collect()
}

fn attached(storages: &ServersStorage, shape: PhysicsShapeTag) -> Vec<PhysicsRigidBodyTag> {
    let shape = storages.shapes.get(shape_tag_to_store_key(shape)).unwrap();
    shape
        .bodies()
        .iter()
        .map(|k| PhysicsRigidBodyTag::UsizeU64(k.index, k.generation))
        .collect()
}

#[test]
fn a_new_world_is_empty() {
    let storages = NPhysicsBackend::create_world();
    assert_eq!(storages.bodies.len(), 0);
    assert_eq!(storages.colliders.len(), 0);
    assert_eq!(storages.joints.len(), 0);
    assert_eq!(storages.shapes.len(), 0);
    assert!(storages.watch_contacts.is_empty());
    assert!(storages.gc.bodies.is_empty());
    assert!(storages.has_spare(1000));
}

#[test]
fn created_body_is_as_described() {
    let mut storages = ServersStorage::new();
    let mut desc = body_desc();
    desc.mode = BodyMode::Kinematic;
    desc.lock_translation_y = true;
    desc.lock_rotation_z = true;
    desc.contacts_to_report = 3;
    let tag = RBodyNpServer::create(&mut storages, &desc);
    let key = rigid_tag_to_store_key(tag);
    let body = storages.bodies.get_body(key).unwrap();
    assert_eq!(body.self_key, Some(key));
    assert_eq!(body.shape_key, None);
    assert_eq!(body.collider_key, None);
    assert_eq!(body.entity, None);
    assert_eq!(RBodyNpServer::mode(&storages, tag), BodyMode::Kinematic);
    assert_eq!(RBodyNpServer::lock_translation(&storages, tag), AxisLocks::new(false, true, false));
    assert_eq!(RBodyNpServer::lock_rotation(&storages, tag), AxisLocks::new(false, false, true));
    assert_eq!(RBodyNpServer::contacts_to_report(&storages, tag), 3);
    assert_eq!(storages.watch_contacts, vec![key]);
    assert_eq!(RBodyNpServer::shape(&storages, tag), None);
}

#[test]
fn stale_body_tag_gives_safe_defaults() {
    let mut storages = ServersStorage::new();
    let stale = PhysicsRigidBodyTag::UsizeU64(7, 3);
    assert_eq!(RBodyNpServer::mode(&storages, stale), BodyMode::Disabled);
    assert_eq!(RBodyNpServer::entity(&storages, stale), None);
    assert_eq!(RBodyNpServer::shape(&storages, stale), None);
    assert_eq!(RBodyNpServer::lock_translation(&storages, stale), AxisLocks::free());
    assert_eq!(RBodyNpServer::lock_rotation(&storages, stale), AxisLocks::free());
    assert_eq!(RBodyNpServer::contacts_to_report(&storages, stale), 0);
    assert!(RBodyNpServer::belong_to(&storages, stale).is_empty());
    assert!(RBodyNpServer::collide_with(&storages, stale).is_empty());
    let mut out = vec![];
    RBodyNpServer::contact_events(&storages, stale, &mut out);
    assert!(out.is_empty());
    // Setters on a stale tag change nothing.
    RBodyNpServer::set_mode(&mut storages, stale, BodyMode::Static);
    assert_eq!(
        RBodyNpServer::set_shape(&mut storages, stale, None),
        Err(ServerError::BodyNotFound)
    );
    assert_eq!(RBodyNpServer::set_entity(&mut storages, stale, None), Ok(()));
    RBodyNpServer::set_contacts_to_report(&mut storages, stale, 4);
    assert_eq!(storages.bodies.len(), 0);
    assert!(storages.watch_contacts.is_empty());
}

#[test]
fn set_shape_builds_a_solid_collider_for_a_rigid_body() {
    let mut storages = ServersStorage::new();
    let body = RBodyNpServer::create(&mut storages, &body_desc());
    let shape = ShapeNpServer::create_shape(&mut storages, &ShapeDesc::Sphere);
    RBodyNpServer::set_shape(&mut storages, body, Some(shape)).unwrap();

    let body_key = rigid_tag_to_store_key(body);
    let record = storages.bodies.get_body(body_key).unwrap();
    assert_eq!(record.shape_key, Some(shape_tag_to_store_key(shape)));
    let collider_key = record.collider_key.expect("a shape implies a collider");
    let collider = storages.colliders.get_collider(collider_key).unwrap();
    assert_eq!(collider.density, Density::One);
    assert!(!collider.sensor);
    assert!(collider.body_material);
    assert_eq!(collider.shape, Some(shape_tag_to_store_key(shape)));
    assert_eq!(collider.body_part.0, body_key);
    assert_eq!(collider.body_part.1, 0);
    let owner = collider.user_data().unwrap();
    assert_eq!(owner.object_type(), ObjectType::RigidBody);
    assert_eq!(owner.store_key(), body_key);
    assert_eq!(owner.entity(), None);
    assert_eq!(attached(&storages, shape), vec![body]);
    assert_eq!(RBodyNpServer::shape(&storages, body), Some(shape));
    // The engine learns of the collider from the insertion queue.
    assert_eq!(storages.colliders.pop_insertion_event(), Some(collider_key));
    assert_eq!(storages.colliders.pop_insertion_event(), None);
}

#[test]
fn concave_shape_gives_a_collider_without_density() {
    let mut storages = ServersStorage::new();
    let body = RBodyNpServer::create(&mut storages, &body_desc());
    let shape = ShapeNpServer::create_shape(&mut storages, &ShapeDesc::TriMesh);
    RBodyNpServer::set_shape(&mut storages, body, Some(shape)).unwrap();
    let record = storages.bodies.get_body(rigid_tag_to_store_key(body)).unwrap();
    let collider = storages.colliders.get_collider(record.collider_key.unwrap()).unwrap();
    assert_eq!(collider.density, Density::Zero);
    assert!(!collider.sensor);
}

#[test]
fn area_collider_is_a_sensor_without_density() {
    let mut storages = ServersStorage::new();
    let area = AreaNpServer::create(&mut storages, &area_desc());
    let shape = ShapeNpServer::create_shape(&mut storages, &ShapeDesc::Cube);
    AreaNpServer::set_shape(&mut storages, area, Some(shape)).unwrap();
    let key = amethyst_nphysics::conversors::area_tag_to_store_key(area);
    let record = storages.bodies.get_body(key).unwrap();
    assert_eq!(record.np_body.status, BodyMode::Static);
    let collider = storages.colliders.get_collider(record.collider_key.unwrap()).unwrap();
    assert_eq!(collider.density, Density::Zero);
    assert!(collider.sensor);
    assert!(!collider.body_material);
    assert_eq!(collider.user_data().unwrap().object_type(), ObjectType::Area);
    assert_eq!(AreaNpServer::shape(&storages, area), Some(shape));
}

#[test]
fn replacing_a_shape_detaches_the_old_one_and_drops_its_collider() {
    let mut storages = ServersStorage::new();
    let body = RBodyNpServer::create(&mut storages, &body_desc());
    let first = ShapeNpServer::create_shape(&mut storages, &ShapeDesc::Sphere);
    let second = ShapeNpServer::create_shape(&mut storages, &ShapeDesc::Capsule);
    RBodyNpServer::set_shape(&mut storages, body, Some(first)).unwrap();
    let body_key = rigid_tag_to_store_key(body);
    let old_collider = storages.bodies.get_body(body_key).unwrap().collider_key.unwrap();

    RBodyNpServer::set_shape(&mut storages, body, Some(second)).unwrap();
    let record = storages.bodies.get_body(body_key).unwrap();
    let new_collider = record.collider_key.unwrap();
    assert_ne!(old_collider, new_collider);
    assert!(!storages.colliders.contains(old_collider));
    assert!(storages.colliders.contains(new_collider));
    assert_eq!(storages.colliders.len(), 1);
    assert!(attached(&storages, first).is_empty());
    assert_eq!(attached(&storages, second), vec![body]);
    assert_eq!(storages.colliders.pop_removal_event(), Some(old_collider));
    assert_eq!(storages.colliders.pop_removal_event(), None);
}

#[test]
fn setting_the_same_shape_again_changes_nothing() {
    let mut storages = ServersStorage::new();
    let body = RBodyNpServer::create(&mut storages, &body_desc());
    let shape = ShapeNpServer::create_shape(&mut storages, &ShapeDesc::Sphere);
    RBodyNpServer::set_shape(&mut storages, body, Some(shape)).unwrap();
    let key = rigid_tag_to_store_key(body);
    let collider = storages.bodies.get_body(key).unwrap().collider_key;
    RBodyNpServer::set_shape(&mut storages, body, Some(shape)).unwrap();
    assert_eq!(storages.bodies.get_body(key).unwrap().collider_key, collider);
    assert_eq!(attached(&storages, shape), vec![body]);
    assert_eq!(storages.colliders.len(), 1);
}

#[test]
fn removing_the_shape_leaves_the_body_bare() {
    let mut storages = ServersStorage::new();
    let body = RBodyNpServer::create(&mut storages, &body_desc());
    let shape = ShapeNpServer::create_shape(&mut storages, &ShapeDesc::Sphere);
    RBodyNpServer::set_shape(&mut storages, body, Some(shape)).unwrap();
    RBodyNpServer::set_shape(&mut storages, body, None).unwrap();
    let record = storages.bodies.get_body(rigid_tag_to_store_key(body)).unwrap();
    assert_eq!(record.shape_key, None);
    assert_eq!(record.collider_key, None);
    assert_eq!(storages.colliders.len(), 0);
    assert!(attached(&storages, shape).is_empty());
}

#[test]
fn setting_a_missing_shape_detaches_and_attaches_nothing() {
    let mut storages = ServersStorage::new();
    let body = RBodyNpServer::create(&mut storages, &body_desc());
    let shape = ShapeNpServer::create_shape(&mut storages, &ShapeDesc::Sphere);
    RBodyNpServer::set_shape(&mut storages, body, Some(shape)).unwrap();
    let missing = PhysicsShapeTag::UsizeU64(40, 0);
    assert_eq!(
        RBodyNpServer::set_shape(&mut storages, body, Some(missing)),
        Err(ServerError::ShapeNotFound)
    );
    let record = storages.bodies.get_body(rigid_tag_to_store_key(body)).unwrap();
    assert_eq!(record.shape_key, None);
    assert_eq!(record.collider_key, None);
    assert!(attached(&storages, shape).is_empty());
}

#[test]
fn entity_is_recorded_on_body_and_collider() {
    let es = entities(2);
    let mut storages = ServersStorage::new();
    let body = RBodyNpServer::create(&mut storages, &body_desc());
    let shape = ShapeNpServer::create_shape(&mut storages, &ShapeDesc::Sphere);
    RBodyNpServer::set_entity(&mut storages, body, Some(es[0])).unwrap();
    RBodyNpServer::set_shape(&mut storages, body, Some(shape)).unwrap();
    let key = rigid_tag_to_store_key(body);
    let collider_key = storages.bodies.get_body(key).unwrap().collider_key.unwrap();
    assert_eq!(RBodyNpServer::entity(&storages, body), Some(es[0]));
    assert_eq!(
        storages.colliders.get_collider(collider_key).unwrap().user_data().unwrap().entity(),
        Some(es[0])
    );
    RBodyNpServer::set_entity(&mut storages, body, Some(es[1])).unwrap();
    assert_eq!(RBodyNpServer::entity(&storages, body), Some(es[1]));
    assert_eq!(
        storages.colliders.get_collider(collider_key).unwrap().user_data().unwrap().entity(),
        Some(es[1])
    );
    RBodyNpServer::set_entity(&mut storages, body, None).unwrap();
    assert_eq!(RBodyNpServer::entity(&storages, body), None);
}

#[test]
fn rigid_server_does_not_set_the_entity_of_an_area() {
    let es = entities(1);
    let mut storages = ServersStorage::new();
    let area = AreaNpServer::create(&mut storages, &area_desc());
    let key = amethyst_nphysics::conversors::area_tag_to_store_key(area);
    let as_body = PhysicsRigidBodyTag::UsizeU64(key.index, key.generation);
    assert_eq!(
        RBodyNpServer::set_entity(&mut storages, as_body, Some(es[0])),
        Err(ServerError::WrongKind)
    );
    assert_eq!(AreaNpServer::entity(&storages, area), None);
    assert_eq!(AreaNpServer::set_entity(&mut storages, area, Some(es[0])), Ok(()));
    assert_eq!(AreaNpServer::entity(&storages, area), Some(es[0]));
}

#[test]
fn mode_and_locks_are_read_back() {
    let mut storages = ServersStorage::new();
    let body = RBodyNpServer::create(&mut storages, &body_desc());
    RBodyNpServer::set_mode(&mut storages, body, BodyMode::Static);
    assert_eq!(RBodyNpServer::mode(&storages, body), BodyMode::Static);
    RBodyNpServer::set_lock_translation(&mut storages, body, AxisLocks::new(true, false, true));
    RBodyNpServer::set_lock_rotation(&mut storages, body, AxisLocks::new(false, true, false));
    assert_eq!(RBodyNpServer::lock_translation(&storages, body), AxisLocks::new(true, false, true));
    assert_eq!(RBodyNpServer::lock_rotation(&storages, body), AxisLocks::new(false, true, false));
}

fn ids(groups: &[CollisionGroup]) -> Vec<u8> {
    groups.iter().map(|g| g.get()).collect()
}

#[test]
fn collision_groups_are_set_one_list_at_a_time() {
    let mut storages = ServersStorage::new();
    let mut desc = body_desc();
    desc.belong_to = vec![CollisionGroup::new(2)];
    desc.collide_with = vec![CollisionGroup::new(5), CollisionGroup::new(2)];
    let body = RBodyNpServer::create(&mut storages, &desc);
    let shape = ShapeNpServer::create_shape(&mut storages, &ShapeDesc::Sphere);
    RBodyNpServer::set_shape(&mut storages, body, Some(shape)).unwrap();
    assert_eq!(ids(&RBodyNpServer::belong_to(&storages, body)), vec![2]);
    assert_eq!(ids(&RBodyNpServer::collide_with(&storages, body)), vec![2, 5]);

    RBodyNpServer::set_belong_to(
        &mut storages,
        body,
        vec![CollisionGroup::new(9), CollisionGroup::new(5)],
    );
    assert_eq!(ids(&RBodyNpServer::belong_to(&storages, body)), vec![5, 9]);
    assert_eq!(ids(&RBodyNpServer::collide_with(&storages, body)), vec![2, 5]);

    RBodyNpServer::set_collide_with(&mut storages, body, vec![CollisionGroup::new(9)]);
    assert_eq!(ids(&RBodyNpServer::belong_to(&storages, body)), vec![5, 9]);
    assert_eq!(ids(&RBodyNpServer::collide_with(&storages, body)), vec![9]);

    // The collider carries the body's filter: 5 is belonged to and not collided with.
    let record = storages.bodies.get_body(rigid_tag_to_store_key(body)).unwrap();
    let collider = storages.colliders.get_collider(record.collider_key.unwrap()).unwrap();
    assert!(collider.collision_groups.is_member_of(5));
    assert!(collider.collision_groups.is_member_of(9));
    assert!(collider.collision_groups.is_group_whitelisted(9));
    assert!(!collider.collision_groups.is_group_whitelisted(2));
    assert!(collider.collision_groups.is_group_blacklisted(5));
    assert!(!collider.collision_groups.is_group_blacklisted(9));
}

#[test]
fn update_shape_rebuilds_the_colliders_of_all_attached_bodies() {
    let mut storages = ServersStorage::new();
    let body = RBodyNpServer::create(&mut storages, &body_desc());
    let area = AreaNpServer::create(&mut storages, &area_desc());
    let shape = ShapeNpServer::create_shape(&mut storages, &ShapeDesc::Sphere);
    RBodyNpServer::set_shape(&mut storages, body, Some(shape)).unwrap();
    AreaNpServer::set_shape(&mut storages, area, Some(shape)).unwrap();
    let body_key = rigid_tag_to_store_key(body);
    let area_key = amethyst_nphysics::conversors::area_tag_to_store_key(area);
    let old_body_collider = storages.bodies.get_body(body_key).unwrap().collider_key.unwrap();
    let old_area_collider = storages.bodies.get_body(area_key).unwrap().collider_key.unwrap();

    assert_eq!(ShapeNpServer::update_shape(&mut storages, shape, &ShapeDesc::TriMesh), Ok(()));
    assert_eq!(
        ShapeNpServer::update_shape(
            &mut storages,
            PhysicsShapeTag::UsizeU64(90, 0),
            &ShapeDesc::Cube
        ),
        Err(ServerError::ShapeNotFound)
    );

    let new_body_collider = storages.bodies.get_body(body_key).unwrap().collider_key.unwrap();
    let new_area_collider = storages.bodies.get_body(area_key).unwrap().collider_key.unwrap();
    assert!(!storages.colliders.contains(old_body_collider));
    assert!(!storages.colliders.contains(old_area_collider));
    assert_eq!(storages.colliders.len(), 2);
    let of_body = storages.colliders.get_collider(new_body_collider).unwrap();
    // The geometry became concave: the rigid body's collider loses its density.
    assert_eq!(of_body.density, Density::Zero);
    assert!(!of_body.sensor);
    assert_eq!(of_body.user_data().unwrap().object_type(), ObjectType::RigidBody);
    let of_area = storages.colliders.get_collider(new_area_collider).unwrap();
    assert!(of_area.sensor);
    assert_eq!(of_area.user_data().unwrap().object_type(), ObjectType::Area);
    // The bodies stay attached, once each.
    assert_eq!(storages.shapes.get(shape_tag_to_store_key(shape)).unwrap().bodies().len(), 2);
    assert!(storages.shapes.get(shape_tag_to_store_key(shape)).unwrap().is_concave());
}

#[test]
fn contact_report_count_drives_the_watch_list() {
    let mut storages = ServersStorage::new();
    let a = RBodyNpServer::create(&mut storages, &body_desc());
    let b = RBodyNpServer::create(&mut storages, &body_desc());
    let c = RBodyNpServer::create(&mut storages, &body_desc());
    assert!(storages.watch_contacts.is_empty());
    RBodyNpServer::set_contacts_to_report(&mut storages, c, 2);
    RBodyNpServer::set_contacts_to_report(&mut storages, a, 1);
    RBodyNpServer::set_contacts_to_report(&mut storages, b, 5);
    RBodyNpServer::set_contacts_to_report(&mut storages, b, 6);
    let keys = vec![
        rigid_tag_to_store_key(a),
        rigid_tag_to_store_key(b),
        rigid_tag_to_store_key(c),
    ];
    let mut sorted = keys.clone();
    sorted.sort_by_key(|k| (k.index, k.generation));
    assert_eq!(storages.watch_contacts, sorted);
    assert_eq!(RBodyNpServer::contacts_to_report(&storages, b), 6);
}

#[test]
fn zero_contact_report_count_leaves_the_watch_list_and_empties_the_queue() {
    let mut storages = ServersStorage::new();
    let mut desc = body_desc();
    desc.contacts_to_report = 2;
    let body = RBodyNpServer::create(&mut storages, &desc);
    let other = RBodyNpServer::create(&mut storages, &desc);
    let key = rigid_tag_to_store_key(body);
    assert!(storages.watch_contacts.contains(&key));
    // A contact gathered while the body was watched.
    if let amethyst_nphysics::body::BodyData::Rigid { contacts, .. } =
        &mut storages.bodies.get_body_mut(key).unwrap().body_data
    {
        contacts.push(amethyst_nphysics::objects::ContactEvent {
            other_body: other,
            other_entity: None,
        });
    }
    let mut out = vec![];
    RBodyNpServer::contact_events(&storages, body, &mut out);
    assert_eq!(out.len(), 1);
    assert_eq!(out[0].other_body, other);

    RBodyNpServer::set_contacts_to_report(&mut storages, body, 0);
    assert!(!storages.watch_contacts.contains(&key));
    assert!(storages.watch_contacts.contains(&rigid_tag_to_store_key(other)));
    assert_eq!(RBodyNpServer::contacts_to_report(&storages, body), 0);
    RBodyNpServer::contact_events(&storages, body, &mut out);
    assert!(out.is_empty());
    // And it stays empty after the next step's collection.
    WorldNpServer::garbage_collect(&mut storages);
    RBodyNpServer::contact_events(&storages, body, &mut out);
    assert!(out.is_empty());
    assert!(!storages.watch_contacts.contains(&key));
}

#[test]
fn entity_of_a_body_whose_collider_is_gone_is_still_recorded() {
    let es = entities(1);
    let mut storages = ServersStorage::new();
    let body = RBodyNpServer::create(&mut storages, &body_desc());
    let shape = ShapeNpServer::create_shape(&mut storages, &ShapeDesc::Sphere);
    RBodyNpServer::set_shape(&mut storages, body, Some(shape)).unwrap();
    let key = rigid_tag_to_store_key(body);
    let collider = storages.bodies.get_body(key).unwrap().collider_key.unwrap();
    storages.colliders.drop_collider(collider);
    assert_eq!(
        RBodyNpServer::set_entity(&mut storages, body, Some(es[0])),
        Err(ServerError::ColliderNotFound)
    );
    assert_eq!(RBodyNpServer::entity(&storages, body), Some(es[0]));
}
