use amethyst_nphysics::area_physics_server::AreaNpServer;
use amethyst_nphysics::joint_physics_server::JointNpServer;
use amethyst_nphysics::objects::AreaDesc;
use amethyst_nphysics::objects::BodyMode;
use amethyst_nphysics::objects::CollisionGroup;
use amethyst_nphysics::objects::JointDesc;
use amethyst_nphysics::objects::JointPosition;
use amethyst_nphysics::objects::RigidBodyDesc;
use amethyst_nphysics::objects::ShapeDesc;
use amethyst_nphysics::rigid_body_physics_server::RBodyNpServer;
use amethyst_nphysics::servers_storage::ServersStorage;
use amethyst_nphysics::shape_physics_server::ShapeNpServer;
use amethyst_nphysics::world_physics_server::WorldNpServer;

fn body_desc(contacts_to_report: usize) -> RigidBodyDesc {
    RigidBodyDesc {
        mode: BodyMode::Dynamic,
        belong_to: vec![CollisionGroup::default()],
        collide_with: vec![CollisionGroup::default()],
        lock_translation_x: false,
        lock_translation_y: false,
        lock_translation_z: false,
        lock_rotation_x: false,
        lock_rotation_y: false,
        lock_rotation_z: false,
        contacts_to_report,
    }
}

fn area_desc() -> AreaDesc {
    AreaDesc { belong_to: vec![CollisionGroup::new(4)], collide_with: vec![] }
}

/// Checks the cross-references of the world: every body's shape and collider
/// exist and name the body, shapes list only bodies that use them, colliders
/// belong to the body that names them, and the watch-list is sorted.
fn assert_sound(storages: &ServersStorage) {
    for key in storages.bodies.iter() {
        let body = storages.bodies.get_body(key).unwrap();
        assert_eq!(body.self_key, Some(key));
        assert_eq!(body.shape_key.is_some(), body.collider_key.is_some());
        if let Some(shape) = body.shape_key {
            let shape = storages.shapes.get(shape).expect("the shape of a body exists");
            assert_eq!(shape.bodies().iter().filter(|b| **b == key).count(), 1);
        }
        if let Some(collider) = body.collider_key {
            let collider =
                storages.colliders.get_collider(collider).expect("the collider of a body exists");
            assert_eq!(collider.body_part.0, key);
            assert_eq!(collider.user_data().unwrap().store_key(), key);
        }
    }
    for key in storages.shapes.iter() {
        let shape = storages.shapes.get(key).unwrap();
        assert_eq!(shape.self_key, Some(key));
        for body in shape.bodies() {
            let body = storages.bodies.get_body(*body).expect("an attached body exists");
            assert_eq!(body.shape_key, Some(key));
        }
    }
    for key in storages.colliders.iter() {
        let owner = storages.colliders.get_collider(key).unwrap().body_part.0;
        assert_eq!(storages.bodies.get_body(owner).unwrap().collider_key, Some(key));
    }
    for pair in storages.watch_contacts.windows(2) {
        assert!(pair[0].lt(pair[1]));
    }
}

#[test]
fn links_stay_sound_through_the_life_of_a_world() {
    let mut storages = ServersStorage::new();
    assert_sound(&storages);

    let mut bodies = Vec::new();
    for i in 0..6 {
        bodies.push(RBodyNpServer::create(&mut storages, &body_desc(i % 3)));
        assert_sound(&storages);
    }
    let areas: Vec<_> = (0..3).map(|_| AreaNpServer::create(&mut storages, &area_desc())).collect();
    let shapes: Vec<_> = [ShapeDesc::Sphere, ShapeDesc::TriMesh, ShapeDesc::Cube]
        .iter()
        .map(|d| ShapeNpServer::create_shape(&mut storages, d))
        .collect();
    assert_sound(&storages);

    for (i, body) in bodies.iter().enumerate() {
        RBodyNpServer::set_shape(&mut storages, *body, Some(shapes[i % 3])).unwrap();
        assert_sound(&storages);
    }
    for (i, area) in areas.iter().enumerate() {
        AreaNpServer::set_shape(&mut storages, *area, Some(shapes[(i + 1) % 3])).unwrap();
        assert_sound(&storages);
    }
    // Shapes are swapped, removed and set again.
    RBodyNpServer::set_shape(&mut storages, bodies[0], Some(shapes[1])).unwrap();
    RBodyNpServer::set_shape(&mut storages, bodies[1], None).unwrap();
    RBodyNpServer::set_shape(&mut storages, bodies[1], Some(shapes[1])).unwrap();
    AreaNpServer::set_shape(&mut storages, areas[0], Some(shapes[1])).unwrap();
    assert_sound(&storages);

    ShapeNpServer::update_shape(&mut storages, shapes[1], &ShapeDesc::Convex).unwrap();
    assert_sound(&storages);

    let joint = JointNpServer::create_joint(&mut storages, &JointDesc::Fixed, &JointPosition::Middle);
    JointNpServer::insert_rigid_body(&mut storages, joint, bodies[0]).unwrap();
    JointNpServer::insert_rigid_body(&mut storages, joint, bodies[1]).unwrap();
    assert_sound(&storages);

    // Everything is released, in an order that the collector has to sort out.
    for shape in &shapes {
        shape.request_resource_removal(&mut storages.gc);
    }
    bodies[0].request_resource_removal(&mut storages.gc);
    bodies[3].request_resource_removal(&mut storages.gc);
    areas[1].request_resource_removal(&mut storages.gc);
    WorldNpServer::garbage_collect(&mut storages);
    assert_sound(&storages);
    assert_eq!(storages.bodies.len(), 6);
    // Every shape still has a body.
    assert_eq!(storages.shapes.len(), 3);
    assert_eq!(storages.gc.shapes.len(), 3);

    RBodyNpServer::set_contacts_to_report(&mut storages, bodies[1], 0);
    RBodyNpServer::set_contacts_to_report(&mut storages, bodies[2], 9);
    joint.request_resource_removal(&mut storages.gc);
    for body in &bodies {
        body.request_resource_removal(&mut storages.gc);
    }
    for area in &areas {
        area.request_resource_removal(&mut storages.gc);
    }
    WorldNpServer::garbage_collect(&mut storages);
    assert_sound(&storages);
    assert_eq!(storages.bodies.len(), 0);
    assert_eq!(storages.colliders.len(), 0);
    assert_eq!(storages.shapes.len(), 0);
    assert_eq!(storages.joints.len(), 0);
    assert!(storages.gc.shapes.is_empty());
}
