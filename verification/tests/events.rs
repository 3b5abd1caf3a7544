use amethyst_core::ecs::Builder;
use amethyst_core::ecs::World;
use amethyst_core::ecs::WorldExt;
use amethyst_nphysics::area_physics_server::AreaNpServer;
use amethyst_nphysics::conversors::area_tag_to_store_key;
use amethyst_nphysics::conversors::rigid_tag_to_store_key;
use amethyst_nphysics::objects::AreaDesc;
use amethyst_nphysics::objects::BodyMode;
use amethyst_nphysics::objects::CollisionGroup;
use amethyst_nphysics::objects::OverlapEvent;
use amethyst_nphysics::objects::PhysicsAreaTag;
use amethyst_nphysics::objects::PhysicsRigidBodyTag;
use amethyst_nphysics::objects::RigidBodyDesc;
use amethyst_nphysics::objects::ShapeDesc;
use amethyst_nphysics::rigid_body_physics_server::RBodyNpServer;
use amethyst_nphysics::servers_storage::ServersStorage;
use amethyst_nphysics::shape_physics_server::ShapeNpServer;
use amethyst_nphysics::storage::StoreKey;
use amethyst_nphysics::world_physics_server::classify_transition;
use amethyst_nphysics::world_physics_server::Overlap;
use amethyst_nphysics::world_physics_server::Proximity;
use amethyst_nphysics::world_physics_server::ProximityEvent;
use amethyst_nphysics::world_physics_server::WorldNpServer;

fn rigid_body(storages: &mut ServersStorage) -> PhysicsRigidBodyTag {
    let body = RBodyNpServer::create(
        storages,
        &RigidBodyDesc {
            mode: BodyMode::Dynamic,
            belong_to: vec![CollisionGroup::default()],
            collide_with: vec![CollisionGroup::default()],
            lock_translation_x: false,
            lock_translation_y: false,
            lock_translation_z: false,
            lock_rotation_x: false,
            lock_rotation_y: false,
            lock_rotation_z: false,
            contacts_to_report: 0,
        },
    );
    let shape = ShapeNpServer::create_shape(storages, &ShapeDesc::Sphere);
    RBodyNpServer::set_shape(storages, body, Some(shape)).unwrap();
    body
}

fn area(storages: &mut ServersStorage) -> PhysicsAreaTag {
    let area = AreaNpServer::create(
        storages,
        &AreaDesc {
            belong_to: vec![CollisionGroup::default()],
            collide_with: vec![CollisionGroup::default()],
        },
    );
    let shape = ShapeNpServer::create_shape(storages, &ShapeDesc::Sphere);
    AreaNpServer::set_shape(storages, area, Some(shape)).unwrap();
    area
}

fn collider_of(storages: &ServersStorage, key: StoreKey) -> StoreKey {
    storages.bodies.get_body(key).unwrap().collider_key.unwrap()
}

fn transition(c1: StoreKey, c2: StoreKey, prev: Proximity, new: Proximity) -> ProximityEvent {
    ProximityEvent { collider1: c1, collider2: c2, prev_status: prev, new_status: new }
}

#[test]
fn classification_of_transitions() {
    let meet = Proximity::Intersecting;
    let near = Proximity::WithinMargin;
    let apart = Proximity::Disjoint;
    assert_eq!(classify_transition(apart, meet), Some(Overlap::Enter));
    assert_eq!(classify_transition(near, meet), Some(Overlap::Enter));
    assert_eq!(classify_transition(meet, apart), Some(Overlap::Exit));
    assert_eq!(classify_transition(meet, near), Some(Overlap::Exit));
    assert_eq!(classify_transition(meet, meet), None);
    assert_eq!(classify_transition(apart, apart), None);
    assert_eq!(classify_transition(near, near), None);
    assert_eq!(classify_transition(apart, near), None);
    assert_eq!(classify_transition(near, apart), None);
}

#[test]
fn events_go_to_the_area_and_tell_of_the_body() {
    let mut world = World::new();
    let entity = world.create_entity().build();
    let mut storages = ServersStorage::new();
    let body = rigid_body(&mut storages);
    let zone = area(&mut storages);
    RBodyNpServer::set_entity(&mut storages, body, Some(entity)).unwrap();
    let body_collider = collider_of(&storages, rigid_tag_to_store_key(body));
    let area_collider = collider_of(&storages, area_tag_to_store_key(zone));

    // The area's collider may come first or second in the pair.
    let events = vec![
        transition(area_collider, body_collider, Proximity::Disjoint, Proximity::Intersecting),
        transition(body_collider, area_collider, Proximity::Intersecting, Proximity::WithinMargin),
    ];
    WorldNpServer::fetch_events(&events, &mut storages.bodies, &storages.colliders);
    assert_eq!(
        AreaNpServer::overlap_events(&storages, zone),
        vec![OverlapEvent::Enter(body, Some(entity)), OverlapEvent::Exit(body, Some(entity))]
    );
}

#[test]
fn events_are_a_snapshot_of_one_step() {
    let mut storages = ServersStorage::new();
    let body = rigid_body(&mut storages);
    let zone = area(&mut storages);
    let body_collider = collider_of(&storages, rigid_tag_to_store_key(body));
    let area_collider = collider_of(&storages, area_tag_to_store_key(zone));
    let enter =
        vec![transition(body_collider, area_collider, Proximity::Disjoint, Proximity::Intersecting)];
    WorldNpServer::fetch_events(&enter, &mut storages.bodies, &storages.colliders);
    assert_eq!(AreaNpServer::overlap_events(&storages, zone).len(), 1);
    // The next step reports nothing: the old event is forgotten.
    WorldNpServer::fetch_events(&vec![], &mut storages.bodies, &storages.colliders);
    assert!(AreaNpServer::overlap_events(&storages, zone).is_empty());
}

#[test]
fn repeated_intersecting_reports_give_no_second_enter() {
    let mut storages = ServersStorage::new();
    let body = rigid_body(&mut storages);
    let zone = area(&mut storages);
    let bc = collider_of(&storages, rigid_tag_to_store_key(body));
    let ac = collider_of(&storages, area_tag_to_store_key(zone));
    // The status of the pair after each step.
    let statuses = [
        Proximity::Disjoint,
        Proximity::Intersecting,
        Proximity::Intersecting,
        Proximity::Intersecting,
        Proximity::WithinMargin,
        Proximity::Disjoint,
        Proximity::Disjoint,
        Proximity::Intersecting,
    ];
    let mut seen = Vec::new();
    for step in 1..statuses.len() {
        let events = vec![transition(bc, ac, statuses[step - 1], statuses[step])];
        WorldNpServer::fetch_events(&events, &mut storages.bodies, &storages.colliders);
        for e in AreaNpServer::overlap_events(&storages, zone) {
            seen.push((step, e));
        }
    }
    assert_eq!(
        seen,
        vec![
            (1, OverlapEvent::Enter(body, None)),
            (4, OverlapEvent::Exit(body, None)),
            (7, OverlapEvent::Enter(body, None)),
        ]
    );
}

#[test]
fn approaching_sphere_enters_once_and_exits_once() {
    let mut storages = ServersStorage::new();
    let body = rigid_body(&mut storages);
    let zone = area(&mut storages);
    let bc = collider_of(&storages, rigid_tag_to_store_key(body));
    let ac = collider_of(&storages, area_tag_to_store_key(zone));

    // An area with a sphere of radius 1 at the origin; a body with a sphere of
    // radius 1 that starts at distance 3 and moves through the origin.
    let radius_sum = 2.0f64;
    let margin = 0.1f64;
    let velocity = -0.4f64;
    let mut position = 3.0f64;
    let proximity = |distance: f64| {
        if distance < radius_sum {
            Proximity::Intersecting
        } else if distance < radius_sum + margin {
            Proximity::WithinMargin
        } else {
            Proximity::Disjoint
        }
    };
    let mut status = proximity(position.abs());
    let mut log = Vec::new();
    let mut first_inside = None;
    let mut first_outside_again = None;
    for step in 1..=20 {
        position += velocity;
        let new = proximity(position.abs());
        if new == Proximity::Intersecting && first_inside.is_none() {
            first_inside = Some(step);
        }
        if new != Proximity::Intersecting && first_inside.is_some() && first_outside_again.is_none()
        {
            first_outside_again = Some(step);
        }
        // The engine reports the pair whenever they are close, changed or not.
        let events = vec![transition(bc, ac, status, new)];
        status = new;
        WorldNpServer::fetch_events(&events, &mut storages.bodies, &storages.colliders);
        for e in AreaNpServer::overlap_events(&storages, zone) {
            log.push((step, e));
        }
    }
    assert_eq!(first_inside, Some(3));
    assert_eq!(first_outside_again, Some(13));
    assert_eq!(
        log,
        vec![(3, OverlapEvent::Enter(body, None)), (13, OverlapEvent::Exit(body, None))]
    );
}

#[test]
fn transitions_of_unknown_colliders_are_dropped() {
    let mut storages = ServersStorage::new();
    let body = rigid_body(&mut storages);
    let zone = area(&mut storages);
    let bc = collider_of(&storages, rigid_tag_to_store_key(body));
    let ac = collider_of(&storages, area_tag_to_store_key(zone));
    let gone = StoreKey::from_raw_parts(77, 0);
    let events = vec![
        transition(gone, ac, Proximity::Disjoint, Proximity::Intersecting),
        transition(bc, gone, Proximity::Disjoint, Proximity::Intersecting),
    ];
    WorldNpServer::fetch_events(&events, &mut storages.bodies, &storages.colliders);
    assert!(AreaNpServer::overlap_events(&storages, zone).is_empty());
}

#[test]
fn two_bodies_give_no_event() {
    let mut storages = ServersStorage::new();
    let a = rigid_body(&mut storages);
    let b = rigid_body(&mut storages);
    let zone = area(&mut storages);
    let ca = collider_of(&storages, rigid_tag_to_store_key(a));
    let cb = collider_of(&storages, rigid_tag_to_store_key(b));
    let events = vec![transition(ca, cb, Proximity::Disjoint, Proximity::Intersecting)];
    WorldNpServer::fetch_events(&events, &mut storages.bodies, &storages.colliders);
    assert!(AreaNpServer::overlap_events(&storages, zone).is_empty());
    let as_area = |t: PhysicsRigidBodyTag| {
        let k = rigid_tag_to_store_key(t);
        PhysicsAreaTag::UsizeU64(k.index, k.generation)
    };
    assert!(AreaNpServer::overlap_events(&storages, as_area(a)).is_empty());
    assert!(AreaNpServer::overlap_events(&storages, as_area(b)).is_empty());
}

#[test]
fn each_area_gets_its_own_events_in_order() {
    let mut storages = ServersStorage::new();
    let a = rigid_body(&mut storages);
    let b = rigid_body(&mut storages);
    let first = area(&mut storages);
    let second = area(&mut storages);
    let ca = collider_of(&storages, rigid_tag_to_store_key(a));
    let cb = collider_of(&storages, rigid_tag_to_store_key(b));
    let c1 = collider_of(&storages, area_tag_to_store_key(first));
    let c2 = collider_of(&storages, area_tag_to_store_key(second));
    let events = vec![
        transition(ca, c1, Proximity::Disjoint, Proximity::Intersecting),
        transition(c2, cb, Proximity::WithinMargin, Proximity::Intersecting),
        transition(cb, c1, Proximity::Intersecting, Proximity::Disjoint),
        transition(ca, c2, Proximity::Disjoint, Proximity::WithinMargin),
    ];
    WorldNpServer::fetch_events(&events, &mut storages.bodies, &storages.colliders);
    assert_eq!(
        AreaNpServer::overlap_events(&storages, first),
        vec![OverlapEvent::Enter(a, None), OverlapEvent::Exit(b, None)]
    );
    assert_eq!(
        AreaNpServer::overlap_events(&storages, second),
        vec![OverlapEvent::Enter(b, None)]
    );
}
