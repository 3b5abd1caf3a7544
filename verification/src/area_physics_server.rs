//! The lifecycle of areas: creation, destruction, shapes, entities,
//! collision groups and the overlap events that callers poll.

use crate::attachment::ServerError;
use crate::attachment::area_collider_desc;
use crate::attachment::body_dropped_in;
use crate::attachment::collider_of;
use crate::attachment::filters;
use crate::attachment::user_data_of;
use crate::attachment;
use crate::body::Body;
use crate::body::BodyData;
use crate::body::BodyDataView;
use crate::body::BodyView;
use crate::body::NpRigidBody;
use crate::body_storage::BodyStorage;
use crate::collider::Collider;
use crate::collider::ColliderDesc;
use crate::collider_storage::ColliderStorage;
use crate::consistency::lemma_body_created;
use crate::conversors::area_tag_to_store_key;
use crate::conversors::collision_group_conversor::group_ids;
use crate::conversors::collision_group_conversor::groups_membership;
use crate::conversors::collision_group_conversor::groups_whitelist;
use crate::conversors::collision_group_conversor::lists_groups;
use crate::conversors::collision_group_conversor::to_nphysics;
use crate::conversors::shape_tag_to_store_key;
use crate::conversors::store_key_to_area_tag;
use crate::conversors::store_key_to_shape_tag;
use crate::objects::AreaDesc;
use crate::objects::AxisLocks;
use crate::objects::BodyMode;
use crate::objects::CollisionGroup;
use crate::objects::OverlapEvent;
use crate::objects::PhysicsAreaTag;
use crate::objects::PhysicsShapeTag;
use crate::rigid_body_physics_server::shape_key_of;
use crate::servers_storage::ServersStorage;
use crate::shape::RigidShape;
use crate::shape::shape_views;
use crate::shape::unregister;
use crate::storage::Storage;
use crate::storage::StoreKey;
use crate::utils::ObjectType;
use amethyst_core::ecs::Entity;
use vstd::prelude::*;

verus! {

/// The server of areas.
pub struct AreaNpServer {}

// These functions serve the other servers too.

impl AreaNpServer {
    /// The server. It holds nothing: every operation is handed the tables
    /// that it works on.
    pub fn new() -> (server: AreaNpServer) {
        AreaNpServer {  }
    }

    /// Drops the area that `area_tag` names: detaches its shape, drops
    /// its collider and frees its slot.
    pub fn drop_area(
        area_tag: PhysicsAreaTag,
        bodies_storage: &mut BodyStorage,
        colliders_storage: &mut ColliderStorage,
        shapes_storage: &mut Storage<RigidShape>,
    )
        requires
            area_tag.is_key(),
            old(bodies_storage).wf(),
            old(bodies_storage)@.keyed(),
            old(bodies_storage).generation() < u64::MAX,
            old(colliders_storage).wf(),
            old(colliders_storage).generation() < u64::MAX,
            old(shapes_storage).wf(),
        ensures
            body_dropped_in(
                area_tag.key(),
                old(bodies_storage),
                final(bodies_storage),
                old(colliders_storage),
                final(colliders_storage),
                old(shapes_storage),
                final(shapes_storage),
            ),
    {
        attachment::drop_body(
            area_tag_to_store_key(area_tag),
            bodies_storage,
            colliders_storage,
            shapes_storage,
        )
    }

    /// Attaches `shape` to `body`: builds and stores the collider, registers
    /// the body on the shape, and records the shape on the body.
    pub fn install_shape(
        body: &mut Body,
        shape: &mut RigidShape,
        collider_desc: &ColliderDesc,
        colliders: &mut ColliderStorage,
    )
        requires
            old(body).self_key is Some,
            old(colliders).wf(),
            old(colliders).count() < usize::MAX,
        ensures
            final(body).collider_key is Some,
            final(body)@ == (BodyView {
                collider_key: final(body).collider_key,
                shape_key: old(shape).self_key,
                ..old(body)@
            }),
            final(shape)@ == old(shape)@.registered(old(body).self_key->0),
            final(colliders).after_insert(
                old(colliders),
                final(body).collider_key->0,
                collider_of(*collider_desc, ObjectType::Area, old(body)@),
            ),
    {
        attachment::install_shape(ObjectType::Area, body, shape, collider_desc, colliders)
    }

    /// Detaches `body` from its shape: if the body names a shape, the body
    /// is unregistered from it, where the shape still exists, and the body
    /// forgets the shape; then the body's collider is dropped.
    pub fn remove_shape(
        body: &mut Body,
        shapes: &mut Storage<RigidShape>,
        colliders: &mut ColliderStorage,
    )
        requires
            old(body).shape_key is Some ==> old(body).self_key is Some,
            old(shapes).wf(),
            old(colliders).wf(),
            old(colliders).generation() < u64::MAX,
        ensures
            final(body)@ == (BodyView { shape_key: None, collider_key: None, ..old(body)@ }),
            final(shapes).same_keys(old(shapes)),
            shape_views(*final(shapes)) == unregister(
                shape_views(*old(shapes)),
                old(body).shape_key,
                old(body).self_key,
            ),
            final(colliders).after_drop(old(colliders), old(body).collider_key),
    {
        attachment::remove_shape(body, shapes, colliders)
    }

    /// Builds the collider that `collider_desc` gives for `body`, stores it
    /// and records its key on the body.
    pub fn install_collider(
        body: &mut Body,
        collider_desc: &ColliderDesc,
        colliders: &mut ColliderStorage,
    )
        requires
            old(body).self_key is Some,
            old(colliders).wf(),
            old(colliders).count() < usize::MAX,
        ensures
            final(body).collider_key is Some,
            final(body)@ == (BodyView { collider_key: final(body).collider_key, ..old(body)@ }),
            final(colliders).after_insert(
                old(colliders),
                final(body).collider_key->0,
                collider_of(*collider_desc, ObjectType::Area, old(body)@),
            ),
    {
        attachment::install_collider(ObjectType::Area, body, collider_desc, colliders)
    }

    /// Just drops the collider of `body`.
    pub fn drop_collider(body: &mut Body, colliders: &mut ColliderStorage)
        requires
            old(colliders).wf(),
            old(colliders).generation() < u64::MAX,
        ensures
            final(body)@ == (BodyView { collider_key: None, ..old(body)@ }),
            final(colliders).after_drop(old(colliders), old(body).collider_key),
    {
        attachment::drop_collider(body, colliders)
    }

    /// Records the area `body` as the owner of `collider`.
    pub fn update_user_data(collider: &mut Collider, body: &Body)
        requires
            body.self_key is Some,
        ensures
            *final(collider) == (Collider {
                user_data: Some(user_data_of(ObjectType::Area, body@)),
                ..*old(collider)
            }),
    {
        attachment::update_user_data(ObjectType::Area, collider, body)
    }

    /// Describes the collider of the area `body` with the shape
    /// `shape`: the area's collision filter, no density, a sensor.
    pub fn create_collider_desc(body: &Body, shape: &RigidShape) -> (desc: ColliderDesc)
        ensures
            desc == area_collider_desc(body@, shape@),
    {
        attachment::create_collider_desc(ObjectType::Area, body, shape)
    }

    /// Hands the collision filter of `body` on to its collider, where the
    /// body has one that exists.
    pub fn update_collider_collision_groups(colliders: &mut ColliderStorage, body: &Body)
        requires
            old(colliders).wf(),
        ensures
            final(colliders).wf(),
            final(colliders).generation() == old(colliders).generation(),
            final(colliders).count() == old(colliders).count(),
            final(colliders).follows(old(colliders)),
            final(colliders)@ == old(colliders)@.regrouped(
                body.collider_key,
                body.np_collision_groups,
            ),
    {
        attachment::update_collider_collision_groups(colliders, body)
    }
}


// What callers ask of areas.

impl AreaNpServer {
    /// Creates an area as `area_desc` describes it, with no shape, no
    /// collider and no entity, and returns its tag. To the engine an area is
    /// a static body.
    pub fn create(storages: &mut ServersStorage, area_desc: &AreaDesc) -> (tag: PhysicsAreaTag)
        requires
            old(storages).wf(),
            old(storages).room_for_body(),
        ensures
            final(storages).wf(),
            old(storages)@.consistent() ==> final(storages)@.consistent(),
            final(storages).one_step_from(old(storages)),
            tag.is_key(),
            !old(storages)@.bodies.map.contains_key(tag.key()),
            !old(storages).bodies.retired(tag.key()),
            final(storages)@.bodies.map.contains_key(tag.key()),
            area_made_from(final(storages)@.bodies.map[tag.key()], tag.key(), *area_desc),
            final(storages)@ == old(storages)@.body_created(
                tag.key(),
                final(storages)@.bodies.map[tag.key()],
            ),
    {
        let np_rigid_body = NpRigidBody {
            status: BodyMode::Static,
            kinematic_translations: AxisLocks::free(),
            kinematic_rotations: AxisLocks::free(),
            activated: false,
        };
        let cg = to_nphysics(area_desc.belong_to.as_slice(), area_desc.collide_with.as_slice());
        let a_key = storages.bodies.insert_body(Body::new_area(np_rigid_body, cg));
        if let Some(area) = storages.bodies.get_body_mut(a_key) {
            area.self_key = Some(a_key);
        }
        proof {
            let made = storages@.bodies.map[a_key];
            assert(storages@.bodies =~= old(storages)@.bodies.with(a_key, made));
            if old(storages)@.consistent() {
                lemma_body_created(old(storages)@, a_key, made);
            }
        }
        store_key_to_area_tag(a_key)
    }

    /// Records `entity` for the area that `area_tag` names, on the area
    /// and on its collider. Nothing happens when the tag does not resolve; a
    /// tag that resolves to a rigid body is an error.
    pub fn set_entity(
        storages: &mut ServersStorage,
        area_tag: PhysicsAreaTag,
        entity: Option<Entity>,
    ) -> (answer: Result<(), ServerError>)
        requires
            old(storages).wf(),
            area_tag.is_key(),
        ensures
            final(storages).wf(),
            old(storages)@.consistent() ==> final(storages)@.consistent(),
            final(storages).one_step_from(old(storages)),
            answer == old(storages)@.entity_set_answer(ObjectType::Area, area_tag.key()),
            final(storages)@ == old(storages)@.entity_set(
                ObjectType::Area,
                area_tag.key(),
                entity,
            ),
    {
        attachment::set_entity(
            ObjectType::Area,
            storages,
            area_tag_to_store_key(area_tag),
            entity,
        )
    }

    /// The entity recorded for the area that `area_tag` names; none when the
    /// tag does not resolve.
    pub fn entity(storages: &ServersStorage, area_tag: PhysicsAreaTag) -> (entity: Option<
        Entity,
    >)
        requires
            storages.wf(),
            area_tag.is_key(),
        ensures
            entity == (if storages@.bodies.map.contains_key(area_tag.key()) {
                storages@.bodies.map[area_tag.key()].entity
            } else {
                None
            }),
    {
        attachment::entity(storages, area_tag_to_store_key(area_tag))
    }

    /// Sets the shape of the area that `area_tag` names; `None` leaves
    /// the area without a shape.
    pub fn set_shape(
        storages: &mut ServersStorage,
        area_tag: PhysicsAreaTag,
        shape_tag: Option<PhysicsShapeTag>,
    ) -> (answer: Result<(), ServerError>)
        requires
            old(storages).wf(),
            old(storages).room_for_colliders(1),
            area_tag.is_key(),
            shape_tag is Some ==> shape_tag->0.is_key(),
        ensures
            final(storages).wf(),
            old(storages)@.consistent() ==> final(storages)@.consistent(),
            final(storages).one_step_from(old(storages)),
            answer == old(storages)@.shape_set_answer(area_tag.key(), shape_key_of(shape_tag)),
            old(storages)@.shape_set_to(
                final(storages)@,
                ObjectType::Area,
                area_tag.key(),
                shape_key_of(shape_tag),
            ),
    {
        let body_key = area_tag_to_store_key(area_tag);
        let shape_key: Option<StoreKey> = match shape_tag {
            Some(tag) => Some(shape_tag_to_store_key(tag)),
            None => None,
        };
        attachment::set_shape(ObjectType::Area, storages, body_key, shape_key)
    }

    /// The shape of the area that `area_tag` names; none when the tag does
    /// not resolve or the area has no shape.
    pub fn shape(storages: &ServersStorage, area_tag: PhysicsAreaTag) -> (shape: Option<
        PhysicsShapeTag,
    >)
        requires
            storages.wf(),
            area_tag.is_key(),
        ensures
            shape_key_of(shape) == (if storages@.bodies.map.contains_key(area_tag.key()) {
                storages@.bodies.map[area_tag.key()].shape_key
            } else {
                None
            }),
            shape is Some ==> shape->0.is_key(),
    {
        match attachment::shape(storages, area_tag_to_store_key(area_tag)) {
            Some(key) => Some(store_key_to_shape_tag(key)),
            None => None,
        }
    }

    /// Makes the area that `area_tag` names belong to the groups `groups`
    /// only. The groups that it collides with stay; the area's collider
    /// gets the new filter.
    pub fn set_belong_to(
        storages: &mut ServersStorage,
        area_tag: PhysicsAreaTag,
        groups: Vec<CollisionGroup>,
    )
        requires
            old(storages).wf(),
            area_tag.is_key(),
        ensures
            final(storages).wf(),
            old(storages)@.consistent() ==> final(storages)@.consistent(),
            final(storages).one_step_from(old(storages)),
            old(storages)@.regrouped_to(
                final(storages)@,
                area_tag.key(),
                Some(group_ids(groups@)),
                None,
            ),
    {
        attachment::set_belong_to(storages, area_tag_to_store_key(area_tag), groups)
    }

    /// The groups that the area that `area_tag` names belongs to, in
    /// increasing order; none when the tag does not resolve.
    pub fn belong_to(storages: &ServersStorage, area_tag: PhysicsAreaTag) -> (groups: Vec<
        CollisionGroup,
    >)
        requires
            storages.wf(),
            area_tag.is_key(),
        ensures
            storages@.bodies.map.contains_key(area_tag.key()) ==> lists_groups(
                groups@,
                groups_membership(storages@.bodies.map[area_tag.key()].np_collision_groups),
            ),
            !storages@.bodies.map.contains_key(area_tag.key()) ==> groups@.len() == 0,
    {
        attachment::belong_to(storages, area_tag_to_store_key(area_tag))
    }

    /// Makes the area that `area_tag` names collide with the groups `groups`
    /// only. The groups that it belongs to stay; the area's collider gets
    /// the new filter.
    pub fn set_collide_with(
        storages: &mut ServersStorage,
        area_tag: PhysicsAreaTag,
        groups: Vec<CollisionGroup>,
    )
        requires
            old(storages).wf(),
            area_tag.is_key(),
        ensures
            final(storages).wf(),
            old(storages)@.consistent() ==> final(storages)@.consistent(),
            final(storages).one_step_from(old(storages)),
            old(storages)@.regrouped_to(
                final(storages)@,
                area_tag.key(),
                None,
                Some(group_ids(groups@)),
            ),
    {
        attachment::set_collide_with(storages, area_tag_to_store_key(area_tag), groups)
    }

    /// The groups that the area that `area_tag` names collides with, in
    /// increasing order; none when the tag does not resolve.
    pub fn collide_with(storages: &ServersStorage, area_tag: PhysicsAreaTag) -> (groups: Vec<
        CollisionGroup,
    >)
        requires
            storages.wf(),
            area_tag.is_key(),
        ensures
            storages@.bodies.map.contains_key(area_tag.key()) ==> lists_groups(
                groups@,
                groups_whitelist(storages@.bodies.map[area_tag.key()].np_collision_groups),
            ),
            !storages@.bodies.map.contains_key(area_tag.key()) ==> groups@.len() == 0,
    {
        attachment::collide_with(storages, area_tag_to_store_key(area_tag))
    }

    /// The overlap events that the area that `area_tag` names gathered in
    /// the last step, in the order in which they were found; none when the
    /// tag does not resolve to an area.
    pub fn overlap_events(storages: &ServersStorage, area_tag: PhysicsAreaTag) -> (events: Vec<
        OverlapEvent,
    >)
        requires
            storages.wf(),
            area_tag.is_key(),
        ensures
            events@ == (if storages@.bodies.map.contains_key(area_tag.key()) {
                storages@.bodies.map[area_tag.key()].overlaps()
            } else {
                Seq::empty()
            }),
    {
        let area_key = area_tag_to_store_key(area_tag);
        let mut events: Vec<OverlapEvent> = Vec::new();
        if let Some(area) = storages.bodies.get_body(area_key) {
            if let BodyData::Area(e) = &area.body_data {
                let mut i: usize = 0;
                while i < e.len()
                    invariant
                        i <= e.len(),
                        events@ == e@.take(i as int),
                    decreases e.len() - i,
                {
                    events.push(e[i]);
                    proof {
                        assert(e@.take(i + 1) =~= e@.take(i as int).push(e[i as int]));
                    }
                    i += 1;
                }
                proof {
                    assert(e@.take(i as int) =~= e@);
                }
            }
        }
        events
    }
}

/// Whether `body` is the area that `desc` describes, stored under `key`.
pub open spec fn area_made_from(body: BodyView, key: StoreKey, desc: AreaDesc) -> bool {
    &&& body == (BodyView {
        self_key: Some(key),
        np_body: NpRigidBody {
            status: BodyMode::Static,
            kinematic_translations: AxisLocks { x: false, y: false, z: false },
            kinematic_rotations: AxisLocks { x: false, y: false, z: false },
            activated: false,
        },
        body_data: BodyDataView::Area(Seq::empty()),
        collider_key: None,
        shape_key: None,
        entity: None,
        np_collision_groups: body.np_collision_groups,
    })
    &&& filters(body.np_collision_groups, group_ids(desc.belong_to@), group_ids(desc.collide_with@))
}

} // verus!
