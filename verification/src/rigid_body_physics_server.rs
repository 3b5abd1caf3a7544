//! The lifecycle of rigid bodies: creation, destruction, shapes, entities,
//! modes, locks, collision groups and contact reports.

use crate::attachment::ServerError;
use crate::attachment::body_dropped_in;
use crate::attachment::collider_of;
use crate::attachment::filters;
use crate::attachment::rigid_collider_desc;
use crate::attachment::user_data_of;
use crate::attachment;
use crate::body::Body;
use crate::body::BodyData;
use crate::body::BodyDataView;
use crate::body::BodyView;
use crate::body::NpRigidBody;
use crate::body_storage::BodyStorage;
use crate::collider::Collider;
use crate::collider::ColliderDesc;
use crate::collider_storage::ColliderStorage;
use crate::consistency::lemma_body_created;
use crate::consistency::lemma_locked;
use crate::consistency::lemma_report_count_set;
use crate::consistency::lemma_status_set;
use crate::conversors::collision_group_conversor::group_ids;
use crate::conversors::collision_group_conversor::groups_membership;
use crate::conversors::collision_group_conversor::groups_whitelist;
use crate::conversors::collision_group_conversor::lists_groups;
use crate::conversors::collision_group_conversor::to_nphysics;
use crate::conversors::rigid_tag_to_store_key;
use crate::conversors::shape_tag_to_store_key;
use crate::conversors::store_key_to_rigid_tag;
use crate::conversors::store_key_to_shape_tag;
use crate::objects::AxisLocks;
use crate::objects::BodyMode;
use crate::objects::CollisionGroup;
use crate::objects::ContactEvent;
use crate::objects::PhysicsRigidBodyTag;
use crate::objects::PhysicsShapeTag;
use crate::objects::RigidBodyDesc;
use crate::servers_storage::ServersStorage;
use crate::servers_storage::World;
use crate::shape::RigidShape;
use crate::shape::shape_views;
use crate::shape::unregister;
use crate::storage::Storage;
use crate::storage::StoreKey;
use crate::utils::ObjectType;
use crate::watch_list::find_watched;
use crate::watch_list::lemma_watch_updated;
use crate::watch_list::sorted;
use crate::watch_list::watch_updated;
use amethyst_core::ecs::Entity;
use vstd::prelude::*;

verus! {

/// The server of rigid bodies.
pub struct RBodyNpServer {}

// These functions serve the other servers too.

impl RBodyNpServer {
    /// The server. It holds nothing: every operation is handed the tables
    /// that it works on.
    pub fn new() -> (server: RBodyNpServer) {
        RBodyNpServer {  }
    }

    /// Drops the rigid body that `body_tag` names: detaches its shape, drops
    /// its collider and frees its slot.
    pub fn drop_body(
        body_tag: PhysicsRigidBodyTag,
        bodies_storage: &mut BodyStorage,
        colliders_storage: &mut ColliderStorage,
        shapes_storage: &mut Storage<RigidShape>,
    )
        requires
            body_tag.is_key(),
            old(bodies_storage).wf(),
            old(bodies_storage)@.keyed(),
            old(bodies_storage).generation() < u64::MAX,
            old(colliders_storage).wf(),
            old(colliders_storage).generation() < u64::MAX,
            old(shapes_storage).wf(),
        ensures
            body_dropped_in(
                body_tag.key(),
                old(bodies_storage),
                final(bodies_storage),
                old(colliders_storage),
                final(colliders_storage),
                old(shapes_storage),
                final(shapes_storage),
            ),
    {
        attachment::drop_body(
            rigid_tag_to_store_key(body_tag),
            bodies_storage,
            colliders_storage,
            shapes_storage,
        )
    }

    /// Attaches `shape` to `body`: builds and stores the collider, registers
    /// the body on the shape, and records the shape on the body.
    pub fn install_shape(
        body: &mut Body,
        shape: &mut RigidShape,
        collider_desc: &ColliderDesc,
        colliders: &mut ColliderStorage,
    )
        requires
            old(body).self_key is Some,
            old(colliders).wf(),
            old(colliders).count() < usize::MAX,
        ensures
            final(body).collider_key is Some,
            final(body)@ == (BodyView {
                collider_key: final(body).collider_key,
                shape_key: old(shape).self_key,
                ..old(body)@
            }),
            final(shape)@ == old(shape)@.registered(old(body).self_key->0),
            final(colliders).after_insert(
                old(colliders),
                final(body).collider_key->0,
                collider_of(*collider_desc, ObjectType::RigidBody, old(body)@),
            ),
    {
        attachment::install_shape(ObjectType::RigidBody, body, shape, collider_desc, colliders)
    }

    /// Detaches `body` from its shape: if the body names a shape, the body
    /// is unregistered from it, where the shape still exists, and the body
    /// forgets the shape; then the body's collider is dropped.
    pub fn remove_shape(
        body: &mut Body,
        shapes: &mut Storage<RigidShape>,
        colliders: &mut ColliderStorage,
    )
        requires
            old(body).shape_key is Some ==> old(body).self_key is Some,
            old(shapes).wf(),
            old(colliders).wf(),
            old(colliders).generation() < u64::MAX,
        ensures
            final(body)@ == (BodyView { shape_key: None, collider_key: None, ..old(body)@ }),
            final(shapes).same_keys(old(shapes)),
            shape_views(*final(shapes)) == unregister(
                shape_views(*old(shapes)),
                old(body).shape_key,
                old(body).self_key,
            ),
            final(colliders).after_drop(old(colliders), old(body).collider_key),
    {
        attachment::remove_shape(body, shapes, colliders)
    }

    /// Builds the collider that `collider_desc` gives for `body`, stores it
    /// and records its key on the body.
    pub fn install_collider(
        body: &mut Body,
        collider_desc: &ColliderDesc,
        colliders: &mut ColliderStorage,
    )
        requires
            old(body).self_key is Some,
            old(colliders).wf(),
            old(colliders).count() < usize::MAX,
        ensures
            final(body).collider_key is Some,
            final(body)@ == (BodyView { collider_key: final(body).collider_key, ..old(body)@ }),
            final(colliders).after_insert(
                old(colliders),
                final(body).collider_key->0,
                collider_of(*collider_desc, ObjectType::RigidBody, old(body)@),
            ),
    {
        attachment::install_collider(ObjectType::RigidBody, body, collider_desc, colliders)
    }

    /// Just drops the collider of `body`.
    pub fn drop_collider(body: &mut Body, colliders: &mut ColliderStorage)
        requires
            old(colliders).wf(),
            old(colliders).generation() < u64::MAX,
        ensures
            final(body)@ == (BodyView { collider_key: None, ..old(body)@ }),
            final(colliders).after_drop(old(colliders), old(body).collider_key),
    {
        attachment::drop_collider(body, colliders)
    }

    /// Records the rigid body `body` as the owner of `collider`.
    pub fn update_user_data(collider: &mut Collider, body: &Body)
        requires
            body.self_key is Some,
        ensures
            *final(collider) == (Collider {
                user_data: Some(user_data_of(ObjectType::RigidBody, body@)),
                ..*old(collider)
            }),
    {
        attachment::update_user_data(ObjectType::RigidBody, collider, body)
    }

    /// Describes the collider of the rigid body `body` with the shape
    /// `shape`: the body's collision filter and material, and a density of
    /// one, or of zero where the geometry is concave.
    pub fn create_collider_desc(body: &Body, shape: &RigidShape) -> (desc: ColliderDesc)
        ensures
            desc == rigid_collider_desc(body@, shape@),
    {
        attachment::create_collider_desc(ObjectType::RigidBody, body, shape)
    }

    /// Wakes the body under `body_key`, if there is one.
    pub fn active_body(body_key: StoreKey, bodies: &mut BodyStorage)
        requires
            old(bodies).wf(),
        ensures
            final(bodies).wf(),
            final(bodies)@ == old(bodies)@.activated(body_key),
            final(bodies).generation() == old(bodies).generation(),
            final(bodies).count() == old(bodies).count(),
            final(bodies).follows(old(bodies)),
    {
        if let Some(body) = bodies.get_body_mut(body_key) {
            body.activate();
        }
    }

    /// Brings the watch-list in line with `body`: a rigid body is on the
    /// list if and only if it reports contacts. An area changes nothing.
    pub fn update_contacts_watcher(body: &mut Body, contacts_storage: &mut Vec<StoreKey>)
        requires
            old(body).body_data is Rigid ==> old(body).self_key is Some,
            sorted(old(contacts_storage)@),
        ensures
            *final(body) == *old(body),
            sorted(final(contacts_storage)@),
            final(contacts_storage)@ == (if old(body).body_data is Rigid {
                watch_updated(
                    old(contacts_storage)@,
                    old(body).self_key->0,
                    old(body)@.report_count(),
                )
            } else {
                old(contacts_storage)@
            }),
    {
        if let BodyData::Rigid { contacts_to_report, .. } = body.body_data {
            let key = body.self_key.unwrap();
            proof {
                lemma_watch_updated(contacts_storage@, key, contacts_to_report);
            }
            let (found, i) = find_watched(contacts_storage, key);
            if found {
                if contacts_to_report == 0 {
                    // Removes the entry of the body.
                    let _ = contacts_storage.remove(i);
                }
            } else {
                if contacts_to_report != 0 {
                    // Creates the entry of the body, at its place.
                    contacts_storage.insert(i, key);
                }
            }
        }
    }

    /// Hands the collision filter of `body` on to its collider, where the
    /// body has one that exists.
    pub fn update_collider_collision_groups(colliders: &mut ColliderStorage, body: &Body)
        requires
            old(colliders).wf(),
        ensures
            final(colliders).wf(),
            final(colliders).generation() == old(colliders).generation(),
            final(colliders).count() == old(colliders).count(),
            final(colliders).follows(old(colliders)),
            final(colliders)@ == old(colliders)@.regrouped(
                body.collider_key,
                body.np_collision_groups,
            ),
    {
        attachment::update_collider_collision_groups(colliders, body)
    }
}

// What callers ask of rigid bodies.

impl RBodyNpServer {
    /// Creates a rigid body as `body_desc` describes it, with no shape, no
    /// collider and no entity, and returns its tag. The body enters the
    /// watch-list if it reports contacts.
    pub fn create(storages: &mut ServersStorage, body_desc: &RigidBodyDesc) -> (tag:
        PhysicsRigidBodyTag)
        requires
            old(storages).wf(),
            old(storages).room_for_body(),
        ensures
            final(storages).wf(),
            old(storages)@.consistent() ==> final(storages)@.consistent(),
            final(storages).one_step_from(old(storages)),
            tag.is_key(),
            !old(storages)@.bodies.map.contains_key(tag.key()),
            !old(storages).bodies.retired(tag.key()),
            final(storages)@.bodies.map.contains_key(tag.key()),
            made_from(final(storages)@.bodies.map[tag.key()], tag.key(), *body_desc),
            final(storages)@ == old(storages)@.body_created(
                tag.key(),
                final(storages)@.bodies.map[tag.key()],
            ),
    {
        let np_rigid_body = NpRigidBody {
            status: body_desc.mode,
            kinematic_translations: AxisLocks::free(),
            kinematic_rotations: AxisLocks::free(),
            activated: false,
        };
        let cg = to_nphysics(body_desc.belong_to.as_slice(), body_desc.collide_with.as_slice());
        let b_key = storages.bodies.insert_body(
            Body::new_rigid_body(np_rigid_body, cg, body_desc.contacts_to_report),
        );
        // Initialize the body
        if let Some(body) = storages.bodies.get_body_mut(b_key) {
            body.self_key = Some(b_key);
            if let Some(rb) = body.rigid_body_mut() {
                rb.kinematic_translations = AxisLocks::new(
                    body_desc.lock_translation_x,
                    body_desc.lock_translation_y,
                    body_desc.lock_translation_z,
                );
            }
            if let Some(rb) = body.rigid_body_mut() {
                rb.kinematic_rotations = AxisLocks::new(
                    body_desc.lock_rotation_x,
                    body_desc.lock_rotation_y,
                    body_desc.lock_rotation_z,
                );
            }
            Self::update_contacts_watcher(body, &mut storages.watch_contacts);
        }
        proof {
            let made = storages@.bodies.map[b_key];
            assert(storages@.bodies =~= old(storages)@.bodies.with(b_key, made));
            if old(storages)@.consistent() {
                lemma_body_created(old(storages)@, b_key, made);
            }
        }
        store_key_to_rigid_tag(b_key)
    }

    /// Records `entity` for the rigid body that `body_tag` names, on the body
    /// and on its collider. Nothing happens when the tag does not resolve; a
    /// tag that resolves to an area is an error.
    pub fn set_entity(
        storages: &mut ServersStorage,
        body_tag: PhysicsRigidBodyTag,
        entity: Option<Entity>,
    ) -> (answer: Result<(), ServerError>)
        requires
            old(storages).wf(),
            body_tag.is_key(),
        ensures
            final(storages).wf(),
            old(storages)@.consistent() ==> final(storages)@.consistent(),
            final(storages).one_step_from(old(storages)),
            answer == old(storages)@.entity_set_answer(ObjectType::RigidBody, body_tag.key()),
            final(storages)@ == old(storages)@.entity_set(
                ObjectType::RigidBody,
                body_tag.key(),
                entity,
            ),
    {
        attachment::set_entity(
            ObjectType::RigidBody,
            storages,
            rigid_tag_to_store_key(body_tag),
            entity,
        )
    }

    /// The entity recorded for the body that `body_tag` names; none when the
    /// tag does not resolve.
    pub fn entity(storages: &ServersStorage, body_tag: PhysicsRigidBodyTag) -> (entity: Option<
        Entity,
    >)
        requires
            storages.wf(),
            body_tag.is_key(),
        ensures
            entity == (if storages@.bodies.map.contains_key(body_tag.key()) {
                storages@.bodies.map[body_tag.key()].entity
            } else {
                None
            }),
    {
        attachment::entity(storages, rigid_tag_to_store_key(body_tag))
    }

    /// Sets the shape of the rigid body that `body_tag` names; `None` leaves
    /// the body without a shape.
    pub fn set_shape(
        storages: &mut ServersStorage,
        body_tag: PhysicsRigidBodyTag,
        shape_tag: Option<PhysicsShapeTag>,
    ) -> (answer: Result<(), ServerError>)
        requires
            old(storages).wf(),
            old(storages).room_for_colliders(1),
            body_tag.is_key(),
            shape_tag is Some ==> shape_tag->0.is_key(),
        ensures
            final(storages).wf(),
            old(storages)@.consistent() ==> final(storages)@.consistent(),
            final(storages).one_step_from(old(storages)),
            answer == old(storages)@.shape_set_answer(body_tag.key(), shape_key_of(shape_tag)),
            old(storages)@.shape_set_to(
                final(storages)@,
                ObjectType::RigidBody,
                body_tag.key(),
                shape_key_of(shape_tag),
            ),
    {
        let body_key = rigid_tag_to_store_key(body_tag);
        let shape_key: Option<StoreKey> = match shape_tag {
            Some(tag) => Some(shape_tag_to_store_key(tag)),
            None => None,
        };
        attachment::set_shape(ObjectType::RigidBody, storages, body_key, shape_key)
    }

    /// The shape of the body that `body_tag` names; none when the tag does
    /// not resolve or the body has no shape.
    pub fn shape(storages: &ServersStorage, body_tag: PhysicsRigidBodyTag) -> (shape: Option<
        PhysicsShapeTag,
    >)
        requires
            storages.wf(),
            body_tag.is_key(),
        ensures
            shape_key_of(shape) == (if storages@.bodies.map.contains_key(body_tag.key()) {
                storages@.bodies.map[body_tag.key()].shape_key
            } else {
                None
            }),
            shape is Some ==> shape->0.is_key(),
    {
        match attachment::shape(storages, rigid_tag_to_store_key(body_tag)) {
            Some(key) => Some(store_key_to_shape_tag(key)),
            None => None,
        }
    }

    /// Sets the mode of the body that `body_tag` names.
    pub fn set_mode(storages: &mut ServersStorage, body_tag: PhysicsRigidBodyTag, mode: BodyMode)
        requires
            old(storages).wf(),
            body_tag.is_key(),
        ensures
            final(storages).wf(),
            old(storages)@.consistent() ==> final(storages)@.consistent(),
            final(storages).one_step_from(old(storages)),
            final(storages)@ == old(storages)@.status_set(body_tag.key(), mode),
    {
        proof {
            if old(storages)@.consistent() {
                lemma_status_set(old(storages)@, body_tag.key(), mode);
            }
        }
        let body_key = rigid_tag_to_store_key(body_tag);
        if let Some(body) = storages.bodies.get_body_mut(body_key) {
            body.np_body.status = mode;
        }
    }

    /// The mode of the body that `body_tag` names; `Disabled` when the tag
    /// does not resolve.
    pub fn mode(storages: &ServersStorage, body_tag: PhysicsRigidBodyTag) -> (mode: BodyMode)
        requires
            storages.wf(),
            body_tag.is_key(),
        ensures
            mode == (if storages@.bodies.map.contains_key(body_tag.key()) {
                storages@.bodies.map[body_tag.key()].np_body.status
            } else {
                BodyMode::Disabled
            }),
    {
        let body_key = rigid_tag_to_store_key(body_tag);
        match storages.bodies.get_body(body_key) {
            Some(body) => body.np_body.status,
            None => BodyMode::Disabled,
        }
    }

    /// Makes the body that `body_tag` names belong to the groups `groups`
    /// only. The groups that it collides with stay; the body's collider
    /// gets the new filter.
    pub fn set_belong_to(
        storages: &mut ServersStorage,
        body_tag: PhysicsRigidBodyTag,
        groups: Vec<CollisionGroup>,
    )
        requires
            old(storages).wf(),
            body_tag.is_key(),
        ensures
            final(storages).wf(),
            old(storages)@.consistent() ==> final(storages)@.consistent(),
            final(storages).one_step_from(old(storages)),
            old(storages)@.regrouped_to(
                final(storages)@,
                body_tag.key(),
                Some(group_ids(groups@)),
                None,
            ),
    {
        attachment::set_belong_to(storages, rigid_tag_to_store_key(body_tag), groups)
    }

    /// The groups that the body that `body_tag` names belongs to, in
    /// increasing order; none when the tag does not resolve.
    pub fn belong_to(storages: &ServersStorage, body_tag: PhysicsRigidBodyTag) -> (groups: Vec<
        CollisionGroup,
    >)
        requires
            storages.wf(),
            body_tag.is_key(),
        ensures
            storages@.bodies.map.contains_key(body_tag.key()) ==> lists_groups(
                groups@,
                groups_membership(storages@.bodies.map[body_tag.key()].np_collision_groups),
            ),
            !storages@.bodies.map.contains_key(body_tag.key()) ==> groups@.len() == 0,
    {
        attachment::belong_to(storages, rigid_tag_to_store_key(body_tag))
    }

    /// Makes the body that `body_tag` names collide with the groups `groups`
    /// only. The groups that it belongs to stay; the body's collider gets
    /// the new filter.
    pub fn set_collide_with(
        storages: &mut ServersStorage,
        body_tag: PhysicsRigidBodyTag,
        groups: Vec<CollisionGroup>,
    )
        requires
            old(storages).wf(),
            body_tag.is_key(),
        ensures
            final(storages).wf(),
            old(storages)@.consistent() ==> final(storages)@.consistent(),
            final(storages).one_step_from(old(storages)),
            old(storages)@.regrouped_to(
                final(storages)@,
                body_tag.key(),
                None,
                Some(group_ids(groups@)),
            ),
    {
        attachment::set_collide_with(storages, rigid_tag_to_store_key(body_tag), groups)
    }

    /// The groups that the body that `body_tag` names collides with, in
    /// increasing order; none when the tag does not resolve.
    pub fn collide_with(storages: &ServersStorage, body_tag: PhysicsRigidBodyTag) -> (groups: Vec<
        CollisionGroup,
    >)
        requires
            storages.wf(),
            body_tag.is_key(),
        ensures
            storages@.bodies.map.contains_key(body_tag.key()) ==> lists_groups(
                groups@,
                groups_whitelist(storages@.bodies.map[body_tag.key()].np_collision_groups),
            ),
            !storages@.bodies.map.contains_key(body_tag.key()) ==> groups@.len() == 0,
    {
        attachment::collide_with(storages, rigid_tag_to_store_key(body_tag))
    }

    /// Locks the translation of the body that `body_tag` names along the
    /// axes `axis`.
    pub fn set_lock_translation(
        storages: &mut ServersStorage,
        body_tag: PhysicsRigidBodyTag,
        axis: AxisLocks,
    )
        requires
            old(storages).wf(),
            body_tag.is_key(),
        ensures
            final(storages).wf(),
            old(storages)@.consistent() ==> final(storages)@.consistent(),
            final(storages).one_step_from(old(storages)),
            final(storages)@ == old(storages)@.translation_locked(body_tag.key(), axis),
    {
        proof {
            if old(storages)@.consistent() {
                lemma_locked(old(storages)@, body_tag.key(), axis);
            }
        }
        let body_key = rigid_tag_to_store_key(body_tag);
        if let Some(body) = storages.bodies.get_body_mut(body_key) {
            if let Some(rb) = body.rigid_body_mut() {
                rb.kinematic_translations = axis;
            }
        }
    }

    /// The translation locks of the body that `body_tag` names; none when
    /// the tag does not resolve.
    pub fn lock_translation(storages: &ServersStorage, body_tag: PhysicsRigidBodyTag) -> (axis:
        AxisLocks)
        requires
            storages.wf(),
            body_tag.is_key(),
        ensures
            axis == (if storages@.bodies.map.contains_key(body_tag.key()) {
                storages@.bodies.map[body_tag.key()].np_body.kinematic_translations
            } else {
                AxisLocks { x: false, y: false, z: false }
            }),
    {
        let body_key = rigid_tag_to_store_key(body_tag);
        if let Some(body) = storages.bodies.get_body(body_key) {
            if let Some(rb) = body.rigid_body() {
                return rb.kinematic_translations;
            }
        }
        AxisLocks::free()
    }

    /// Locks the rotation of the body that `body_tag` names around the axes
    /// `axis`.
    pub fn set_lock_rotation(
        storages: &mut ServersStorage,
        body_tag: PhysicsRigidBodyTag,
        axis: AxisLocks,
    )
        requires
            old(storages).wf(),
            body_tag.is_key(),
        ensures
            final(storages).wf(),
            old(storages)@.consistent() ==> final(storages)@.consistent(),
            final(storages).one_step_from(old(storages)),
            final(storages)@ == old(storages)@.rotation_locked(body_tag.key(), axis),
    {
        proof {
            if old(storages)@.consistent() {
                lemma_locked(old(storages)@, body_tag.key(), axis);
            }
        }
        let body_key = rigid_tag_to_store_key(body_tag);
        if let Some(body) = storages.bodies.get_body_mut(body_key) {
            if let Some(rb) = body.rigid_body_mut() {
                rb.kinematic_rotations = axis;
            }
        }
    }

    /// The rotation locks of the body that `body_tag` names; none when the
    /// tag does not resolve.
    pub fn lock_rotation(storages: &ServersStorage, body_tag: PhysicsRigidBodyTag) -> (axis:
        AxisLocks)
        requires
            storages.wf(),
            body_tag.is_key(),
        ensures
            axis == (if storages@.bodies.map.contains_key(body_tag.key()) {
                storages@.bodies.map[body_tag.key()].np_body.kinematic_rotations
            } else {
                AxisLocks { x: false, y: false, z: false }
            }),
    {
        let body_key = rigid_tag_to_store_key(body_tag);
        if let Some(body) = storages.bodies.get_body(body_key) {
            if let Some(rb) = body.rigid_body() {
                return rb.kinematic_rotations;
            }
        }
        AxisLocks::free()
    }

    /// Sets the number of contacts that the rigid body that `body_tag` names
    /// reports. With a count of zero the body leaves the watch-list and its
    /// contacts are forgotten; with another count it enters the list.
    pub fn set_contacts_to_report(
        storages: &mut ServersStorage,
        body_tag: PhysicsRigidBodyTag,
        count: usize,
    )
        requires
            old(storages).wf(),
            body_tag.is_key(),
        ensures
            final(storages).wf(),
            old(storages)@.consistent() ==> final(storages)@.consistent(),
            final(storages).one_step_from(old(storages)),
            final(storages)@ == old(storages)@.report_count_set(body_tag.key(), count),
    {
        proof {
            if old(storages)@.consistent() {
                lemma_report_count_set(old(storages)@, body_tag.key(), count);
            }
        }
        let body_key = rigid_tag_to_store_key(body_tag);
        if let Some(body) = storages.bodies.get_body_mut(body_key) {
            if let BodyData::Rigid { contacts_to_report, contacts } = &mut body.body_data {
                *contacts_to_report = count;
                if count == 0 {
                    contacts.clear();
                }
            }
            Self::update_contacts_watcher(body, &mut storages.watch_contacts);
        }
    }

    /// The number of contacts that the rigid body that `body_tag` names
    /// reports; zero when the tag does not resolve to a rigid body.
    pub fn contacts_to_report(storages: &ServersStorage, body_tag: PhysicsRigidBodyTag) -> (count:
        usize)
        requires
            storages.wf(),
            body_tag.is_key(),
        ensures
            count == (if storages@.bodies.map.contains_key(body_tag.key()) {
                storages@.bodies.map[body_tag.key()].report_count()
            } else {
                0
            }),
    {
        let body_key = rigid_tag_to_store_key(body_tag);
        if let Some(body) = storages.bodies.get_body(body_key) {
            if let BodyData::Rigid { contacts_to_report, .. } = &body.body_data {
                *contacts_to_report
            } else {
                0
            }
        } else {
            0
        }
    }

    /// Fills `out_contacts` with the contacts of the rigid body that
    /// `body_tag` names; it is left empty when the tag does not resolve to a
    /// rigid body.
    pub fn contact_events(
        storages: &ServersStorage,
        body_tag: PhysicsRigidBodyTag,
        out_contacts: &mut Vec<ContactEvent>,
    )
        requires
            storages.wf(),
            body_tag.is_key(),
        ensures
            final(out_contacts)@ == (if storages@.bodies.map.contains_key(body_tag.key()) {
                storages@.bodies.map[body_tag.key()].contacts()
            } else {
                Seq::empty()
            }),
    {
        let body_key = rigid_tag_to_store_key(body_tag);
        out_contacts.clear();
        if let Some(body) = storages.bodies.get_body(body_key) {
            if let BodyData::Rigid { contacts, .. } = &body.body_data {
                let mut i: usize = 0;
                while i < contacts.len()
                    invariant
                        i <= contacts.len(),
                        out_contacts@ == contacts@.take(i as int),
                    decreases contacts.len() - i,
                {
                    out_contacts.push(contacts[i]);
                    proof {
                        assert(contacts@.take(i + 1) =~= contacts@.take(i as int).push(
                            contacts[i as int],
                        ));
                    }
                    i += 1;
                }
                proof {
                    assert(contacts@.take(i as int) =~= contacts@);
                }
            }
        }
    }
}

/// Whether `body` is the rigid body that `desc` describes, stored under
/// `key`.
pub open spec fn made_from(body: BodyView, key: StoreKey, desc: RigidBodyDesc) -> bool {
    &&& body == (BodyView {
        self_key: Some(key),
        np_body: NpRigidBody {
            status: desc.mode,
            kinematic_translations: AxisLocks {
                x: desc.lock_translation_x,
                y: desc.lock_translation_y,
                z: desc.lock_translation_z,
            },
            kinematic_rotations: AxisLocks {
                x: desc.lock_rotation_x,
                y: desc.lock_rotation_y,
                z: desc.lock_rotation_z,
            },
            activated: false,
        },
        body_data: BodyDataView::Rigid {
            contacts_to_report: desc.contacts_to_report,
            contacts: Seq::empty(),
        },
        collider_key: None,
        shape_key: None,
        entity: None,
        np_collision_groups: body.np_collision_groups,
    })
    &&& filters(body.np_collision_groups, group_ids(desc.belong_to@), group_ids(desc.collide_with@))
}

/// Whether `groups` is the filter of an object that belongs to the groups
/// `belong_to` and collides with the groups `collide_with`: it blacklists
/// the groups that it belongs to but does not collide with.
impl World {
    /// The world after the rigid body `made` was stored under the new key
    /// `body`: it enters the watch-list if it reports contacts.
    pub open spec fn body_created(self, body: StoreKey, made: BodyView) -> World {
        World {
            bodies: self.bodies.with(body, made),
            watch_contacts: if made.body_data is Rigid {
                watch_updated(self.watch_contacts, body, made.report_count())
            } else {
                self.watch_contacts
            },
            ..self
        }
    }

    /// The world after the mode of the body under `body`, if it exists, was
    /// set.
    pub open spec fn status_set(self, body: StoreKey, mode: BodyMode) -> World {
        if self.bodies.map.contains_key(body) {
            World { bodies: self.bodies.with(body, self.bodies.map[body].with_status(mode)), ..self }
        } else {
            self
        }
    }

    /// The world after the translation locks of the body under `body`, if it
    /// exists, were set.
    pub open spec fn translation_locked(self, body: StoreKey, locks: AxisLocks) -> World {
        if self.bodies.map.contains_key(body) {
            World {
                bodies: self.bodies.with(body, self.bodies.map[body].with_translation_locks(locks)),
                ..self
            }
        } else {
            self
        }
    }

    /// The world after the rotation locks of the body under `body`, if it
    /// exists, were set.
    pub open spec fn rotation_locked(self, body: StoreKey, locks: AxisLocks) -> World {
        if self.bodies.map.contains_key(body) {
            World {
                bodies: self.bodies.with(body, self.bodies.map[body].with_rotation_locks(locks)),
                ..self
            }
        } else {
            self
        }
    }

    /// The world after the number of contacts that the body under `body`
    /// reports was set, if the body exists and is a rigid body: the
    /// watch-list follows, and a count of zero empties the body's contacts.
    pub open spec fn report_count_set(self, body: StoreKey, count: usize) -> World {
        if self.bodies.map.contains_key(body) && self.bodies.map[body].body_data is Rigid {
            World {
                bodies: self.bodies.with(body, self.bodies.map[body].with_report_count(count)),
                watch_contacts: watch_updated(self.watch_contacts, body, count),
                ..self
            }
        } else {
            self
        }
    }
}

/// The key that an optional shape tag encodes.
pub open spec fn shape_key_of(tag: Option<PhysicsShapeTag>) -> Option<StoreKey> {
    match tag {
        Some(tag) => Some(tag.key()),
        None => None,
    }
}

} // verus!
