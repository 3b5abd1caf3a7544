//! The attachment of shapes and colliders to bodies, which is the same for
//! rigid bodies and for areas, and what else the two kinds of body share:
//! entities, collision groups and destruction.

use crate::body::Body;
use crate::body::BodyData;
use crate::body::BodyDataView;
use crate::body::BodyView;
use crate::body_storage::BodyStorage;
use crate::collider::BodyPartHandle;
use crate::collider::Collider;
use crate::collider::ColliderDesc;
use crate::collider::Density;
use crate::collider_storage::ColliderStorage;
use crate::collider_storage::ColliderTable;
use crate::consistency::lemma_entity_set;
use crate::consistency::lemma_groups_set;
use crate::consistency::lemma_shape_set;
use crate::conversors::collision_group_conversor::from_nphysics;
use crate::conversors::collision_group_conversor::group_ids;
use crate::conversors::collision_group_conversor::groups_blacklist;
use crate::conversors::collision_group_conversor::groups_membership;
use crate::conversors::collision_group_conversor::groups_whitelist;
use crate::conversors::collision_group_conversor::lists_groups;
use crate::conversors::collision_group_conversor::to_nphysics;
use crate::objects::COLLISION_GROUP_BOUND;
use crate::objects::CollisionGroup;
use crate::servers_storage::ServersStorage;
use crate::servers_storage::World;
use crate::shape::RigidShape;
use crate::shape::ShapeView;
use crate::shape::shape_views;
use crate::shape::unregister;
use crate::storage::Storage;
use crate::storage::StoreKey;
use crate::utils::ObjectType;
use crate::utils::UserData;
use amethyst_core::ecs::Entity;
use ncollide3d::pipeline::object::CollisionGroups;
use vstd::prelude::*;

verus! {

/// What a collider records about a body of kind `kind`.
pub open spec fn user_data_of(kind: ObjectType, body: BodyView) -> UserData {
    UserData { object_type: kind, store_key: body.self_key->0, entity: body.entity }
}

/// The collider that `desc` gives for a body of kind `kind`: built on part
/// zero of the body, with the body recorded as its owner.
pub open spec fn collider_of(desc: ColliderDesc, kind: ObjectType, body: BodyView) -> Collider {
    Collider {
        user_data: Some(user_data_of(kind, body)),
        ..desc.built(BodyPartHandle(body.self_key->0, 0))
    }
}

/// The description of the collider of a rigid body with the given shape: the
/// body's collision filter and material, and a density of one unless the
/// geometry is concave.
pub open spec fn rigid_collider_desc(body: BodyView, shape: ShapeView) -> ColliderDesc {
    ColliderDesc {
        shape: shape.self_key,
        collision_groups: body.np_collision_groups,
        density: if shape.shape_desc.concave() {
            Density::Zero
        } else {
            Density::One
        },
        sensor: false,
        body_material: true,
    }
}

/// The description of the collider of an area with the given shape: the
/// area's collision filter, no density, a sensor.
pub open spec fn area_collider_desc(body: BodyView, shape: ShapeView) -> ColliderDesc {
    ColliderDesc {
        shape: shape.self_key,
        collision_groups: body.np_collision_groups,
        density: Density::Zero,
        sensor: true,
        body_material: false,
    }
}

/// The description of the collider of a body of kind `kind`.
pub open spec fn collider_desc_of(kind: ObjectType, body: BodyView, shape: ShapeView) -> ColliderDesc {
    match kind {
        ObjectType::RigidBody => rigid_collider_desc(body, shape),
        ObjectType::Area => area_collider_desc(body, shape),
    }
}

impl ColliderStorage {
    /// Whether `self` is `before` after the collider that `key` names, if it
    /// names one, was dropped.
    pub open spec fn after_drop(&self, before: &ColliderStorage, key: Option<StoreKey>) -> bool {
        let hit = key is Some && before@.map.contains_key(key->0);
        &&& self.wf()
        &&& self@ == before@.dropped_if(key)
        &&& self.generation() == before.generation() + (if hit {
            1int
        } else {
            0int
        })
        &&& self.count() == before.count() - (if hit {
            1int
        } else {
            0int
        })
        &&& self.follows(before)
    }

    /// Whether `self` is `before` after `collider` was inserted under the new
    /// key `key`.
    pub open spec fn after_insert(&self, before: &ColliderStorage, key: StoreKey, collider: Collider) -> bool {
        &&& self.wf()
        &&& !before@.map.contains_key(key)
        &&& key.generation == before.generation()
        &&& self@ == before@.added(key, collider)
        &&& self.generation() == before.generation()
        &&& self.count() == before.count() + 1
        &&& self.follows(before)
    }
}

impl ColliderTable {
    /// The table after the collider that `key` names, if it names one, got
    /// the collision filter `groups`.
    pub open spec fn regrouped(self, key: Option<StoreKey>, groups: CollisionGroups) -> ColliderTable {
        if key is Some && self.map.contains_key(key->0) {
            self.with(key->0, Collider { collision_groups: groups, ..self.map[key->0] })
        } else {
            self
        }
    }
}

impl<T> Storage<T> {
    /// Whether `self` holds the same keys as `before`, after as many
    /// removals.
    pub open spec fn same_keys(&self, before: &Storage<T>) -> bool {
        &&& self.wf()
        &&& self@.dom() == before@.dom()
        &&& self.generation() == before.generation()
        &&& self.count() == before.count()
        &&& self.follows(before)
    }
}

impl World {
    /// The world after the body under `body`, which exists, was detached
    /// from its shape and lost its collider.
    pub open spec fn shape_removed(self, body: StoreKey) -> World {
        let b = self.bodies.map[body];
        World {
            bodies: self.bodies.with(body, BodyView { shape_key: None, collider_key: None, ..b }),
            shapes: unregister(self.shapes, b.shape_key, b.self_key),
            colliders: self.colliders.dropped_if(b.collider_key),
            ..self
        }
    }

    /// The world after the shape under `shape` was attached to the body
    /// under `body`, both of which exist, with a collider for a body of kind
    /// `kind` stored under `collider`.
    pub open spec fn shape_installed(
        self,
        kind: ObjectType,
        body: StoreKey,
        shape: StoreKey,
        collider: StoreKey,
    ) -> World {
        let b = self.bodies.map[body];
        let s = self.shapes[shape];
        World {
            bodies: self.bodies.with(
                body,
                BodyView { collider_key: Some(collider), shape_key: s.self_key, ..b },
            ),
            shapes: self.shapes.insert(shape, s.registered(b.self_key->0)),
            colliders: self.colliders.added(
                collider,
                collider_of(collider_desc_of(kind, b, s), kind, b),
            ),
            ..self
        }
    }

    /// Whether setting the shape of the body under `body` to `shape` detaches
    /// the body from the shape that it has.
    pub open spec fn shape_set_detaches(self, body: StoreKey, shape: Option<StoreKey>) -> bool {
        self.bodies.map.contains_key(body) && self.bodies.map[body].shape_key != shape
            && self.bodies.map[body].shape_key is Some
    }

    /// Whether setting the shape of the body under `body` to `shape` attaches
    /// a shape: the body exists, it does not have this shape yet, and the
    /// shape exists.
    pub open spec fn shape_set_attaches(self, body: StoreKey, shape: Option<StoreKey>) -> bool {
        self.bodies.map.contains_key(body) && self.bodies.map[body].shape_key != shape
            && shape is Some && self.shapes.contains_key(shape->0)
    }

    /// The world after the shape of the body under `body`, of kind `kind`,
    /// was set to `shape`. Nothing happens when the body does not exist or
    /// has this shape already. Otherwise the body is detached from the shape
    /// that it has, if any, and attached to `shape`, if that names a shape
    /// that exists, with a collider stored under `collider`.
    pub open spec fn shape_set(
        self,
        kind: ObjectType,
        body: StoreKey,
        shape: Option<StoreKey>,
        collider: StoreKey,
    ) -> World {
        let detached = if self.shape_set_detaches(body, shape) {
            self.shape_removed(body)
        } else {
            self
        };
        if self.shape_set_attaches(body, shape) {
            detached.shape_installed(kind, body, shape->0, collider)
        } else {
            detached
        }
    }

    /// The world after the body under `body` was dropped: if it exists, it
    /// is detached from its shape, loses its collider and is removed. A
    /// removal event is queued in either case.
    pub open spec fn body_dropped(self, body: StoreKey) -> World {
        let detached = if self.bodies.map.contains_key(body) {
            self.shape_removed(body)
        } else {
            self
        };
        World { bodies: detached.bodies.dropped(body), ..detached }
    }
}

impl ServersStorage {
    /// Whether `self` came from `before` by operations that together insert
    /// at most `n` objects into each table and remove at most `n` from each,
    /// and that give no retired key away again (see [`Storage::follows`]).
    pub open spec fn steps_from(&self, before: &ServersStorage, n: nat) -> bool {
        &&& self.bodies.count() <= before.bodies.count() + n
        &&& self.bodies.generation() <= before.bodies.generation() + n
        &&& self.colliders.count() <= before.colliders.count() + n
        &&& self.colliders.generation() <= before.colliders.generation() + n
        &&& self.joints.count() <= before.joints.count() + n
        &&& self.joints.generation() <= before.joints.generation() + n
        &&& self.shapes.count() <= before.shapes.count() + n
        &&& self.shapes.generation() <= before.shapes.generation() + n
        &&& self.bodies.follows(&before.bodies)
        &&& self.colliders.follows(&before.colliders)
        &&& self.joints.follows(&before.joints)
        &&& self.shapes.follows(&before.shapes)
    }

    /// No tag of a destroyed object ever resolves again. Whatever the servers
    /// do to a world, a key that is retired stays retired, and a key that was
    /// stored and is not stored any more is retired: it resolves to nothing,
    /// now and after any further operation, even when its slot holds another
    /// object.
    pub proof fn lemma_retired_for_good(&self, before: &ServersStorage, n: nat, key: StoreKey)
        requires
            self.steps_from(before, n),
        ensures
            before.bodies.retired(key) || (before@.bodies.map.contains_key(key)
                && !self@.bodies.map.contains_key(key)) ==> self.bodies.retired(key),
            before.colliders.retired(key) || (before@.colliders.map.contains_key(key)
                && !self@.colliders.map.contains_key(key)) ==> self.colliders.retired(key),
            before.joints.retired(key) || (before@.joints.map.contains_key(key)
                && !self@.joints.map.contains_key(key)) ==> self.joints.retired(key),
            before.shapes.retired(key) || (before.shapes@.contains_key(key)
                && !self.shapes@.contains_key(key)) ==> self.shapes.retired(key),
    {
    }

    /// Whether `self` came from `before` by an operation that inserts at
    /// most one object into each table and removes at most one from each.
    pub open spec fn one_step_from(&self, before: &ServersStorage) -> bool {
        self.steps_from(before, 1)
    }
}

/// Whether `groups` is the filter of an object that belongs to the groups
/// `belong_to` and collides with the groups `collide_with`: it blacklists
/// the groups that it belongs to but does not collide with.
pub open spec fn filters(groups: CollisionGroups, belong_to: Set<usize>, collide_with: Set<usize>) -> bool {
    &&& groups_membership(groups) == belong_to
    &&& groups_whitelist(groups) == collide_with
    &&& groups_blacklist(groups) == belong_to.difference(collide_with)
}

/// The groups of `set` that callers can name.
pub open spec fn nameable(set: Set<usize>) -> Set<usize> {
    set.filter(|g: usize| g < COLLISION_GROUP_BOUND)
}

/// Whether `after` is the filter `before` with the groups belonged to
/// replaced by `belong_to`, if given, and the groups collided with replaced
/// by `collide_with`, if given. What is not replaced is kept as far as
/// callers can name it.
pub open spec fn regrouped(
    before: CollisionGroups,
    after: CollisionGroups,
    belong_to: Option<Set<usize>>,
    collide_with: Option<Set<usize>>,
) -> bool {
    filters(
        after,
        match belong_to {
            Some(s) => s,
            None => nameable(groups_membership(before)),
        },
        match collide_with {
            Some(s) => s,
            None => nameable(groups_whitelist(before)),
        },
    )
}

/// A list of the nameable members of a set holds exactly those.
pub proof fn lemma_lists_groups(ids: Seq<CollisionGroup>, set: Set<usize>)
    requires
        lists_groups(ids, set),
    ensures
        group_ids(ids) == nameable(set),
{
    assert(group_ids(ids) =~= nameable(set));
}


impl World {
    /// The world after the body under `body`, if it exists, got the
    /// collision filter `groups`, and its collider with it.
    pub open spec fn groups_set(self, body: StoreKey, groups: CollisionGroups) -> World {
        if self.bodies.map.contains_key(body) {
            let b = self.bodies.map[body];
            World {
                bodies: self.bodies.with(body, BodyView { np_collision_groups: groups, ..b }),
                colliders: self.colliders.regrouped(b.collider_key, groups),
                ..self
            }
        } else {
            self
        }
    }
}

/// Whether two optional keys are equal.
pub fn same_key(a: Option<StoreKey>, b: Option<StoreKey>) -> (same: bool)
    ensures
        same == (a == b),
{
    match (a, b) {
        (Some(a), Some(b)) => a == b,
        (None, None) => true,
        _ => false,
    }
}

impl World {
    /// The world after `entity` was recorded for the body under `body`, if
    /// it exists and is of kind `kind`: on the body, and on its collider
    /// where the body has one that exists.
    pub open spec fn entity_set(self, kind: ObjectType, body: StoreKey, entity: Option<Entity>) -> World {
        if self.bodies.map.contains_key(body) && kind_of(self.bodies.map[body]) == kind {
            let b = BodyView { entity, ..self.bodies.map[body] };
            World {
                bodies: self.bodies.with(body, b),
                colliders: if b.collider_key is Some && self.colliders.map.contains_key(
                    b.collider_key->0,
                ) {
                    self.colliders.with(
                        b.collider_key->0,
                        Collider {
                            user_data: Some(user_data_of(kind, b)),
                            ..self.colliders.map[b.collider_key->0]
                        },
                    )
                } else {
                    self.colliders
                },
                ..self
            }
        } else {
            self
        }
    }
}

/// Why a server did not do, or not wholly do, what it was asked.
#[derive(Clone, Copy, Debug, PartialEq, Eq, Structural, Hash)]
pub enum ServerError {
    /// The body or area tag does not resolve.
    BodyNotFound,
    /// The tag resolves to a body of the other kind.
    WrongKind,
    /// The shape tag does not resolve.
    ShapeNotFound,
    /// The body names a collider that does not exist.
    ColliderNotFound,
}

impl World {
    /// What recording an entity for the body under `body` answers. A key
    /// that does not resolve is passed over in silence. A body of another
    /// kind than `kind` is an error, and so is a body whose collider does
    /// not exist, though its entity is recorded.
    pub open spec fn entity_set_answer(self, kind: ObjectType, body: StoreKey) -> Result<
        (),
        ServerError,
    > {
        if !self.bodies.map.contains_key(body) {
            Ok(())
        } else if kind_of(self.bodies.map[body]) != kind {
            Err(ServerError::WrongKind)
        } else if self.bodies.map[body].collider_key is Some && !self.colliders.map.contains_key(
            self.bodies.map[body].collider_key->0,
        ) {
            Err(ServerError::ColliderNotFound)
        } else {
            Ok(())
        }
    }

    /// What setting the shape of the body under `body` to `shape` answers:
    /// an error when the body does not exist, and when it is to get a shape
    /// that does not exist.
    pub open spec fn shape_set_answer(self, body: StoreKey, shape: Option<StoreKey>) -> Result<
        (),
        ServerError,
    > {
        if !self.bodies.map.contains_key(body) {
            Err(ServerError::BodyNotFound)
        } else if self.bodies.map[body].shape_key != shape && shape is Some
            && !self.shapes.contains_key(shape->0) {
            Err(ServerError::ShapeNotFound)
        } else {
            Ok(())
        }
    }
}

/// The kind of a body.
pub open spec fn kind_of(body: BodyView) -> ObjectType {
    match body.body_data {
        BodyDataView::Rigid { .. } => ObjectType::RigidBody,
        BodyDataView::Area(_) => ObjectType::Area,
    }
}

/// Whether the tables `bodies1`, `colliders1` and `shapes1` are the tables
/// `bodies0`, `colliders0` and `shapes0` after the body under `body` was
/// dropped: if it existed, it was unregistered from its shape, its collider
/// was dropped, and it was removed and its key retired. A removal event for
/// `body` is queued in either case.
pub open spec fn body_dropped_in(
    body: StoreKey,
    bodies0: &BodyStorage,
    bodies1: &BodyStorage,
    colliders0: &ColliderStorage,
    colliders1: &ColliderStorage,
    shapes0: &Storage<RigidShape>,
    shapes1: &Storage<RigidShape>,
) -> bool {
    let hit = bodies0@.map.contains_key(body);
    let gone = if hit {
        1int
    } else {
        0int
    };
    &&& bodies1.wf()
    &&& bodies1@ == bodies0@.dropped(body)
    &&& bodies1.generation() == bodies0.generation() + gone
    &&& bodies1.count() == bodies0.count() - gone
    &&& hit ==> bodies1.retired(body)
    &&& bodies1.follows(bodies0)
    &&& shapes1.same_keys(shapes0)
    &&& shape_views(*shapes1) == (if hit {
        unregister(shape_views(*shapes0), bodies0@.map[body].shape_key, bodies0@.map[body].self_key)
    } else {
        shape_views(*shapes0)
    })
    &&& colliders1.after_drop(
        colliders0,
        if hit {
            bodies0@.map[body].collider_key
        } else {
            None
        },
    )
}

impl World {
    /// Whether `after` is this world after the shape of the body under
    /// `body`, of kind `kind`, was set to `shape` (see [`World::shape_set`]),
    /// with a new key for the collider where a shape was attached.
    pub open spec fn shape_set_to(
        self,
        after: World,
        kind: ObjectType,
        body: StoreKey,
        shape: Option<StoreKey>,
    ) -> bool {
        exists|collider: StoreKey|
            {
                &&& self.shape_set_attaches(body, shape) ==> !self.colliders.map.contains_key(
                    collider,
                )
                &&& after == #[trigger] self.shape_set(kind, body, shape, collider)
            }
    }

    /// Whether `after` is this world after the groups of the body under
    /// `body` were set: those that it belongs to, if `belong_to` is given, or
    /// those that it collides with, if `collide_with` is given. The body's
    /// collider gets the new filter. Nothing happens when the body does not
    /// exist.
    pub open spec fn regrouped_to(
        self,
        after: World,
        body: StoreKey,
        belong_to: Option<Set<usize>>,
        collide_with: Option<Set<usize>>,
    ) -> bool {
        if self.bodies.map.contains_key(body) {
            &&& after.bodies.map.contains_key(body)
            &&& regrouped(
                self.bodies.map[body].np_collision_groups,
                after.bodies.map[body].np_collision_groups,
                belong_to,
                collide_with,
            )
            &&& after == self.groups_set(body, after.bodies.map[body].np_collision_groups)
        } else {
            after == self
        }
    }
}

/// The kind of `body`.
pub fn kind_of_body(body: &Body) -> (kind: ObjectType)
    ensures
        kind == kind_of(body@),
{
    match body.body_data {
        BodyData::Rigid { .. } => ObjectType::RigidBody,
        BodyData::Area(_) => ObjectType::Area,
    }
}

/// Just drops the collider of `body`.
pub fn drop_collider(body: &mut Body, colliders: &mut ColliderStorage)
    requires
        old(colliders).wf(),
        old(colliders).generation() < u64::MAX,
    ensures
        final(body)@ == (BodyView { collider_key: None, ..old(body)@ }),
        final(colliders).after_drop(old(colliders), old(body).collider_key),
{
    if let Some(collider_key) = body.collider_key {
        colliders.drop_collider(collider_key);
        body.collider_key = None;
    }
}

/// Records `body`, a body of kind `kind`, as the owner of `collider`.
pub fn update_user_data(kind: ObjectType, collider: &mut Collider, body: &Body)
    requires
        body.self_key is Some,
    ensures
        *final(collider) == (Collider {
            user_data: Some(user_data_of(kind, body@)),
            ..*old(collider)
        }),
{
    collider.set_user_data(
        Some(UserData::new(kind, body.self_key.unwrap(), body.entity)),
    );
}

/// Builds the collider that `collider_desc` gives for `body`, a body of
/// kind `kind`, stores it and records its key on the body.
pub fn install_collider(
    kind: ObjectType,
    body: &mut Body,
    collider_desc: &ColliderDesc,
    colliders: &mut ColliderStorage,
)
    requires
        old(body).self_key is Some,
        old(colliders).wf(),
        old(colliders).count() < usize::MAX,
    ensures
        final(body).collider_key is Some,
        final(body)@ == (BodyView { collider_key: final(body).collider_key, ..old(body)@ }),
        final(colliders).after_insert(
            old(colliders),
            final(body).collider_key->0,
            collider_of(*collider_desc, kind, old(body)@),
        ),
{
    let mut collider = collider_desc.build(BodyPartHandle(body.self_key.unwrap(), 0));
    update_user_data(kind, &mut collider, body);
    let key = colliders.insert_collider(collider);
    body.collider_key = Some(key);
}

/// Attaches `shape` to `body`, a body of kind `kind`: builds and stores the collider, registers
/// the body on the shape, and records the shape on the body.
pub fn install_shape(
    kind: ObjectType,
    body: &mut Body,
    shape: &mut RigidShape,
    collider_desc: &ColliderDesc,
    colliders: &mut ColliderStorage,
)
    requires
        old(body).self_key is Some,
        old(colliders).wf(),
        old(colliders).count() < usize::MAX,
    ensures
        final(body).collider_key is Some,
        final(body)@ == (BodyView {
            collider_key: final(body).collider_key,
            shape_key: old(shape).self_key,
            ..old(body)@
        }),
        final(shape)@ == old(shape)@.registered(old(body).self_key->0),
        final(colliders).after_insert(
            old(colliders),
            final(body).collider_key->0,
            collider_of(*collider_desc, kind, old(body)@),
        ),
{
    install_collider(kind, body, collider_desc, colliders);
    shape.register_body(body.self_key.unwrap());
    body.shape_key = shape.self_key;
}

/// Detaches `body` from its shape: if the body names a shape, the body
/// is unregistered from it, where the shape still exists, and the body
/// forgets the shape; then the body's collider is dropped.
pub fn remove_shape(
    body: &mut Body,
    shapes: &mut Storage<RigidShape>,
    colliders: &mut ColliderStorage,
)
    requires
        old(body).shape_key is Some ==> old(body).self_key is Some,
        old(shapes).wf(),
        old(colliders).wf(),
        old(colliders).generation() < u64::MAX,
    ensures
        final(body)@ == (BodyView { shape_key: None, collider_key: None, ..old(body)@ }),
        final(shapes).same_keys(old(shapes)),
        shape_views(*final(shapes)) == unregister(
            shape_views(*old(shapes)),
            old(body).shape_key,
            old(body).self_key,
        ),
        final(colliders).after_drop(old(colliders), old(body).collider_key),
{
    if let Some(shape_key) = body.shape_key {
        if let Some(shape) = shapes.get_mut(shape_key) {
            shape.unregister_body(body.self_key.unwrap());
        }
        body.shape_key = None;
    }
    drop_collider(body, colliders);
    proof {
        assert(final(shapes)@.dom() =~= old(shapes)@.dom());
        assert(shape_views(*final(shapes)) =~= unregister(
            shape_views(*old(shapes)),
            old(body).shape_key,
            old(body).self_key,
        ));
    }
}

/// Describes the collider of `body`, a body of kind `kind`, with the shape
/// `shape`. An area gets a sensor without density. A rigid body gets the
/// body's material and a density of one, or of zero where the geometry is
/// concave.
pub fn create_collider_desc(kind: ObjectType, body: &Body, shape: &RigidShape) -> (desc:
    ColliderDesc)
    ensures
        desc == collider_desc_of(kind, body@, shape@),
{
    match kind {
        ObjectType::Area => ColliderDesc {
            shape: shape.shape_handle(),
            collision_groups: body.np_collision_groups,
            density: Density::Zero,
            sensor: true,
            body_material: false,
        },
        ObjectType::RigidBody => {
            let mut collider_desc = ColliderDesc {
                shape: shape.shape_handle(),
                collision_groups: body.np_collision_groups,
                density: Density::Zero,
                sensor: false,
                body_material: true,
            };
            if shape.is_concave() {
                collider_desc.set_density(Density::Zero);
            } else {
                collider_desc.set_density(Density::One);
            }
            collider_desc
        },
    }
}

/// Drops the body under `body_key`: detaches its shape, drops its collider
/// and frees its slot. A removal event is queued whether the body exists or
/// not.
pub fn drop_body(
    body_key: StoreKey,
    bodies_storage: &mut BodyStorage,
    colliders_storage: &mut ColliderStorage,
    shapes_storage: &mut Storage<RigidShape>,
)
    requires
        old(bodies_storage).wf(),
        old(bodies_storage)@.keyed(),
        old(bodies_storage).generation() < u64::MAX,
        old(colliders_storage).wf(),
        old(colliders_storage).generation() < u64::MAX,
        old(shapes_storage).wf(),
    ensures
        body_dropped_in(
            body_key,
            old(bodies_storage),
            final(bodies_storage),
            old(colliders_storage),
            final(colliders_storage),
            old(shapes_storage),
            final(shapes_storage),
        ),
{
    if let Some(body) = bodies_storage.get_body_mut(body_key) {
        remove_shape(body, shapes_storage, colliders_storage);
    }
    bodies_storage.drop_body(body_key);
    proof {
        assert(final(bodies_storage)@ =~= old(bodies_storage)@.dropped(body_key));
    }
}

/// Hands the collision filter of `body` on to its collider, where the
/// body has one that exists.
pub fn update_collider_collision_groups(colliders: &mut ColliderStorage, body: &Body)
    requires
        old(colliders).wf(),
    ensures
        final(colliders).wf(),
        final(colliders).generation() == old(colliders).generation(),
        final(colliders).count() == old(colliders).count(),
        final(colliders).follows(old(colliders)),
        final(colliders)@ == old(colliders)@.regrouped(
            body.collider_key,
            body.np_collision_groups,
        ),
{
    if let Some(key) = body.collider_key {
        if let Some(collider) = colliders.get_collider_mut(key) {
            collider.set_collision_groups(body.np_collision_groups);
        }
    }
}

/// Records `entity` for the body under `body_key`, on the body and on its
/// collider. Nothing happens when the key does not resolve, or resolves to
/// a body of another kind than `kind`.
pub fn set_entity(
    kind: ObjectType,
    storages: &mut ServersStorage,
    body_key: StoreKey,
    entity: Option<Entity>,
) -> (answer: Result<(), ServerError>)
    requires
        old(storages).wf(),
    ensures
        final(storages).wf(),
        old(storages)@.consistent() ==> final(storages)@.consistent(),
        final(storages).one_step_from(old(storages)),
        answer == old(storages)@.entity_set_answer(kind, body_key),
        final(storages)@ == old(storages)@.entity_set(kind, body_key, entity),
{
    let mut answer: Result<(), ServerError> = Ok(());
    if let Some(body) = storages.bodies.get_body_mut(body_key) {
        if kind_of_body(body) == kind {
            body.entity = entity;
            if let Some(collider_key) = body.collider_key {
                if let Some(collider) = storages.colliders.get_collider_mut(collider_key) {
                    update_user_data(kind, collider, body);
                } else {
                    answer = Err(ServerError::ColliderNotFound);
                }
            }
        } else {
            answer = Err(ServerError::WrongKind);
        }
    }
    proof {
        if old(storages)@.consistent() {
            lemma_entity_set(old(storages)@, kind, body_key, entity);
        }
    }
    answer
}

/// The entity recorded for the body under `body_key`; none when the
/// key does not resolve.
pub fn entity(storages: &ServersStorage, body_key: StoreKey) -> (entity: Option<
    Entity,
>)
    requires
        storages.wf(),
    ensures
        entity == (if storages@.bodies.map.contains_key(body_key) {
            storages@.bodies.map[body_key].entity
        } else {
            None
        }),
{
    match storages.bodies.get_body(body_key) {
        Some(body) => body.entity,
        None => None,
    }
}

/// Sets the shape of the body under `body_key`, a body of kind `kind`;
/// `None` leaves the body without a shape.
pub fn set_shape(
    kind: ObjectType,
    storages: &mut ServersStorage,
    body_key: StoreKey,
    shape_key: Option<StoreKey>,
) -> (answer: Result<(), ServerError>)
    requires
        old(storages).wf(),
        old(storages).room_for_colliders(1),
    ensures
        final(storages).wf(),
        old(storages)@.consistent() ==> final(storages)@.consistent(),
        final(storages).one_step_from(old(storages)),
        answer == old(storages)@.shape_set_answer(body_key, shape_key),
        old(storages)@.shape_set_to(final(storages)@, kind, body_key, shape_key),
{
    let mut answer: Result<(), ServerError> = Ok(());
    if let Some(body) = storages.bodies.get_body_mut(body_key) {
        if !same_key(body.shape_key, shape_key) {
            // Remove the old shape
            if body.shape_key.is_some() {
                remove_shape(body, &mut storages.shapes, &mut storages.colliders);
            }
            // Assign the new shape if there is one
            if let Some(shape_key) = shape_key {
                if let Some(shape) = storages.shapes.get_mut(shape_key) {
                    let collider_desc = create_collider_desc(kind, body, shape);
                    install_shape(
                        kind,
                        body,
                        shape,
                        &collider_desc,
                        &mut storages.colliders,
                    );
                } else {
                    answer = Err(ServerError::ShapeNotFound);
                }
            }
        }
    } else {
        answer = Err(ServerError::BodyNotFound);
    }
    proof {
        let w = old(storages)@;
        let ck = if w.shape_set_attaches(body_key, shape_key) {
            storages@.bodies.map[body_key].collider_key->0
        } else {
            body_key
        };
        let wanted = w.shape_set(kind, body_key, shape_key, ck);
        assert(storages@.shapes =~= wanted.shapes);
        assert(storages@.bodies =~= wanted.bodies);
        if w.shape_set_attaches(body_key, shape_key) && w.colliders.map.contains_key(ck) {
            old(storages).colliders.lemma_key_generation(ck);
        }
        if w.consistent() {
            lemma_shape_set(w, kind, body_key, shape_key, ck);
        }
    }
    answer
}

/// The shape of the body under `body_key`; none when the key does not
/// resolve or the body has no shape.
pub fn shape(storages: &ServersStorage, body_key: StoreKey) -> (shape: Option<StoreKey>)
    requires
        storages.wf(),
    ensures
        shape == (if storages@.bodies.map.contains_key(body_key) {
            storages@.bodies.map[body_key].shape_key
        } else {
            None
        }),
{
    match storages.bodies.get_body(body_key) {
        Some(body) => body.shape_key,
        None => None,
    }
}

/// Makes the body under `body_key` belong to the groups `groups`
/// only. The groups that it collides with stay; the body's collider
/// gets the new filter.
pub fn set_belong_to(
    storages: &mut ServersStorage,
    body_key: StoreKey,
    groups: Vec<CollisionGroup>,
)
    requires
        old(storages).wf(),
    ensures
        final(storages).wf(),
        old(storages)@.consistent() ==> final(storages)@.consistent(),
        final(storages).one_step_from(old(storages)),
        old(storages)@.regrouped_to(
            final(storages)@,
            body_key,
            Some(group_ids(groups@)),
            None,
        ),
{
    if let Some(body) = storages.bodies.get_body_mut(body_key) {
        let (_, collide_with) = from_nphysics(&body.np_collision_groups);
        proof {
            lemma_lists_groups(collide_with@, groups_whitelist(body.np_collision_groups));
        }
        body.np_collision_groups = to_nphysics(groups.as_slice(), collide_with.as_slice());
        update_collider_collision_groups(&mut storages.colliders, body);
    }
    proof {
        if old(storages)@.consistent() && old(storages)@.bodies.map.contains_key(body_key) {
            lemma_groups_set(
                old(storages)@,
                body_key,
                storages@.bodies.map[body_key].np_collision_groups,
            );
        }
    }
}

/// The groups that the body under `body_key` belongs to, in
/// increasing order; none when the key does not resolve.
pub fn belong_to(storages: &ServersStorage, body_key: StoreKey) -> (groups: Vec<
    CollisionGroup,
>)
    requires
        storages.wf(),
    ensures
        storages@.bodies.map.contains_key(body_key) ==> lists_groups(
            groups@,
            groups_membership(storages@.bodies.map[body_key].np_collision_groups),
        ),
        !storages@.bodies.map.contains_key(body_key) ==> groups@.len() == 0,
{
    match storages.bodies.get_body(body_key) {
        Some(body) => from_nphysics(&body.np_collision_groups).0,
        None => Vec::new(),
    }
}

/// Makes the body under `body_key` collide with the groups `groups`
/// only. The groups that it belongs to stay; the body's collider gets
/// the new filter.
pub fn set_collide_with(
    storages: &mut ServersStorage,
    body_key: StoreKey,
    groups: Vec<CollisionGroup>,
)
    requires
        old(storages).wf(),
    ensures
        final(storages).wf(),
        old(storages)@.consistent() ==> final(storages)@.consistent(),
        final(storages).one_step_from(old(storages)),
        old(storages)@.regrouped_to(
            final(storages)@,
            body_key,
            None,
            Some(group_ids(groups@)),
        ),
{
    if let Some(body) = storages.bodies.get_body_mut(body_key) {
        let (belong_to, _) = from_nphysics(&body.np_collision_groups);
        proof {
            lemma_lists_groups(belong_to@, groups_membership(body.np_collision_groups));
        }
        body.np_collision_groups = to_nphysics(belong_to.as_slice(), groups.as_slice());
        update_collider_collision_groups(&mut storages.colliders, body);
    }
    proof {
        if old(storages)@.consistent() && old(storages)@.bodies.map.contains_key(body_key) {
            lemma_groups_set(
                old(storages)@,
                body_key,
                storages@.bodies.map[body_key].np_collision_groups,
            );
        }
    }
}

/// The groups that the body under `body_key` collides with, in
/// increasing order; none when the key does not resolve.
pub fn collide_with(storages: &ServersStorage, body_key: StoreKey) -> (groups: Vec<
    CollisionGroup,
>)
    requires
        storages.wf(),
    ensures
        storages@.bodies.map.contains_key(body_key) ==> lists_groups(
            groups@,
            groups_whitelist(storages@.bodies.map[body_key].np_collision_groups),
        ),
        !storages@.bodies.map.contains_key(body_key) ==> groups@.len() == 0,
{
    match storages.bodies.get_body(body_key) {
        Some(body) => from_nphysics(&body.np_collision_groups).1,
        None => Vec::new(),
    }
}

} // verus!
