//! The cross-references of a world, and that the servers keep them sound: a
//! body's shape and collider exist, a shape lists exactly the bodies that
//! use it, and every collider belongs to the body that names it.

use crate::attachment::ServerError;
use crate::body::BodyView;
use crate::objects::AxisLocks;
use crate::objects::BodyMode;
use crate::objects::JointDesc;
use crate::objects::JointPosition;
use crate::objects::ShapeDesc;
use crate::servers_storage::World;
use crate::shape::ShapeView;
use crate::shape::lemma_without_holds;
use crate::shape_physics_server::in_use;
use crate::storage::StoreKey;
use crate::utils::ObjectType;
use crate::world_physics_server::area_keys;
use crate::world_physics_server::joint_keys;
use crate::world_physics_server::rigid_keys;
use amethyst_core::ecs::Entity;
use ncollide3d::pipeline::object::CollisionGroups;
use vstd::prelude::*;

verus! {

impl World {
    /// Whether the links of the body under `body`, which exists, are sound:
    /// it has a collider if and only if it has a shape; its shape exists and
    /// lists it; its collider exists and is built on it.
    pub open spec fn body_linked(self, body: StoreKey) -> bool {
        let b = self.bodies.map[body];
        &&& b.self_key == Some(body)
        &&& b.shape_key is Some <==> b.collider_key is Some
        &&& b.shape_key is Some ==> self.shapes.contains_key(b.shape_key->0)
            && self.shapes[b.shape_key->0].bodies.contains(body)
        &&& b.collider_key is Some ==> self.colliders.map.contains_key(b.collider_key->0)
            && self.colliders.map[b.collider_key->0].body_part.0 == body
    }

    /// Whether the body `body`, which the shape under `shape` lists, exists
    /// and uses that shape.
    pub open spec fn attachment_live(self, shape: StoreKey, body: StoreKey) -> bool {
        self.bodies.map.contains_key(body) && self.bodies.map[body].shape_key == Some(shape)
    }

    /// Whether the collider under `collider`, which exists, is the collider
    /// of the body that it is built on.
    pub open spec fn collider_owned(self, collider: StoreKey) -> bool {
        let owner = self.colliders.map[collider].body_part.0;
        self.bodies.map.contains_key(owner) && self.bodies.map[owner].collider_key == Some(
            collider,
        )
    }

    /// Whether the cross-references of the world are sound.
    pub open spec fn consistent(self) -> bool {
        &&& forall|b: StoreKey| #[trigger] self.bodies.map.contains_key(b) ==> self.body_linked(b)
        &&& forall|s: StoreKey, b: StoreKey|
            self.shapes.contains_key(s) && #[trigger] self.shapes[s].bodies.contains(b)
                ==> self.attachment_live(s, b)
        &&& forall|c: StoreKey| #[trigger]
            self.colliders.map.contains_key(c) ==> self.collider_owned(c)
    }

    /// Whether `self` has the bodies, shapes and colliders of `before`, with
    /// the same links between them.
    pub open spec fn same_links(self, before: World) -> bool {
        &&& self.shapes == before.shapes
        &&& self.colliders.map.dom() == before.colliders.map.dom()
        &&& forall|c: StoreKey| #[trigger]
            self.colliders.map.contains_key(c) ==> self.colliders.map[c].body_part
                == before.colliders.map[c].body_part
        &&& self.bodies.map.dom() == before.bodies.map.dom()
        &&& forall|b: StoreKey| #[trigger]
            self.bodies.map.contains_key(b) ==> self.bodies.map[b].self_key
                == before.bodies.map[b].self_key && self.bodies.map[b].shape_key
                == before.bodies.map[b].shape_key && self.bodies.map[b].collider_key
                == before.bodies.map[b].collider_key
    }
}

/// A world stays consistent when its links stay as they are.
pub proof fn lemma_same_links(before: World, after: World)
    requires
        before.consistent(),
        after.same_links(before),
    ensures
        after.consistent(),
{
    assert forall|b: StoreKey| #[trigger] after.bodies.map.contains_key(b) implies after.body_linked(
        b,
    ) by {
        assert(before.bodies.map.contains_key(b));
        assert(before.body_linked(b));
        if after.bodies.map[b].collider_key is Some {
            assert(after.colliders.map.contains_key(after.bodies.map[b].collider_key->0));
        }
    }
    assert forall|s: StoreKey, b: StoreKey|
        after.shapes.contains_key(s) && #[trigger] after.shapes[s].bodies.contains(
            b,
        ) implies after.attachment_live(s, b) by {
        assert(before.attachment_live(s, b));
        assert(after.bodies.map.contains_key(b));
    }
    assert forall|c: StoreKey| #[trigger] after.colliders.map.contains_key(c) implies after.collider_owned(
        c,
    ) by {
        assert(before.colliders.map.contains_key(c));
        assert(before.collider_owned(c));
        assert(after.bodies.map.contains_key(before.colliders.map[c].body_part.0));
    }
}

/// Detaching a body from its shape keeps the links sound.
pub proof fn lemma_shape_removed(w: World, body: StoreKey)
    requires
        w.consistent(),
        w.bodies.map.contains_key(body),
    ensures
        w.shape_removed(body).consistent(),
        w.shape_removed(body).bodies.map.contains_key(body),
        w.shape_removed(body).bodies.map[body].shape_key is None,
        w.shape_removed(body).bodies.map[body].collider_key is None,
        w.shape_removed(body).bodies.map.dom() == w.bodies.map.dom(),
        w.shape_removed(body).shapes.dom() == w.shapes.dom(),
        forall|c: StoreKey| #[trigger]
            w.shape_removed(body).colliders.map.contains_key(c) ==> w.colliders.map.contains_key(c),
{
    let after = w.shape_removed(body);
    let b = w.bodies.map[body];
    assert(w.body_linked(body));
    assert(after.shapes.dom() =~= w.shapes.dom());
    assert(after.bodies.map.dom() =~= w.bodies.map.dom());
    if b.shape_key is Some {
        lemma_without_holds(w.shapes[b.shape_key->0].bodies, body);
    }
    assert forall|k: StoreKey| #[trigger] after.bodies.map.contains_key(k) implies after.body_linked(
        k,
    ) by {
        assert(w.bodies.map.contains_key(k));
        assert(w.body_linked(k));
        if k != body {
            let other = w.bodies.map[k];
            if other.collider_key is Some {
                assert(w.collider_owned(other.collider_key->0));
            }
        }
    }
    assert forall|s: StoreKey, k: StoreKey|
        after.shapes.contains_key(s) && #[trigger] after.shapes[s].bodies.contains(
            k,
        ) implies after.attachment_live(s, k) by {
        assert(w.shapes.contains_key(s));
        if b.shape_key == Some(s) {
            assert(k != body);
            assert(w.shapes[s].bodies.contains(k));
        }
        assert(w.attachment_live(s, k));
        if k == body {
            assert(w.shapes[b.shape_key->0].bodies.contains(body));
        }
    }
    assert forall|c: StoreKey| #[trigger] after.colliders.map.contains_key(c) implies after.collider_owned(
        c,
    ) by {
        assert(w.colliders.map.contains_key(c));
        assert(w.collider_owned(c));
    }
}

/// Attaching a shape to a body that has none, with a collider under a new
/// key, keeps the links sound.
pub proof fn lemma_shape_installed(
    w: World,
    kind: ObjectType,
    body: StoreKey,
    shape: StoreKey,
    collider: StoreKey,
)
    requires
        w.consistent(),
        w.bodies.map.contains_key(body),
        w.bodies.map[body].shape_key is None,
        w.shapes.contains_key(shape),
        w.shapes[shape].self_key == Some(shape),
        !w.colliders.map.contains_key(collider),
    ensures
        w.shape_installed(kind, body, shape, collider).consistent(),
{
    let after = w.shape_installed(kind, body, shape, collider);
    let b = w.bodies.map[body];
    assert(w.body_linked(body));
    assert(after.shapes[shape].bodies == w.shapes[shape].bodies.push(body));
    assert(after.shapes[shape].bodies[w.shapes[shape].bodies.len() as int] == body);
    assert forall|k: StoreKey| #[trigger] after.bodies.map.contains_key(k) implies after.body_linked(
        k,
    ) by {
        if k != body {
            assert(w.bodies.map.contains_key(k));
            assert(w.body_linked(k));
            let other = w.bodies.map[k];
            if other.shape_key == Some(shape) {
                let i = choose|i: int|
                    0 <= i < w.shapes[shape].bodies.len() && w.shapes[shape].bodies[i] == k;
                assert(after.shapes[shape].bodies[i] == k);
            }
        }
    }
    assert forall|s: StoreKey, k: StoreKey|
        after.shapes.contains_key(s) && #[trigger] after.shapes[s].bodies.contains(
            k,
        ) implies after.attachment_live(s, k) by {
        if s == shape {
            let i = choose|i: int|
                0 <= i < after.shapes[s].bodies.len() && after.shapes[s].bodies[i] == k;
            if i < w.shapes[s].bodies.len() {
                assert(w.shapes[s].bodies[i] == k);
                assert(w.shapes[s].bodies.contains(k));
                assert(w.attachment_live(s, k));
            }
        } else {
            assert(w.shapes[s].bodies.contains(k));
            assert(w.attachment_live(s, k));
        }
    }
    assert forall|c: StoreKey| #[trigger] after.colliders.map.contains_key(c) implies after.collider_owned(
        c,
    ) by {
        if c != collider {
            assert(w.colliders.map.contains_key(c));
            assert(w.collider_owned(c));
        }
    }
}

/// Setting the shape of a body keeps the links sound.
pub proof fn lemma_shape_set(
    w: World,
    kind: ObjectType,
    body: StoreKey,
    shape: Option<StoreKey>,
    collider: StoreKey,
)
    requires
        w.wf(),
        w.consistent(),
        w.shape_set_attaches(body, shape) ==> !w.colliders.map.contains_key(collider),
    ensures
        w.shape_set(kind, body, shape, collider).consistent(),
{
    if w.bodies.map.contains_key(body) {
        assert(w.body_linked(body));
        lemma_shape_removed(w, body);
        if w.shape_set_attaches(body, shape) {
            let detached = if w.shape_set_detaches(body, shape) {
                w.shape_removed(body)
            } else {
                w
            };
            assert(detached.shapes.contains_key(shape->0));
            assert(detached.shapes[shape->0].self_key == Some(shape->0)) by {
                assert(w.shapes[shape->0].self_key == Some(shape->0));
            }
            lemma_shape_installed(detached, kind, body, shape->0, collider);
        }
    }
}

/// Dropping a body keeps the links sound.
pub proof fn lemma_body_dropped(w: World, body: StoreKey)
    requires
        w.consistent(),
    ensures
        w.body_dropped(body).consistent(),
{
    if w.bodies.map.contains_key(body) {
        lemma_shape_removed(w, body);
        let detached = w.shape_removed(body);
        let after = w.body_dropped(body);
        assert forall|k: StoreKey| #[trigger] after.bodies.map.contains_key(k) implies after.body_linked(
            k,
        ) by {
            assert(detached.bodies.map.contains_key(k));
            assert(detached.body_linked(k));
        }
        assert forall|s: StoreKey, k: StoreKey|
            after.shapes.contains_key(s) && #[trigger] after.shapes[s].bodies.contains(
                k,
            ) implies after.attachment_live(s, k) by {
            assert(detached.attachment_live(s, k));
        }
        assert forall|c: StoreKey| #[trigger] after.colliders.map.contains_key(c) implies after.collider_owned(
            c,
        ) by {
            assert(detached.collider_owned(c));
        }
    } else {
        let after = w.body_dropped(body);
        assert(after.bodies.map =~= w.bodies.map);
        assert forall|k: StoreKey| #[trigger] after.bodies.map.contains_key(k) implies after.body_linked(
            k,
        ) by {
            assert(w.body_linked(k));
        }
        assert forall|s: StoreKey, k: StoreKey|
            after.shapes.contains_key(s) && #[trigger] after.shapes[s].bodies.contains(
                k,
            ) implies after.attachment_live(s, k) by {
            assert(w.attachment_live(s, k));
        }
        assert forall|c: StoreKey| #[trigger] after.colliders.map.contains_key(c) implies after.collider_owned(
            c,
        ) by {
            assert(w.collider_owned(c));
        }
    }
}

/// Storing a new body that has no shape and no collider keeps the links
/// sound.
pub proof fn lemma_body_created(w: World, body: StoreKey, made: BodyView)
    requires
        w.consistent(),
        !w.bodies.map.contains_key(body),
        made.self_key == Some(body),
        made.shape_key is None,
        made.collider_key is None,
    ensures
        w.body_created(body, made).consistent(),
{
    let after = w.body_created(body, made);
    assert forall|k: StoreKey| #[trigger] after.bodies.map.contains_key(k) implies after.body_linked(
        k,
    ) by {
        if k != body {
            assert(w.body_linked(k));
        }
    }
    assert forall|s: StoreKey, k: StoreKey|
        after.shapes.contains_key(s) && #[trigger] after.shapes[s].bodies.contains(
            k,
        ) implies after.attachment_live(s, k) by {
        assert(w.attachment_live(s, k));
    }
    assert forall|c: StoreKey| #[trigger] after.colliders.map.contains_key(c) implies after.collider_owned(
        c,
    ) by {
        assert(w.collider_owned(c));
    }
}

/// Setting the mode of a body keeps the links sound.
pub proof fn lemma_status_set(w: World, body: StoreKey, mode: BodyMode)
    requires
        w.consistent(),
    ensures
        w.status_set(body, mode).consistent(),
{
    assert(w.status_set(body, mode).bodies.map.dom() =~= w.bodies.map.dom());
    lemma_same_links(w, w.status_set(body, mode));
}

/// Setting the locks of a body keeps the links sound.
pub proof fn lemma_locked(w: World, body: StoreKey, locks: AxisLocks)
    requires
        w.consistent(),
    ensures
        w.translation_locked(body, locks).consistent(),
        w.rotation_locked(body, locks).consistent(),
{
    assert(w.translation_locked(body, locks).bodies.map.dom() =~= w.bodies.map.dom());
    assert(w.rotation_locked(body, locks).bodies.map.dom() =~= w.bodies.map.dom());
    lemma_same_links(w, w.translation_locked(body, locks));
    lemma_same_links(w, w.rotation_locked(body, locks));
}

/// Setting the collision groups of a body, and of its collider with it,
/// keeps the links sound.
pub proof fn lemma_groups_set(w: World, body: StoreKey, groups: CollisionGroups)
    requires
        w.consistent(),
    ensures
        w.groups_set(body, groups).consistent(),
{
    assert(w.groups_set(body, groups).bodies.map.dom() =~= w.bodies.map.dom());
    assert(w.groups_set(body, groups).colliders.map.dom() =~= w.colliders.map.dom());
    lemma_same_links(w, w.groups_set(body, groups));
}

/// Recording an entity for a body, and on its collider with it, keeps the
/// links sound. In a world whose links are sound the collider is found.
pub proof fn lemma_entity_set(w: World, kind: ObjectType, body: StoreKey, entity: Option<Entity>)
    requires
        w.consistent(),
    ensures
        w.entity_set(kind, body, entity).consistent(),
        w.entity_set_answer(kind, body) != Err::<(), ServerError>(ServerError::ColliderNotFound),
{
    assert(w.entity_set(kind, body, entity).bodies.map.dom() =~= w.bodies.map.dom());
    assert(w.entity_set(kind, body, entity).colliders.map.dom() =~= w.colliders.map.dom());
    lemma_same_links(w, w.entity_set(kind, body, entity));
    if w.bodies.map.contains_key(body) {
        assert(w.body_linked(body));
    }
}

/// Setting the number of contacts that a body reports keeps the links
/// sound.
pub proof fn lemma_report_count_set(w: World, body: StoreKey, count: usize)
    requires
        w.consistent(),
    ensures
        w.report_count_set(body, count).consistent(),
{
    assert(w.report_count_set(body, count).bodies.map.dom() =~= w.bodies.map.dom());
    lemma_same_links(w, w.report_count_set(body, count));
}

/// Creating a joint keeps the links sound.
pub proof fn lemma_joint_created(w: World, joint: StoreKey, desc: JointDesc, position: JointPosition)
    requires
        w.consistent(),
    ensures
        w.joint_created(joint, desc, position).consistent(),
{
    lemma_same_links(w, w.joint_created(joint, desc, position));
}

/// Attaching a body to a joint, or detaching it, keeps the links sound:
/// joints hold no shape and no collider, and waking a body changes none of
/// its links.
pub proof fn lemma_joint_bodies(w: World, joint: StoreKey, body: StoreKey)
    requires
        w.consistent(),
    ensures
        w.joint_body_inserted(joint, body).consistent(),
        w.joint_body_removed(joint, body).consistent(),
{
    lemma_same_links(w, w.joint_body_inserted(joint, body));
    if w.joints.map.contains_key(joint) {
        let woken = w.joint_bodies_activated(joint);
        assert(woken.bodies.map.dom() =~= w.bodies.map.dom());
    }
    lemma_same_links(w, w.joint_body_removed(joint, body));
}

/// Dropping a joint keeps the links sound.
pub proof fn lemma_joint_dropped(w: World, joint: StoreKey)
    requires
        w.consistent(),
    ensures
        w.joint_dropped(joint).consistent(),
{
    if w.joints.map.contains_key(joint) {
        let woken = w.joint_bodies_activated(joint);
        assert(woken.bodies.map.dom() =~= w.bodies.map.dom());
    }
    lemma_same_links(w, w.joint_dropped(joint));
}

/// Storing a new shape that no body uses keeps the links sound.
pub proof fn lemma_shape_created(w: World, shape: StoreKey, desc: ShapeDesc)
    requires
        w.consistent(),
        !w.shapes.contains_key(shape),
    ensures
        w.shape_created(shape, desc).consistent(),
{
    let after = w.shape_created(shape, desc);
    assert forall|k: StoreKey| #[trigger] after.bodies.map.contains_key(k) implies after.body_linked(
        k,
    ) by {
        assert(w.body_linked(k));
    }
    assert forall|s: StoreKey, k: StoreKey|
        after.shapes.contains_key(s) && #[trigger] after.shapes[s].bodies.contains(
            k,
        ) implies after.attachment_live(s, k) by {
        if s != shape {
            assert(w.attachment_live(s, k));
        }
    }
    assert forall|c: StoreKey| #[trigger] after.colliders.map.contains_key(c) implies after.collider_owned(
        c,
    ) by {
        assert(w.collider_owned(c));
    }
}

/// Building the collider of a body that has a shape again, under a new key,
/// keeps the links sound.
pub proof fn lemma_collider_rebuilt(w: World, body: StoreKey, shape: StoreKey, collider: StoreKey)
    requires
        w.consistent(),
        w.bodies.map.contains_key(body) ==> w.bodies.map[body].shape_key is Some
            && !w.colliders.dropped_if(w.bodies.map[body].collider_key).map.contains_key(collider),
    ensures
        w.collider_rebuilt(body, shape, collider).consistent(),
        w.collider_rebuilt(body, shape, collider).shapes == w.shapes,
        w.collider_rebuilt(body, shape, collider).bodies.map.dom() == w.bodies.map.dom(),
        forall|k: StoreKey| #[trigger]
            w.bodies.map.contains_key(k) ==> w.collider_rebuilt(
                body,
                shape,
                collider,
            ).bodies.map[k].shape_key == w.bodies.map[k].shape_key,
{
    let after = w.collider_rebuilt(body, shape, collider);
    if w.bodies.map.contains_key(body) {
        let b = w.bodies.map[body];
        assert(w.body_linked(body));
        assert(after.bodies.map.dom() =~= w.bodies.map.dom());
        assert forall|k: StoreKey| #[trigger] after.bodies.map.contains_key(k) implies after.body_linked(
            k,
        ) by {
            assert(w.bodies.map.contains_key(k));
            assert(w.body_linked(k));
            if k != body {
                let other = w.bodies.map[k];
                if other.collider_key is Some {
                    assert(w.collider_owned(other.collider_key->0));
                }
            }
        }
        assert forall|s: StoreKey, k: StoreKey|
            after.shapes.contains_key(s) && #[trigger] after.shapes[s].bodies.contains(
                k,
            ) implies after.attachment_live(s, k) by {
            assert(w.attachment_live(s, k));
        }
        assert forall|c: StoreKey| #[trigger] after.colliders.map.contains_key(c) implies after.collider_owned(
            c,
        ) by {
            if c != collider {
                assert(w.colliders.map.contains_key(c));
                assert(w.collider_owned(c));
            }
        }
    }
}

/// Building the colliders of bodies that have a shape again, each under a
/// new key, keeps the links sound.
pub proof fn lemma_colliders_rebuilt(
    w: World,
    shape: StoreKey,
    bodies: Seq<StoreKey>,
    colliders: Seq<StoreKey>,
)
    requires
        w.consistent(),
        colliders.len() == bodies.len(),
        w.rebuilt_keys_new(shape, bodies, colliders),
        forall|i: int|
            0 <= i < bodies.len() && w.bodies.map.contains_key(#[trigger] bodies[i])
                ==> w.bodies.map[bodies[i]].shape_key is Some,
    ensures
        w.colliders_rebuilt(shape, bodies, colliders).consistent(),
        w.colliders_rebuilt(shape, bodies, colliders).shapes == w.shapes,
        w.colliders_rebuilt(shape, bodies, colliders).bodies.map.dom() == w.bodies.map.dom(),
        forall|k: StoreKey| #[trigger]
            w.bodies.map.contains_key(k) ==> w.colliders_rebuilt(
                shape,
                bodies,
                colliders,
            ).bodies.map[k].shape_key == w.bodies.map[k].shape_key,
    decreases bodies.len(),
{
    if bodies.len() > 0 {
        let front = bodies.drop_last();
        assert forall|i: int|
            0 <= i < front.len() && w.bodies.map.contains_key(
                #[trigger] front[i],
            ) implies w.bodies.map[front[i]].shape_key is Some by {
            assert(front[i] == bodies[i]);
        }
        lemma_colliders_rebuilt(w, shape, front, colliders.drop_last());
        let before = w.colliders_rebuilt(shape, front, colliders.drop_last());
        let last = bodies.last();
        assert(bodies[bodies.len() - 1] == last);
        if before.bodies.map.contains_key(last) {
            assert(w.bodies.map.contains_key(last));
        }
        lemma_collider_rebuilt(before, last, shape, colliders.last());
    }
}

/// Replacing the geometry of a shape and building the colliders of its
/// bodies again keeps the links sound.
pub proof fn lemma_shape_updated(w: World, shape: StoreKey, desc: ShapeDesc, colliders: Seq<StoreKey>)
    requires
        w.consistent(),
        w.shapes.contains_key(shape) ==> colliders.len() == w.shapes[shape].bodies.len()
            && w.shape_described(shape, desc).rebuilt_keys_new(
            shape,
            w.shapes[shape].bodies,
            colliders,
        ),
    ensures
        w.shape_updated(shape, desc, colliders).consistent(),
{
    if w.shapes.contains_key(shape) {
        let updated = ShapeView { shape_desc: desc, ..w.shapes[shape] };
        let start = w.shape_described(shape, desc);
        assert forall|k: StoreKey| #[trigger] start.bodies.map.contains_key(k) implies start.body_linked(
            k,
        ) by {
            assert(w.body_linked(k));
        }
        assert forall|s: StoreKey, k: StoreKey|
            start.shapes.contains_key(s) && #[trigger] start.shapes[s].bodies.contains(
                k,
            ) implies start.attachment_live(s, k) by {
            assert(w.shapes[s].bodies.contains(k));
            assert(w.attachment_live(s, k));
        }
        assert forall|c: StoreKey| #[trigger] start.colliders.map.contains_key(c) implies start.collider_owned(
            c,
        ) by {
            assert(w.collider_owned(c));
        }
        assert forall|i: int|
            0 <= i < updated.bodies.len() && start.bodies.map.contains_key(
                #[trigger] updated.bodies[i],
            ) implies start.bodies.map[updated.bodies[i]].shape_key is Some by {
            assert(start.shapes[shape].bodies.contains(updated.bodies[i]));
            assert(start.attachment_live(shape, updated.bodies[i]));
        }
        lemma_colliders_rebuilt(start, shape, updated.bodies, colliders);
    }
}

/// Trying to remove the released shapes keeps the links sound: only shapes
/// that no body uses are removed.
pub proof fn lemma_shapes_tried(w: World)
    requires
        w.consistent(),
    ensures
        w.shapes_tried().consistent(),
{
    let after = w.shapes_tried();
    assert forall|k: StoreKey| #[trigger] after.bodies.map.contains_key(k) implies after.body_linked(
        k,
    ) by {
        assert(w.body_linked(k));
        let b = w.bodies.map[k];
        if b.shape_key is Some {
            let s = b.shape_key->0;
            let i = choose|i: int| 0 <= i < w.shapes[s].bodies.len() && w.shapes[s].bodies[i] == k;
            assert(in_use(w.shapes, s));
        }
    }
    assert forall|s: StoreKey, k: StoreKey|
        after.shapes.contains_key(s) && #[trigger] after.shapes[s].bodies.contains(
            k,
        ) implies after.attachment_live(s, k) by {
        assert(w.shapes[s].bodies.contains(k));
        assert(w.attachment_live(s, k));
    }
    assert forall|c: StoreKey| #[trigger] after.colliders.map.contains_key(c) implies after.collider_owned(
        c,
    ) by {
        assert(w.collider_owned(c));
    }
}

/// Dropping bodies, one after the other, keeps the links sound.
pub proof fn lemma_bodies_dropped(w: World, keys: Seq<StoreKey>)
    requires
        w.consistent(),
    ensures
        w.bodies_dropped(keys).consistent(),
    decreases keys.len(),
{
    if keys.len() > 0 {
        lemma_bodies_dropped(w, keys.drop_last());
        lemma_body_dropped(w.bodies_dropped(keys.drop_last()), keys.last());
    }
}

/// Dropping joints, one after the other, keeps the links sound.
pub proof fn lemma_joints_dropped(w: World, keys: Seq<StoreKey>)
    requires
        w.consistent(),
    ensures
        w.joints_dropped(keys).consistent(),
    decreases keys.len(),
{
    if keys.len() > 0 {
        lemma_joints_dropped(w, keys.drop_last());
        lemma_joint_dropped(w.joints_dropped(keys.drop_last()), keys.last());
    }
}

/// A collection keeps the links sound: no body is left with a shape or a
/// collider that is gone, and no shape or collider is left that names a body
/// that is gone.
pub proof fn lemma_collected(w: World)
    requires
        w.consistent(),
    ensures
        w.collected().consistent(),
{
    let rigid = w.bodies_dropped(rigid_keys(w.gc.bodies));
    lemma_bodies_dropped(w, rigid_keys(w.gc.bodies));
    lemma_bodies_dropped(rigid, area_keys(w.gc.areas));
    let mid = w.bodies_collected();
    lemma_same_links(rigid.bodies_dropped(area_keys(w.gc.areas)), mid);
    lemma_shapes_tried(mid);
    let tried = mid.shapes_tried();
    lemma_joints_dropped(tried, joint_keys(tried.gc.joints));
    lemma_same_links(tried.joints_dropped(joint_keys(tried.gc.joints)), w.collected());
}

/// In a world whose links are sound a shape is in use exactly when a body
/// has it as its shape.
pub proof fn lemma_shape_in_use(w: World, shape: StoreKey)
    requires
        w.consistent(),
    ensures
        in_use(w.shapes, shape) <==> (exists|b: StoreKey| #[trigger]
            w.bodies.map.contains_key(b) && w.bodies.map[b].shape_key == Some(shape)),
{
    if in_use(w.shapes, shape) {
        let b = w.shapes[shape].bodies[0];
        assert(w.shapes[shape].bodies.contains(b));
        assert(w.attachment_live(shape, b));
    }
    if exists|b: StoreKey| #[trigger]
        w.bodies.map.contains_key(b) && w.bodies.map[b].shape_key == Some(shape) {
        let b = choose|b: StoreKey| #[trigger]
            w.bodies.map.contains_key(b) && w.bodies.map[b].shape_key == Some(shape);
        assert(w.body_linked(b));
        let i = choose|i: int|
            0 <= i < w.shapes[shape].bodies.len() && w.shapes[shape].bodies[i] == b;
    }
}

/// Dropping bodies leaves every other body as it is.
proof fn lemma_bodies_dropped_others(w: World, keys: Seq<StoreKey>, body: StoreKey)
    requires
        w.bodies.map.contains_key(body),
        !keys.contains(body),
    ensures
        w.bodies_dropped(keys).bodies.map.contains_key(body),
        w.bodies_dropped(keys).bodies.map[body] == w.bodies.map[body],
    decreases keys.len(),
{
    if keys.len() > 0 {
        let front = keys.drop_last();
        if front.contains(body) {
            let i = choose|i: int| 0 <= i < front.len() && front[i] == body;
            assert(keys[i] == body);
        }
        assert(keys[keys.len() - 1] == keys.last());
        lemma_bodies_dropped_others(w, front, body);
    }
}

/// A released shape outlives every collection for as long as a body uses
/// it: while a body that is not released itself has the shape, a collection
/// leaves the shape in place, with that body attached.
pub proof fn lemma_used_shape_outlives_collection(w: World, shape: StoreKey, body: StoreKey)
    requires
        w.consistent(),
        w.bodies.map.contains_key(body),
        w.bodies.map[body].shape_key == Some(shape),
        !rigid_keys(w.gc.bodies).contains(body),
        !area_keys(w.gc.areas).contains(body),
    ensures
        w.collected().shapes.contains_key(shape),
        w.collected().shapes[shape].bodies.contains(body),
        w.collected().bodies.map.contains_key(body),
        w.collected().bodies.map[body].shape_key == Some(shape),
{
    let rigid = w.bodies_dropped(rigid_keys(w.gc.bodies));
    lemma_bodies_dropped(w, rigid_keys(w.gc.bodies));
    lemma_bodies_dropped(rigid, area_keys(w.gc.areas));
    lemma_bodies_dropped_others(w, rigid_keys(w.gc.bodies), body);
    lemma_bodies_dropped_others(rigid, area_keys(w.gc.areas), body);
    let mid = w.bodies_collected();
    lemma_same_links(rigid.bodies_dropped(area_keys(w.gc.areas)), mid);
    assert(mid.body_linked(body));
    let i = choose|i: int| 0 <= i < mid.shapes[shape].bodies.len() && mid.shapes[shape].bodies[i] == body;
    assert(in_use(mid.shapes, shape));
    let tried = mid.shapes_tried();
    assert(tried.shapes.contains_key(shape));
    assert(tried.shapes[shape].bodies == mid.shapes[shape].bodies);
    lemma_joints_dropped_bodies(tried, joint_keys(tried.gc.joints), body);
}

/// Dropping joints leaves the shapes, and the links of every body, as they
/// are.
proof fn lemma_joints_dropped_bodies(w: World, keys: Seq<StoreKey>, body: StoreKey)
    requires
        w.bodies.map.contains_key(body),
    ensures
        w.joints_dropped(keys).shapes == w.shapes,
        w.joints_dropped(keys).bodies.map.contains_key(body),
        w.joints_dropped(keys).bodies.map[body].shape_key == w.bodies.map[body].shape_key,
    decreases keys.len(),
{
    if keys.len() > 0 {
        lemma_joints_dropped_bodies(w, keys.drop_last(), body);
    }
}

} // verus!
