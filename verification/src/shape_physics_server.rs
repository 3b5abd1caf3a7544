//! The lifecycle of shapes: creation, update, and the removal that waits
//! until no body uses the shape.

use crate::attachment::ServerError;
use crate::attachment::collider_desc_of;
use crate::attachment::collider_of;
use crate::attachment::kind_of;
use crate::attachment::kind_of_body;
use crate::attachment;
use crate::body::BodyView;
use crate::consistency::lemma_shape_created;
use crate::consistency::lemma_shape_updated;
use crate::conversors::shape_tag_to_store_key;
use crate::conversors::store_key_to_shape_tag;
use crate::objects::PhysicsShapeTag;
use crate::objects::ShapeDesc;
use crate::servers_storage::ServersStorage;
use crate::servers_storage::World;
use crate::shape::RigidShape;
use crate::shape::ShapeView;
use crate::shape::shape_views;
use crate::storage::Storage;
use crate::storage::StoreKey;
use vstd::prelude::*;

verus! {

/// Whether a shape is stored under `shape` that a body is attached to.
pub open spec fn in_use(shapes: Map<StoreKey, ShapeView>, shape: StoreKey) -> bool {
    shapes.contains_key(shape) && shapes[shape].bodies.len() > 0
}

/// The shapes after removal of the shape under `shape` was asked for: a
/// shape in use stays and is marked for removal; otherwise the shape, if
/// there is one, is gone.
pub open spec fn shape_dropped(shapes: Map<StoreKey, ShapeView>, shape: StoreKey) -> Map<
    StoreKey,
    ShapeView,
> {
    if in_use(shapes, shape) {
        shapes.insert(shape, ShapeView { marked_for_drop: true, ..shapes[shape] })
    } else {
        shapes.remove(shape)
    }
}

impl World {
    /// The world after the shape `made` was stored under the new key
    /// `shape`.
    pub open spec fn shape_created(self, shape: StoreKey, desc: ShapeDesc) -> World {
        World {
            shapes: self.shapes.insert(
                shape,
                ShapeView {
                    self_key: Some(shape),
                    shape_desc: desc,
                    bodies: Seq::empty(),
                    marked_for_drop: false,
                },
            ),
            ..self
        }
    }

    /// The world after the collider of the body under `body`, if it exists,
    /// was built again from the shape under `shape`, which exists: the
    /// collider that the body had is dropped, and the new one is stored
    /// under `collider`.
    pub open spec fn collider_rebuilt(self, body: StoreKey, shape: StoreKey, collider: StoreKey) -> World {
        if self.bodies.map.contains_key(body) {
            let b = self.bodies.map[body];
            let desc = collider_desc_of(kind_of(b), b, self.shapes[shape]);
            World {
                bodies: self.bodies.with(body, BodyView { collider_key: Some(collider), ..b }),
                colliders: self.colliders.dropped_if(b.collider_key).added(
                    collider,
                    collider_of(desc, kind_of(b), b),
                ),
                ..self
            }
        } else {
            self
        }
    }

    /// The world after the colliders of the bodies `bodies` were built
    /// again, one after the other, from the shape under `shape`, the new
    /// colliders stored under `colliders`, one key for each body.
    pub open spec fn colliders_rebuilt(
        self,
        shape: StoreKey,
        bodies: Seq<StoreKey>,
        colliders: Seq<StoreKey>,
    ) -> World
        decreases bodies.len(),
    {
        if bodies.len() == 0 || colliders.len() != bodies.len() {
            self
        } else {
            self.colliders_rebuilt(
                shape,
                bodies.drop_last(),
                colliders.drop_last(),
            ).collider_rebuilt(bodies.last(), shape, colliders.last())
        }
    }

    /// Whether each of the keys `colliders` is new at the time when the
    /// collider of its body is built again.
    pub open spec fn rebuilt_keys_new(
        self,
        shape: StoreKey,
        bodies: Seq<StoreKey>,
        colliders: Seq<StoreKey>,
    ) -> bool
        decreases bodies.len(),
    {
        if bodies.len() == 0 || colliders.len() != bodies.len() {
            true
        } else {
            let before = self.colliders_rebuilt(shape, bodies.drop_last(), colliders.drop_last());
            &&& self.rebuilt_keys_new(shape, bodies.drop_last(), colliders.drop_last())
            &&& before.bodies.map.contains_key(bodies.last())
                ==> !before.colliders.dropped_if(
                before.bodies.map[bodies.last()].collider_key,
            ).map.contains_key(colliders.last())
        }
    }

    /// The world with the geometry of the shape under `shape`, which exists,
    /// replaced, and nothing else.
    pub open spec fn shape_described(self, shape: StoreKey, desc: ShapeDesc) -> World {
        World {
            shapes: self.shapes.insert(shape, ShapeView { shape_desc: desc, ..self.shapes[shape] }),
            ..self
        }
    }

    /// The world after the geometry of the shape under `shape` was replaced,
    /// if the shape exists: the colliders of the bodies attached to it are
    /// built again, in the order of attachment.
    pub open spec fn shape_updated(self, shape: StoreKey, desc: ShapeDesc, colliders: Seq<StoreKey>) -> World {
        if self.shapes.contains_key(shape) {
            self.shape_described(shape, desc).colliders_rebuilt(
                shape,
                self.shapes[shape].bodies,
                colliders,
            )
        } else {
            self
        }
    }

    /// Whether `after` is this world after the geometry of the shape under
    /// `shape` was replaced (see [`World::shape_updated`]), with a new key
    /// for each collider that was built.
    pub open spec fn shape_updated_to(self, after: World, shape: StoreKey, desc: ShapeDesc) -> bool {
        exists|colliders: Seq<StoreKey>|
            {
                &&& self.shapes.contains_key(shape) ==> colliders.len()
                    == self.shapes[shape].bodies.len() && self.shape_described(
                    shape,
                    desc,
                ).rebuilt_keys_new(shape, self.shapes[shape].bodies, colliders)
                &&& after == #[trigger] self.shape_updated(shape, desc, colliders)
            }
    }
}

/// A copy of `list`.
fn copy_of(list: &Vec<StoreKey>) -> (copy: Vec<StoreKey>)
    ensures
        copy@ == list@,
{
    let mut copy: Vec<StoreKey> = Vec::new();
    let mut i: usize = 0;
    while i < list.len()
        invariant
            i <= list.len(),
            copy@ == list@.take(i as int),
        decreases list.len() - i,
    {
        copy.push(list[i]);
        proof {
            assert(list@.take(i + 1) =~= list@.take(i as int).push(list[i as int]));
        }
        i += 1;
    }
    proof {
        assert(list@.take(i as int) =~= list@);
    }
    copy
}

/// The server of shapes.
pub struct ShapeNpServer {}

impl ShapeNpServer {
    /// The server. It holds nothing: every operation is handed the tables
    /// that it works on.
    pub fn new() -> (server: ShapeNpServer) {
        ShapeNpServer {  }
    }

    /// Asks for removal of the shape that `shape_tag` names, and says
    /// whether the request is settled. While a body is attached to the
    /// shape, the shape stays and is marked for removal, and the answer is
    /// `false`: the request is to be made again. Otherwise the shape, if
    /// there is one, is removed, and the answer is `true`.
    pub fn drop_shape(shape_tag: PhysicsShapeTag, shapes_storage: &mut Storage<RigidShape>) -> (settled:
        bool)
        requires
            shape_tag.is_key(),
            old(shapes_storage).wf(),
            old(shapes_storage).generation() < u64::MAX,
        ensures
            final(shapes_storage).wf(),
            settled == !in_use(shape_views(*old(shapes_storage)), shape_tag.key()),
            shape_views(*final(shapes_storage)) == shape_dropped(
                shape_views(*old(shapes_storage)),
                shape_tag.key(),
            ),
            final(shapes_storage).generation() == old(shapes_storage).generation() + (if settled
                && old(shapes_storage)@.contains_key(shape_tag.key()) {
                1int
            } else {
                0int
            }),
            final(shapes_storage).count() == old(shapes_storage).count() - (if settled && old(shapes_storage)@.contains_key(shape_tag.key()) {
                1int
            } else {
                0int
            }),
            settled && old(shapes_storage)@.contains_key(shape_tag.key()) ==> final(shapes_storage).retired(shape_tag.key()),
            final(shapes_storage).follows(old(shapes_storage)),
    {
        let shape_key = shape_tag_to_store_key(shape_tag);
        let safe_to_drop = !ShapeNpServer::has_dependency(shape_key, shapes_storage);
        if !safe_to_drop {
            if let Some(shape) = shapes_storage.get_mut(shape_key) {
                if !shape.marked_for_drop {
                    shape.marked_for_drop = true;
                }
            }
            proof {
                assert(shape_views(*final(shapes_storage)) =~= shape_dropped(
                    shape_views(*old(shapes_storage)),
                    shape_key,
                ));
            }
            false
        } else {
            let _ = shapes_storage.remove(shape_key);
            proof {
                assert(shape_views(*final(shapes_storage)) =~= shape_dropped(
                    shape_views(*old(shapes_storage)),
                    shape_key,
                ));
            }
            true
        }
    }

    /// Whether the shape under `shape_key` is still in use: it exists, and a
    /// body is attached to it.
    pub fn has_dependency(shape_key: StoreKey, shapes_storage: &Storage<RigidShape>) -> (used:
        bool)
        requires
            shapes_storage.wf(),
        ensures
            used == in_use(shape_views(*shapes_storage), shape_key),
    {
        if let Some(shape) = shapes_storage.get(shape_key) {
            if !(shape.bodies().len() == 0) {
                return true;
            }
        }
        false
    }
}

// What callers ask of shapes.

impl ShapeNpServer {
    /// Creates a shape of the kind `shape_desc` that no body uses, and
    /// returns its tag.
    pub fn create_shape(storages: &mut ServersStorage, shape_desc: &ShapeDesc) -> (tag:
        PhysicsShapeTag)
        requires
            old(storages).wf(),
            old(storages).room_for_shape(),
        ensures
            final(storages).wf(),
            old(storages)@.consistent() ==> final(storages)@.consistent(),
            final(storages).one_step_from(old(storages)),
            tag.is_key(),
            !old(storages)@.shapes.contains_key(tag.key()),
            !old(storages).shapes.retired(tag.key()),
            final(storages)@ == old(storages)@.shape_created(tag.key(), *shape_desc),
    {
        let shape = RigidShape::new(shape_desc);
        let shape_key = storages.shapes.insert(shape);
        if let Some(shape) = storages.shapes.get_mut(shape_key) {
            shape.self_key = Some(shape_key);
        }
        proof {
            assert(storages@.shapes =~= old(storages)@.shape_created(shape_key, *shape_desc).shapes);
            if old(storages)@.consistent() {
                lemma_shape_created(old(storages)@, shape_key, *shape_desc);
            }
        }
        store_key_to_shape_tag(shape_key)
    }

    /// Replaces the geometry of the shape that `shape_tag` names, and builds
    /// the colliders of the bodies attached to it again. A tag that does not
    /// resolve is an error, and nothing happens.
    pub fn update_shape(
        storages: &mut ServersStorage,
        shape_tag: PhysicsShapeTag,
        shape_desc: &ShapeDesc,
    ) -> (answer: Result<(), ServerError>)
        requires
            old(storages).wf(),
            shape_tag.is_key(),
            old(storages)@.shapes.contains_key(shape_tag.key()) ==> old(storages).room_for_colliders(
                old(storages)@.shapes[shape_tag.key()].bodies.len(),
            ),
        ensures
            final(storages).wf(),
            old(storages)@.consistent() ==> final(storages)@.consistent(),
            old(storages)@.shapes.contains_key(shape_tag.key()) ==> final(storages).steps_from(
                old(storages),
                old(storages)@.shapes[shape_tag.key()].bodies.len(),
            ),
            !old(storages)@.shapes.contains_key(shape_tag.key()) ==> final(storages).steps_from(
                old(storages),
                0,
            ),
            answer == (if old(storages)@.shapes.contains_key(shape_tag.key()) {
                Ok::<(), ServerError>(())
            } else {
                Err::<(), ServerError>(ServerError::ShapeNotFound)
            }),
            old(storages)@.shape_updated_to(final(storages)@, shape_tag.key(), *shape_desc),
    {
        let shape_key = shape_tag_to_store_key(shape_tag);
        let mut b_keys: Vec<StoreKey> = Vec::new();
        let mut found = false;
        if let Some(shape) = storages.shapes.get_mut(shape_key) {
            shape.update(shape_desc);
            b_keys = copy_of(shape.bodies());
            found = true;
        }
        let ghost start = storages@;
        let ghost mut keys: Seq<StoreKey> = Seq::empty();
        proof {
            if found {
                assert(start.shapes =~= old(storages)@.shapes.insert(
                    shape_key,
                    ShapeView { shape_desc: *shape_desc, ..old(storages)@.shapes[shape_key] },
                ));
                assert forall|k: StoreKey| #[trigger] start.shapes.contains_key(k) implies start.shapes[k].self_key
                    == Some(k) by {
                    assert(old(storages)@.shapes.contains_key(k));
                }
            } else {
                assert(start.shapes =~= old(storages)@.shapes);
            }
            assert(b_keys@.take(0) =~= Seq::<StoreKey>::empty());
        }
        let mut i: usize = 0;
        while i < b_keys.len()
            invariant
                i <= b_keys.len(),
                found == old(storages)@.shapes.contains_key(shape_key),
                found ==> b_keys@ == old(storages)@.shapes[shape_key].bodies,
                !found ==> b_keys@.len() == 0,
                found ==> old(storages).room_for_colliders(b_keys@.len()),
                storages.wf(),
                storages.steps_from(old(storages), i as nat),
                start.shapes.contains_key(shape_key) == found,
                storages@.shapes == start.shapes,
                keys.len() == i,
                storages@ == start.colliders_rebuilt(shape_key, b_keys@.take(i as int), keys),
                start.rebuilt_keys_new(shape_key, b_keys@.take(i as int), keys),
            decreases b_keys.len() - i,
        {
            let body_key: StoreKey = b_keys[i];
            let ghost before = storages@;
            let ghost mut key: StoreKey = body_key;
            if let Some(shape) = storages.shapes.get(shape_key) {
                if let Some(body) = storages.bodies.get_body_mut(body_key) {
                    let kind = kind_of_body(body);
                    attachment::drop_collider(body, &mut storages.colliders);
                    let collider_desc = attachment::create_collider_desc(kind, body, shape);
                    attachment::install_collider(
                        kind,
                        body,
                        &collider_desc,
                        &mut storages.colliders,
                    );
                    proof {
                        key = body.collider_key->0;
                    }
                }
            }
            proof {
                let grown = b_keys@.take(i + 1);
                assert(grown.drop_last() =~= b_keys@.take(i as int));
                assert(grown.last() == body_key);
                assert(keys.push(key).drop_last() =~= keys);
                assert(storages@.bodies =~= before.collider_rebuilt(body_key, shape_key, key).bodies);
                assert(storages@ == before.collider_rebuilt(body_key, shape_key, key));
                keys = keys.push(key);
            }
            i += 1;
        }
        proof {
            assert(b_keys@.take(i as int) =~= b_keys@);
            if !found {
                assert(storages@ == old(storages)@);
            }
            assert(storages@ == old(storages)@.shape_updated(shape_key, *shape_desc, keys));
            if old(storages)@.consistent() {
                lemma_shape_updated(old(storages)@, shape_key, *shape_desc, keys);
            }
        }
        if found {
            Ok(())
        } else {
            Err(ServerError::ShapeNotFound)
        }
    }
}

} // verus!
