//! The bookkeeping record of a shape, with the bodies that use it.

use crate::objects::ShapeDesc;
use crate::storage::Storage;
use crate::storage::StoreKey;
use vstd::prelude::*;

verus! {

/// A shape that any number of bodies can be attached to.
#[derive(Debug)]
pub struct RigidShape {
    pub self_key: Option<StoreKey>,
    pub shape_desc: ShapeDesc,
    pub bodies: Vec<StoreKey>,
    /// Set when removal of the shape was asked for while bodies were still
    /// attached to it. The shape is removed once no body uses it.
    pub marked_for_drop: bool,
}

/// `list` without every occurrence of `key`, the rest in the same order.
pub open spec fn without(list: Seq<StoreKey>, key: StoreKey) -> Seq<StoreKey> {
    list.filter(|b: StoreKey| b != key)
}

/// Filtering a list that grew by one element: the element is kept or not.
proof fn lemma_without_push(list: Seq<StoreKey>, last: StoreKey, key: StoreKey)
    ensures
        without(list.push(last), key) == (if last != key {
            without(list, key).push(last)
        } else {
            without(list, key)
        }),
{
    let grown = list.push(last);
    assert(grown.drop_last() =~= list);
    reveal_with_fuel(Seq::filter, 2);
}

/// A list without `key` does not hold `key`, and holds every other key that
/// the list held.
pub proof fn lemma_without_holds(list: Seq<StoreKey>, key: StoreKey)
    ensures
        !without(list, key).contains(key),
        forall|b: StoreKey| b != key ==> (#[trigger] without(list, key).contains(b) <==> list.contains(b)),
        without(list, key).len() <= list.len(),
        !list.contains(key) ==> without(list, key) == list,
    decreases list.len(),
{
    if list.len() == 0 {
        reveal_with_fuel(Seq::filter, 1);
        assert(without(list, key) =~= list);
    } else {
        let front = list.drop_last();
        let last = list.last();
        assert(list =~= front.push(last));
        lemma_without_holds(front, key);
        lemma_without_push(front, last, key);
        let kept = without(front, key);
        assert forall|b: StoreKey| b != key implies (#[trigger] without(list, key).contains(b)
            <==> list.contains(b)) by {
            if without(list, key).contains(b) {
                let i = choose|i: int| 0 <= i < without(list, key).len() && without(list, key)[i] == b;
                if last != key && i == kept.len() {
                    assert(list[list.len() - 1] == b);
                } else {
                    assert(kept[i] == b);
                    assert(kept.contains(b));
                    let j = choose|j: int| 0 <= j < front.len() && front[j] == b;
                    assert(list[j] == b);
                }
            }
            if list.contains(b) {
                let j = choose|j: int| 0 <= j < list.len() && list[j] == b;
                if j < front.len() {
                    assert(front[j] == b);
                    assert(front.contains(b));
                    assert(kept.contains(b));
                    let i = choose|i: int| 0 <= i < kept.len() && kept[i] == b;
                    assert(without(list, key)[i] == b);
                } else {
                    assert(last == b);
                    assert(without(list, key)[kept.len() as int] == b);
                }
            }
        }
        if without(list, key).contains(key) {
            let i = choose|i: int| 0 <= i < without(list, key).len() && without(list, key)[i] == key;
            if last != key && i == kept.len() {
            } else {
                assert(kept[i] == key);
                assert(kept.contains(key));
            }
        }
        if !list.contains(key) {
            assert(last != key) by {
                assert(list[list.len() - 1] == last);
            }
            assert(!front.contains(key)) by {
                if front.contains(key) {
                    let j = choose|j: int| 0 <= j < front.len() && front[j] == key;
                    assert(list[j] == key);
                }
            }
        }
    }
}

/// [`RigidShape`] as a mathematical value.
pub struct ShapeView {
    pub self_key: Option<StoreKey>,
    pub shape_desc: ShapeDesc,
    /// The bodies attached to the shape, in the order of attachment.
    pub bodies: Seq<StoreKey>,
    pub marked_for_drop: bool,
}

impl View for RigidShape {
    type V = ShapeView;

    open spec fn view(&self) -> ShapeView {
        ShapeView {
            self_key: self.self_key,
            shape_desc: self.shape_desc,
            bodies: self.bodies@,
            marked_for_drop: self.marked_for_drop,
        }
    }
}

impl ShapeView {
    /// The shape with `body` attached.
    pub open spec fn registered(self, body: StoreKey) -> ShapeView {
        ShapeView { bodies: self.bodies.push(body), ..self }
    }

    /// The shape with `body` detached, wherever it occurred.
    pub open spec fn unregistered(self, body: StoreKey) -> ShapeView {
        ShapeView { bodies: without(self.bodies, body), ..self }
    }
}

/// The shapes of a store as mathematical values.
pub open spec fn shape_views(shapes: Storage<RigidShape>) -> Map<StoreKey, ShapeView> {
    shapes@.map_values(|s: RigidShape| s@)
}

/// The shapes after `body` was detached from the shape that `shape` names,
/// if it names one that exists.
pub open spec fn unregister(
    shapes: Map<StoreKey, ShapeView>,
    shape: Option<StoreKey>,
    body: Option<StoreKey>,
) -> Map<StoreKey, ShapeView> {
    if shape is Some && body is Some && shapes.contains_key(shape->0) {
        shapes.insert(shape->0, shapes[shape->0].unregistered(body->0))
    } else {
        shapes
    }
}

/// Every shape knows its own key.
pub open spec fn shapes_keyed(shapes: Map<StoreKey, ShapeView>) -> bool {
    forall|k: StoreKey| #[trigger] shapes.contains_key(k) ==> shapes[k].self_key == Some(k)
}

impl RigidShape {
    /// Creates a shape that no body uses.
    pub fn new(shape_desc: &ShapeDesc) -> (shape: RigidShape)
        ensures
            shape@ == (ShapeView {
                self_key: None,
                shape_desc: *shape_desc,
                bodies: Seq::empty(),
                marked_for_drop: false,
            }),
    {
        RigidShape {
            self_key: None,
            shape_desc: *shape_desc,
            bodies: Vec::new(),
            marked_for_drop: false,
        }
    }

    /// Replaces the geometry. The attached bodies stay attached.
    pub fn update(&mut self, shape_desc: &ShapeDesc)
        ensures
            final(self)@ == (ShapeView { shape_desc: *shape_desc, ..old(self)@ }),
    {
        self.shape_desc = *shape_desc;
    }

    /// The handle by which colliders refer to the geometry: the shape's key.
    pub fn shape_handle(&self) -> (handle: Option<StoreKey>)
        ensures
            handle == self.self_key,
    {
        self.self_key
    }

    /// Attaches `body`.
    pub fn register_body(&mut self, body: StoreKey)
        ensures
            final(self)@ == old(self)@.registered(body),
    {
        self.bodies.push(body);
    }

    /// Detaches `body`, wherever it occurs.
    pub fn unregister_body(&mut self, body: StoreKey)
        ensures
            final(self)@ == old(self)@.unregistered(body),
    {
        let mut kept: Vec<StoreKey> = Vec::new();
        let mut i: usize = 0;
        proof {
            reveal_with_fuel(Seq::filter, 1);
            assert(self.bodies@.take(0) =~= Seq::<StoreKey>::empty());
        }
        while i < self.bodies.len()
            invariant
                i <= self.bodies.len(),
                self.bodies == old(self).bodies,
                self.shape_desc == old(self).shape_desc,
                self.self_key == old(self).self_key,
                self.marked_for_drop == old(self).marked_for_drop,
                kept@ == without(self.bodies@.take(i as int), body),
            decreases self.bodies.len() - i,
        {
            let b: StoreKey = self.bodies[i];
            proof {
                assert(self.bodies@.take(i + 1) =~= self.bodies@.take(i as int).push(b));
                lemma_without_push(self.bodies@.take(i as int), b, body);
            }
            if b != body {
                kept.push(b);
            }
            i += 1;
        }
        proof {
            assert(self.bodies@.take(i as int) =~= self.bodies@);
        }
        self.bodies = kept;
    }

    /// The bodies attached to the shape.
    pub fn bodies(&self) -> (bodies: &Vec<StoreKey>)
        ensures
            bodies@ == self@.bodies,
    {
        &self.bodies
    }

    /// Whether the geometry is concave, and so cannot be a solid volume.
    pub fn is_concave(&self) -> (concave: bool)
        ensures
            concave == self@.shape_desc.concave(),
    {
        match self.shape_desc {
            ShapeDesc::TriMesh => true,
            _ => false,
        }
    }
}

} // verus!
