//! All tables of one physics world, and the world as a mathematical value.

use crate::body_storage::BodyStorage;
use crate::body_storage::BodyTable;
use crate::collider_storage::ColliderStorage;
use crate::collider_storage::ColliderTable;
use crate::force_generator_storage::ForceGeneratorStorage;
use crate::joint_storage::JointStorage;
use crate::joint_storage::JointTable;
use crate::objects::GcView;
use crate::objects::PhysicsGarbageCollector;
use crate::shape::RigidShape;
use crate::shape::ShapeView;
use crate::shape::shape_views;
use crate::shape::shapes_keyed;
use crate::storage::Storage;
use crate::storage::StoreKey;
use crate::watch_list::sorted;
use vstd::prelude::*;

verus! {

/// A physics world as a mathematical value.
#[verifier::ext_equal]
pub struct World {
    /// The tags released and not yet collected.
    pub gc: GcView,
    pub bodies: BodyTable,
    pub colliders: ColliderTable,
    pub joints: JointTable,
    pub shapes: Map<StoreKey, ShapeView>,
    /// The rigid bodies that report contacts, in the order of keys.
    pub watch_contacts: Seq<StoreKey>,
}

impl World {
    /// The world without objects, with nothing queued.
    pub open spec fn empty() -> World {
        World {
            gc: GcView::empty(),
            bodies: BodyTable { map: Map::empty(), removed: Seq::empty() },
            colliders: ColliderTable {
                map: Map::empty(),
                inserted: Seq::empty(),
                removed: Seq::empty(),
            },
            joints: JointTable { map: Map::empty(), inserted: Seq::empty(), removed: Seq::empty() },
            shapes: Map::empty(),
            watch_contacts: Seq::empty(),
        }
    }

    /// What holds of every world that the servers made: every object knows
    /// its own key, joints are well formed, the watch-list is sorted, and
    /// every queued tag encodes a key.
    pub open spec fn wf(self) -> bool {
        &&& self.bodies.keyed()
        &&& shapes_keyed(self.shapes)
        &&& forall|k: StoreKey| #[trigger]
            self.joints.map.contains_key(k) ==> self.joints.map[k].self_key == Some(k)
                && self.joints.map[k].wf()
        &&& sorted(self.watch_contacts)
        &&& gc_keyed(self.gc)
    }
}

/// Whether every queued tag has the form that encodes a key.
pub open spec fn gc_keyed(gc: GcView) -> bool {
    &&& forall|i: int| 0 <= i < gc.bodies.len() ==> (#[trigger] gc.bodies[i]).is_key()
    &&& forall|i: int| 0 <= i < gc.areas.len() ==> (#[trigger] gc.areas[i]).is_key()
    &&& forall|i: int| 0 <= i < gc.shapes.len() ==> (#[trigger] gc.shapes[i]).is_key()
    &&& forall|i: int| 0 <= i < gc.joints.len() ==> (#[trigger] gc.joints[i]).is_key()
}

/// All tables of one physics world.
pub struct ServersStorage {
    pub gc: PhysicsGarbageCollector,
    pub bodies: BodyStorage,
    pub colliders: ColliderStorage,
    pub joints: JointStorage,
    pub force_generators: ForceGeneratorStorage,
    pub shapes: Storage<RigidShape>,
    /// The rigid bodies that report contacts, in the order of keys.
    pub watch_contacts: Vec<StoreKey>,
}

impl View for ServersStorage {
    type V = World;

    open spec fn view(&self) -> World {
        World {
            gc: self.gc@,
            bodies: self.bodies@,
            colliders: self.colliders@,
            joints: self.joints@,
            shapes: shape_views(self.shapes),
            watch_contacts: self.watch_contacts@,
        }
    }
}

impl ServersStorage {
    /// The invariant of the tables, and of the world that they hold.
    pub open spec fn wf(&self) -> bool {
        &&& self.bodies.wf()
        &&& self.colliders.wf()
        &&& self.joints.wf()
        &&& self.force_generators.wf()
        &&& self.shapes.wf()
        &&& self@.wf()
    }

    /// Whether a body can be created: the count of bodies fits its integer.
    pub open spec fn room_for_body(&self) -> bool {
        self.bodies.count() < usize::MAX
    }

    /// Whether a shape can be created: the count of shapes fits its integer.
    pub open spec fn room_for_shape(&self) -> bool {
        self.shapes.count() < usize::MAX
    }

    /// Whether a joint can be created: the count of joints fits its integer.
    pub open spec fn room_for_joint(&self) -> bool {
        self.joints.count() < usize::MAX
    }

    /// Whether `n` colliders can be dropped and built: the counts of stored
    /// and of removed colliders fit their integers.
    pub open spec fn room_for_colliders(&self, n: nat) -> bool {
        &&& self.colliders.count() + n <= usize::MAX
        &&& self.colliders.generation() + n <= u64::MAX
    }

    /// Whether the released objects can be collected: the counts of removed
    /// objects fit their integers.
    pub open spec fn room_for_collection(&self) -> bool {
        let bodies = self@.gc.bodies.len() + self@.gc.areas.len();
        &&& self.bodies.generation() + bodies <= u64::MAX
        &&& self.colliders.generation() + bodies <= u64::MAX
        &&& self.shapes.generation() + self@.gc.shapes.len() <= u64::MAX
        &&& self.joints.generation() + self@.gc.joints.len() <= u64::MAX
    }

    /// Whether every table can take `n` more insertions and `n` more
    /// removals: the counts of stored and of removed objects stay within
    /// the integers that hold them. This is room enough for any operation
    /// on `n` objects.
    pub open spec fn spare(&self, n: nat) -> bool {
        &&& self.bodies.count() + n <= usize::MAX
        &&& self.bodies.generation() + n <= u64::MAX
        &&& self.colliders.count() + n <= usize::MAX
        &&& self.colliders.generation() + n <= u64::MAX
        &&& self.joints.count() + n <= usize::MAX
        &&& self.joints.generation() + n <= u64::MAX
        &&& self.shapes.count() + n <= usize::MAX
        &&& self.shapes.generation() + n <= u64::MAX
    }

    /// An empty world.
    pub fn new() -> (storages: ServersStorage)
        ensures
            storages.wf(),
            storages@ == World::empty(),
            storages@.consistent(),
            forall|n: nat| n <= usize::MAX ==> #[trigger] storages.spare(n),
    {
        let storages = ServersStorage {
            gc: PhysicsGarbageCollector::default(),
            bodies: BodyStorage::default(),
            colliders: ColliderStorage::default(),
            joints: JointStorage::default(),
            force_generators: ForceGeneratorStorage::default(),
            shapes: Storage::new(50, 50),
            watch_contacts: Vec::new(),
        };
        assert(storages@.shapes =~= Map::empty());
        storages
    }

    /// Whether every table can take `n` more insertions and `n` more
    /// removals.
    pub fn has_spare(&self, n: usize) -> (r: bool)
        requires
            self.wf(),
        ensures
            r == self.spare(n as nat),
    {
        let left: usize = usize::MAX - n;
        let young: u64 = if n as u64 as usize == n {
            u64::MAX - n as u64
        } else {
            return false;
        };
        self.bodies.len() <= left && self.bodies.removals() <= young && self.colliders.len()
            <= left && self.colliders.removals() <= young && self.joints.len() <= left
            && self.joints.removals() <= young && self.shapes.len() <= left
            && self.shapes.removals() <= young
    }

    /// The table of bodies, for writing.
    pub fn bodies_w(&mut self) -> (table: &mut BodyStorage)
        ensures
            *table == old(self).bodies,
            *final(self) == (ServersStorage { bodies: *final(table), ..*old(self) }),
    {
        &mut self.bodies
    }

    /// The table of bodies, for reading.
    pub fn bodies_r(&self) -> (table: &BodyStorage)
        ensures
            *table == self.bodies,
    {
        &self.bodies
    }

    /// The table of colliders, for writing.
    pub fn colliders_w(&mut self) -> (table: &mut ColliderStorage)
        ensures
            *table == old(self).colliders,
            *final(self) == (ServersStorage { colliders: *final(table), ..*old(self) }),
    {
        &mut self.colliders
    }

    /// The table of colliders, for reading.
    pub fn colliders_r(&self) -> (table: &ColliderStorage)
        ensures
            *table == self.colliders,
    {
        &self.colliders
    }

    /// The table of joints, for writing.
    pub fn joints_w(&mut self) -> (table: &mut JointStorage)
        ensures
            *table == old(self).joints,
            *final(self) == (ServersStorage { joints: *final(table), ..*old(self) }),
    {
        &mut self.joints
    }

    /// The table of joints, for reading.
    pub fn joints_r(&self) -> (table: &JointStorage)
        ensures
            *table == self.joints,
    {
        &self.joints
    }

    /// The table of force generators, for writing.
    pub fn force_generator_w(&mut self) -> (table: &mut ForceGeneratorStorage)
        ensures
            *table == old(self).force_generators,
            *final(self) == (ServersStorage { force_generators: *final(table), ..*old(self) }),
    {
        &mut self.force_generators
    }

    /// The table of force generators, for reading.
    pub fn force_generator_r(&self) -> (table: &ForceGeneratorStorage)
        ensures
            *table == self.force_generators,
    {
        &self.force_generators
    }

    /// The table of shapes, for writing.
    pub fn shapes_w(&mut self) -> (table: &mut Storage<RigidShape>)
        ensures
            *table == old(self).shapes,
            *final(self) == (ServersStorage { shapes: *final(table), ..*old(self) }),
    {
        &mut self.shapes
    }

    /// The table of shapes, for reading.
    pub fn shapes_r(&self) -> (table: &Storage<RigidShape>)
        ensures
            *table == self.shapes,
    {
        &self.shapes
    }
}

} // verus!
