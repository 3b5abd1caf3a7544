//! The values that callers exchange with the servers: opaque tags, collision
//! groups, descriptors, events and the queue of released tags.

use amethyst_core::ecs::Entity;
use vstd::prelude::*;

verus! {

/// The entity type of the host application. The servers never look inside
/// it: they store it and hand it back.
#[verifier::external_type_specification]
#[verifier::external_body]
pub struct ExEntity(Entity);

/// The opaque tag of a rigid body. Callers treat it as unstructured; the servers
/// issue the `UsizeU64` form only, which carries a slot index and a
/// generation.
#[derive(Clone, Copy, Debug, PartialEq, Eq, Structural, Hash)]
pub enum PhysicsRigidBodyTag {
    U32(u32),
    U64(u64),
    U32U32(u32, u32),
    U64U64(u64, u64),
    UsizeU32(usize, u32),
    UsizeU64(usize, u64),
}

impl PhysicsRigidBodyTag {
    /// Records in `gc` that the last handle to this rigid body was released.
    pub fn request_resource_removal(self, gc: &mut PhysicsGarbageCollector)
        ensures
            final(gc)@ == (GcView { bodies: old(gc)@.bodies.push(self), ..old(gc)@ }),
    {
        gc.bodies.push(self);
    }
}

/// The opaque tag of a area. Callers treat it as unstructured; the servers
/// issue the `UsizeU64` form only, which carries a slot index and a
/// generation.
#[derive(Clone, Copy, Debug, PartialEq, Eq, Structural, Hash)]
pub enum PhysicsAreaTag {
    U32(u32),
    U64(u64),
    U32U32(u32, u32),
    U64U64(u64, u64),
    UsizeU32(usize, u32),
    UsizeU64(usize, u64),
}

impl PhysicsAreaTag {
    /// Records in `gc` that the last handle to this area was released.
    pub fn request_resource_removal(self, gc: &mut PhysicsGarbageCollector)
        ensures
            final(gc)@ == (GcView { areas: old(gc)@.areas.push(self), ..old(gc)@ }),
    {
        gc.areas.push(self);
    }
}

/// The opaque tag of a shape. Callers treat it as unstructured; the servers
/// issue the `UsizeU64` form only, which carries a slot index and a
/// generation.
#[derive(Clone, Copy, Debug, PartialEq, Eq, Structural, Hash)]
pub enum PhysicsShapeTag {
    U32(u32),
    U64(u64),
    U32U32(u32, u32),
    U64U64(u64, u64),
    UsizeU32(usize, u32),
    UsizeU64(usize, u64),
}

impl PhysicsShapeTag {
    /// Records in `gc` that the last handle to this shape was released.
    pub fn request_resource_removal(self, gc: &mut PhysicsGarbageCollector)
        ensures
            final(gc)@ == (GcView { shapes: old(gc)@.shapes.push(self), ..old(gc)@ }),
    {
        gc.shapes.push(self);
    }
}

/// The opaque tag of a joint. Callers treat it as unstructured; the servers
/// issue the `UsizeU64` form only, which carries a slot index and a
/// generation.
#[derive(Clone, Copy, Debug, PartialEq, Eq, Structural, Hash)]
pub enum PhysicsJointTag {
    U32(u32),
    U64(u64),
    U32U32(u32, u32),
    U64U64(u64, u64),
    UsizeU32(usize, u32),
    UsizeU64(usize, u64),
}

impl PhysicsJointTag {
    /// Records in `gc` that the last handle to this joint was released.
    pub fn request_resource_removal(self, gc: &mut PhysicsGarbageCollector)
        ensures
            final(gc)@ == (GcView { joints: old(gc)@.joints.push(self), ..old(gc)@ }),
    {
        gc.joints.push(self);
    }
}

/// The tags whose handles were released since the last collection, one list
/// per kind, each in the order of release.
#[derive(Debug)]
pub struct PhysicsGarbageCollector {
    pub bodies: Vec<PhysicsRigidBodyTag>,
    pub areas: Vec<PhysicsAreaTag>,
    pub shapes: Vec<PhysicsShapeTag>,
    pub joints: Vec<PhysicsJointTag>,
}

/// [`PhysicsGarbageCollector`] as a mathematical value.
#[verifier::ext_equal]
pub struct GcView {
    pub bodies: Seq<PhysicsRigidBodyTag>,
    pub areas: Seq<PhysicsAreaTag>,
    pub shapes: Seq<PhysicsShapeTag>,
    pub joints: Seq<PhysicsJointTag>,
}

impl View for PhysicsGarbageCollector {
    type V = GcView;

    open spec fn view(&self) -> GcView {
        GcView {
            bodies: self.bodies@,
            areas: self.areas@,
            shapes: self.shapes@,
            joints: self.joints@,
        }
    }
}

impl GcView {
    /// The collector with nothing queued.
    pub open spec fn empty() -> GcView {
        GcView { bodies: Seq::empty(), areas: Seq::empty(), shapes: Seq::empty(), joints: Seq::empty() }
    }

    /// The number of queued tags.
    pub open spec fn len(self) -> nat {
        self.bodies.len() + self.areas.len() + self.shapes.len() + self.joints.len()
    }
}

impl PhysicsGarbageCollector {
    /// A collector with four empty lists.
    pub fn new() -> (gc: PhysicsGarbageCollector)
        ensures
            gc@ == GcView::empty(),
    {
        PhysicsGarbageCollector {
            bodies: Vec::new(),
            areas: Vec::new(),
            shapes: Vec::new(),
            joints: Vec::new(),
        }
    }
}

impl Default for PhysicsGarbageCollector {
    fn default() -> (gc: PhysicsGarbageCollector)
        ensures
            gc@ == GcView::empty(),
    {
        PhysicsGarbageCollector::new()
    }
}

/// The number of collision groups that callers can name: group ids run from
/// zero up to, and not including, this bound.
pub const COLLISION_GROUP_BOUND: u8 = 29;

/// A collision group id below [`COLLISION_GROUP_BOUND`].
#[derive(Clone, Copy, Debug)]
pub struct CollisionGroup {
    group: u8,
}

impl CollisionGroup {
    #[verifier::type_invariant]
    spec fn in_range(self) -> bool {
        self.group < COLLISION_GROUP_BOUND
    }

    /// The group id.
    pub closed spec fn id(self) -> u8 {
        self.group
    }

    /// The group with id `group`.
    pub fn new(group: u8) -> (g: CollisionGroup)
        requires
            group < COLLISION_GROUP_BOUND,
        ensures
            g.id() == group,
    {
        CollisionGroup { group }
    }

    /// The group id, which lies below the bound.
    pub fn get(self) -> (id: u8)
        ensures
            id == self.id(),
            id < COLLISION_GROUP_BOUND,
    {
        proof {
            use_type_invariant(&self);
        }
        self.group
    }
}

impl Default for CollisionGroup {
    /// The default group is group one.
    fn default() -> (g: CollisionGroup)
        ensures
            g.id() == 1,
    {
        CollisionGroup { group: 1 }
    }
}

/// How the engine treats a body.
#[derive(Clone, Copy, Debug, PartialEq, Eq, Structural, Hash)]
pub enum BodyMode {
    /// Ignored by the engine.
    Disabled,
    /// Cannot move.
    Static,
    /// Moves and is subject to forces.
    Dynamic,
    /// Moved by the caller; forces and constraints do not affect it.
    Kinematic,
}

impl Default for BodyMode {
    fn default() -> (mode: BodyMode)
        ensures
            mode == BodyMode::Dynamic,
    {
        BodyMode::Dynamic
    }
}

/// One flag per axis, used for the translation and rotation locks of a body.
#[derive(Clone, Copy, Debug, PartialEq, Eq, Structural, Hash)]
pub struct AxisLocks {
    pub x: bool,
    pub y: bool,
    pub z: bool,
}

impl AxisLocks {
    /// Locks as given, axis by axis.
    pub fn new(x: bool, y: bool, z: bool) -> (locks: AxisLocks)
        ensures
            locks == (AxisLocks { x, y, z }),
    {
        AxisLocks { x, y, z }
    }

    /// No axis locked.
    pub fn free() -> (locks: AxisLocks)
        ensures
            locks == (AxisLocks { x: false, y: false, z: false }),
    {
        AxisLocks { x: false, y: false, z: false }
    }
}

/// What a rigid body is created from, as far as the bookkeeping goes; mass
/// and material stay with the engine.
#[derive(Debug)]
pub struct RigidBodyDesc {
    pub mode: BodyMode,
    pub belong_to: Vec<CollisionGroup>,
    pub collide_with: Vec<CollisionGroup>,
    pub lock_translation_x: bool,
    pub lock_translation_y: bool,
    pub lock_translation_z: bool,
    pub lock_rotation_x: bool,
    pub lock_rotation_y: bool,
    pub lock_rotation_z: bool,
    pub contacts_to_report: usize,
}

/// What an area is created from.
#[derive(Debug)]
pub struct AreaDesc {
    pub belong_to: Vec<CollisionGroup>,
    pub collide_with: Vec<CollisionGroup>,
}

/// The kind of a shape. The measures of the geometry stay with the engine.
#[derive(Clone, Copy, Debug, PartialEq, Eq, Structural, Hash)]
pub enum ShapeDesc {
    Sphere,
    Cube,
    Capsule,
    Cylinder,
    Plane,
    Convex,
    TriMesh,
    Compound,
}

impl ShapeDesc {
    /// Concave geometry cannot be a solid volume: only a triangle mesh is
    /// concave.
    pub open spec fn concave(self) -> bool {
        self is TriMesh
    }
}

/// The kind of a joint.
#[derive(Clone, Copy, Debug, PartialEq, Eq, Structural, Hash)]
pub enum JointDesc {
    Fixed,
}

/// Where a joint is first placed: at a given placement, which the engine
/// keeps, or between its two bodies.
#[derive(Clone, Copy, Debug, PartialEq, Eq, Structural, Hash)]
pub enum JointPosition {
    Exact,
    Middle,
}

/// What an area reports about a body that begins or ends to overlap it: the
/// body's tag and the entity recorded for it.
#[derive(Clone, Copy, Debug, PartialEq)]
pub enum OverlapEvent {
    Enter(PhysicsRigidBodyTag, Option<Entity>),
    Exit(PhysicsRigidBodyTag, Option<Entity>),
}

/// A contact of a rigid body in the last step: the other body's tag and the
/// entity recorded for it. The geometry of the contact stays with the engine.
#[derive(Clone, Copy, Debug, PartialEq)]
pub struct ContactEvent {
    pub other_body: PhysicsRigidBodyTag,
    pub other_entity: Option<Entity>,
}

} // verus!
