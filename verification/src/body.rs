//! The bookkeeping record of a body: a rigid body or an area.

use crate::objects::AxisLocks;
use crate::objects::BodyMode;
use crate::objects::ContactEvent;
use crate::objects::OverlapEvent;
use crate::storage::StoreKey;
use amethyst_core::ecs::Entity;
use ncollide3d::pipeline::object::CollisionGroups;
use vstd::prelude::*;

verus! {

/// The settings of the engine's rigid body that the bookkeeping reads and
/// writes. The engine's own body is kept in step with them.
#[derive(Clone, Copy, Debug, PartialEq, Eq, Structural, Hash)]
pub struct NpRigidBody {
    /// How the engine treats the body.
    pub status: BodyMode,
    /// The axes along which the body does not translate.
    pub kinematic_translations: AxisLocks,
    /// The axes around which the body does not rotate.
    pub kinematic_rotations: AxisLocks,
    /// Whether the body is to be woken from sleep before the next step.
    pub activated: bool,
}

/// What a body holds beyond what rigid bodies and areas share.
#[derive(Debug)]
pub enum BodyData {
    /// A rigid body: how many contacts it reports, and the contacts of the
    /// last step.
    Rigid { contacts_to_report: usize, contacts: Vec<ContactEvent> },
    /// An area: the overlap events of the last step.
    Area(Vec<OverlapEvent>),
}

/// [`BodyData`] as a mathematical value.
pub enum BodyDataView {
    Rigid { contacts_to_report: usize, contacts: Seq<ContactEvent> },
    Area(Seq<OverlapEvent>),
}

impl View for BodyData {
    type V = BodyDataView;

    open spec fn view(&self) -> BodyDataView {
        match *self {
            BodyData::Rigid { contacts_to_report, contacts } => BodyDataView::Rigid {
                contacts_to_report,
                contacts: contacts@,
            },
            BodyData::Area(events) => BodyDataView::Area(events@),
        }
    }
}

/// A body.
///
/// A body is:
/// - Rigid: a rigid body of any mode
/// - Area: a static rigid body whose collider is a sensor
#[derive(Debug)]
pub struct Body {
    pub self_key: Option<StoreKey>,
    pub np_body: NpRigidBody,
    pub body_data: BodyData,
    pub collider_key: Option<StoreKey>,
    pub shape_key: Option<StoreKey>,
    pub entity: Option<Entity>,
    pub np_collision_groups: CollisionGroups,
}

/// [`Body`] as a mathematical value.
pub struct BodyView {
    pub self_key: Option<StoreKey>,
    pub np_body: NpRigidBody,
    pub body_data: BodyDataView,
    pub collider_key: Option<StoreKey>,
    pub shape_key: Option<StoreKey>,
    pub entity: Option<Entity>,
    pub np_collision_groups: CollisionGroups,
}

impl View for Body {
    type V = BodyView;

    open spec fn view(&self) -> BodyView {
        BodyView {
            self_key: self.self_key,
            np_body: self.np_body,
            body_data: self.body_data@,
            collider_key: self.collider_key,
            shape_key: self.shape_key,
            entity: self.entity,
            np_collision_groups: self.np_collision_groups,
        }
    }
}

impl BodyView {
    /// The body with its request to wake up taken.
    pub open spec fn settled(self) -> BodyView {
        BodyView { np_body: NpRigidBody { activated: false, ..self.np_body }, ..self }
    }

    /// The body asked to wake up.
    pub open spec fn activated(self) -> BodyView {
        BodyView { np_body: NpRigidBody { activated: true, ..self.np_body }, ..self }
    }

    /// The body treated by the engine in the mode `status`.
    pub open spec fn with_status(self, status: BodyMode) -> BodyView {
        BodyView { np_body: NpRigidBody { status, ..self.np_body }, ..self }
    }

    /// The body with the translation locks `locks`.
    pub open spec fn with_translation_locks(self, locks: AxisLocks) -> BodyView {
        BodyView { np_body: NpRigidBody { kinematic_translations: locks, ..self.np_body }, ..self }
    }

    /// The body with the rotation locks `locks`.
    pub open spec fn with_rotation_locks(self, locks: AxisLocks) -> BodyView {
        BodyView { np_body: NpRigidBody { kinematic_rotations: locks, ..self.np_body }, ..self }
    }

    /// The kind-specific data of a rigid body that reports `count` contacts:
    /// the contacts gathered so far stay, unless the count is zero. An area
    /// is left as it is.
    pub open spec fn with_report_count(self, count: usize) -> BodyView {
        match self.body_data {
            BodyDataView::Rigid { contacts, .. } => BodyView {
                body_data: BodyDataView::Rigid {
                    contacts_to_report: count,
                    contacts: if count == 0 {
                        Seq::empty()
                    } else {
                        contacts
                    },
                },
                ..self
            },
            BodyDataView::Area(_) => self,
        }
    }

    /// The number of contacts that a rigid body reports; zero for an area.
    pub open spec fn report_count(self) -> usize {
        match self.body_data {
            BodyDataView::Rigid { contacts_to_report, .. } => contacts_to_report,
            BodyDataView::Area(_) => 0,
        }
    }

    /// The contacts of a rigid body; none for an area.
    pub open spec fn contacts(self) -> Seq<ContactEvent> {
        match self.body_data {
            BodyDataView::Rigid { contacts, .. } => contacts,
            BodyDataView::Area(_) => Seq::empty(),
        }
    }

    /// The overlap events of an area; none for a rigid body.
    pub open spec fn overlaps(self) -> Seq<OverlapEvent> {
        match self.body_data {
            BodyDataView::Area(events) => events,
            BodyDataView::Rigid { .. } => Seq::empty(),
        }
    }
}

impl Body {
    /// Creates a rigid body with no shape, no collider and no entity.
    pub fn new_rigid_body(
        np_rigid_body: NpRigidBody,
        np_collision_groups: CollisionGroups,
        contacts_to_report: usize,
    ) -> (body: Body)
        ensures
            body@ == (BodyView {
                self_key: None,
                np_body: np_rigid_body,
                body_data: BodyDataView::Rigid { contacts_to_report, contacts: Seq::empty() },
                collider_key: None,
                shape_key: None,
                entity: None,
                np_collision_groups,
            }),
    {
        Body {
            self_key: None,
            np_body: np_rigid_body,
            body_data: BodyData::Rigid { contacts_to_report, contacts: Vec::new() },
            collider_key: None,
            shape_key: None,
            entity: None,
            np_collision_groups,
        }
    }

    /// Creates an area with no shape, no collider and no entity.
    pub fn new_area(np_rigid_body: NpRigidBody, np_collision_groups: CollisionGroups) -> (body:
        Body)
        ensures
            body@ == (BodyView {
                self_key: None,
                np_body: np_rigid_body,
                body_data: BodyDataView::Area(Seq::empty()),
                collider_key: None,
                shape_key: None,
                entity: None,
                np_collision_groups,
            }),
    {
        Body {
            self_key: None,
            np_body: np_rigid_body,
            body_data: BodyData::Area(Vec::new()),
            collider_key: None,
            shape_key: None,
            entity: None,
            np_collision_groups,
        }
    }

    /// The rigid body behind this body. Rigid bodies and areas both have one.
    pub fn rigid_body(&self) -> (body: Option<&NpRigidBody>)
        ensures
            body == Some(&self.np_body),
    {
        Some(&self.np_body)
    }

    /// Exclusive access to the rigid body behind this body.
    pub fn rigid_body_mut(&mut self) -> (body: Option<&mut NpRigidBody>)
        ensures
            body is Some,
            *body->0 == old(self).np_body,
            final(self)@ == (BodyView { np_body: *final(body->0), ..old(self)@ }),
    {
        Some(&mut self.np_body)
    }

    /// Asks for the body to be woken from sleep.
    pub fn activate(&mut self)
        ensures
            final(self)@ == old(self)@.activated(),
    {
        self.np_body.activated = true;
    }
}

} // verus!
