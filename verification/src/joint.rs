//! The bookkeeping record of a joint between two bodies.

use crate::collider::BodyPartHandle;
use crate::objects::JointDesc;
use crate::objects::JointPosition;
use crate::storage::StoreKey;
use vstd::prelude::*;

verus! {

/// The constraint of a materialized joint: the two body parts that it holds
/// together, as they were when it was made.
#[derive(Clone, Copy, Debug, PartialEq, Eq, Structural, Hash)]
pub struct NpJointConstraint {
    pub anchor_0: BodyPartHandle,
    pub anchor_1: BodyPartHandle,
}

impl NpJointConstraint {
    /// The two body parts.
    pub fn anchors(&self) -> (parts: (BodyPartHandle, BodyPartHandle))
        ensures
            parts == (self.anchor_0, self.anchor_1),
    {
        (self.anchor_0, self.anchor_1)
    }
}

/// The body part that a body slot of a joint names.
pub open spec fn part_of(slot: (StoreKey, usize)) -> BodyPartHandle {
    BodyPartHandle(slot.0, slot.1)
}

/// The body that a filled body slot of a joint names.
pub open spec fn slot_body(slot: Option<(StoreKey, usize)>) -> StoreKey {
    let pair = slot->0;
    pair.0
}

/// The states of a joint.
#[derive(Clone, Copy, Debug, PartialEq, Eq, Structural, Hash)]
pub enum JointState {
    /// No body.
    Unattached,
    /// Exactly one body.
    HalfAttached,
    /// Two bodies and no constraint: one of the bodies did not resolve when
    /// the constraint was to be made.
    Pending,
    /// Two bodies and a constraint between them.
    Materialized,
}

/// A joint.
#[derive(Debug)]
pub struct Joint {
    pub self_key: Option<StoreKey>,
    pub joint_desc: JointDesc,
    pub initial_position: JointPosition,
    pub np_joint: Option<NpJointConstraint>,
    /// Body key and part index.
    pub body_0: Option<(StoreKey, usize)>,
    /// Body key and part index.
    pub body_1: Option<(StoreKey, usize)>,
}

impl Joint {
    /// The number of bodies of the joint.
    pub open spec fn body_count(&self) -> nat {
        (if self.body_0 is Some {
            1nat
        } else {
            0nat
        }) + (if self.body_1 is Some {
            1nat
        } else {
            0nat
        })
    }

    /// A constraint exists only between two bodies, and it holds the parts
    /// of exactly those.
    pub open spec fn wf(&self) -> bool {
        self.np_joint is Some ==> self.body_0 is Some && self.body_1 is Some
            && self.np_joint->0.anchor_0 == part_of(self.body_0->0)
            && self.np_joint->0.anchor_1 == part_of(self.body_1->0)
    }

    /// The state of the joint.
    pub open spec fn state(&self) -> JointState {
        if self.body_count() == 0 {
            JointState::Unattached
        } else if self.body_count() == 1 {
            JointState::HalfAttached
        } else if self.np_joint is Some {
            JointState::Materialized
        } else {
            JointState::Pending
        }
    }

    /// Creates a joint with no body and no constraint.
    pub fn new(joint_desc: JointDesc, initial_position: JointPosition) -> (joint: Joint)
        ensures
            joint.self_key is None,
            joint.joint_desc == joint_desc,
            joint.initial_position == initial_position,
            joint.np_joint is None,
            joint.body_0 is None,
            joint.body_1 is None,
            joint.wf(),
            joint.state() == JointState::Unattached,
    {
        Joint {
            self_key: None,
            joint_desc,
            initial_position,
            np_joint: None,
            body_0: None,
            body_1: None,
        }
    }
}

} // verus!
