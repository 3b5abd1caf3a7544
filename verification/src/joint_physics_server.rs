//! The lifecycle of joints: a joint is created without bodies, gets its
//! constraint when its second body is attached, and loses it when a body is
//! detached.

use crate::body_storage::BodyStorage;
use crate::collider::BodyPartHandle;
use crate::consistency::lemma_joint_bodies;
use crate::consistency::lemma_joint_created;
use crate::conversors::joint_tag_to_store_key;
use crate::conversors::rigid_tag_to_store_key;
use crate::conversors::store_key_to_joint_tag;
use crate::joint::Joint;
use crate::joint::JointState;
use crate::joint::NpJointConstraint;
use crate::joint::part_of;
use crate::joint::slot_body;
use crate::joint_storage::JointStorage;
use crate::joint_storage::JointTable;
use crate::joint_storage::event_of;
use crate::objects::JointDesc;
use crate::objects::JointPosition;
use crate::objects::PhysicsJointTag;
use crate::objects::PhysicsRigidBodyTag;
use crate::rigid_body_physics_server::RBodyNpServer;
use crate::servers_storage::ServersStorage;
use crate::servers_storage::World;
use crate::storage::StoreKey;
use vstd::prelude::*;

verus! {

/// Why a joint refused a body.
#[derive(Clone, Copy, Debug, PartialEq, Eq, Structural, Hash)]
pub enum JointError {
    /// The joint tag does not resolve.
    JointNotFound,
    /// The joint joins two bodies already.
    JointFull,
    /// The body is not one of the bodies of the joint.
    BodyNotInJoint,
}

impl Joint {
    /// The constraint between the two bodies of the joint.
    pub open spec fn constraint(self) -> NpJointConstraint {
        NpJointConstraint { anchor_0: part_of(self.body_0->0), anchor_1: part_of(self.body_1->0) }
    }

    /// Whether the joint has a constraint that is to go: one of its bodies
    /// is missing.
    pub open spec fn to_dematerialize(self) -> bool {
        self.np_joint is Some && (self.body_0 is None || self.body_1 is None)
    }

    /// Whether the joint is to get its constraint: it has none, it has two
    /// bodies, and both are among `bodies`.
    pub open spec fn to_materialize(self, bodies: Set<StoreKey>) -> bool {
        self.np_joint is None && self.body_0 is Some && self.body_1 is Some && bodies.contains(
            slot_body(self.body_0),
        ) && bodies.contains(slot_body(self.body_1))
    }

    /// Whether `body` is one of the bodies of the joint.
    pub open spec fn joins(self, body: StoreKey) -> bool {
        (self.body_0 is Some && slot_body(self.body_0) == body) || (self.body_1 is Some
            && slot_body(self.body_1) == body)
    }

    /// The joint with `body` in its first free slot; a joint with two bodies
    /// is left as it is.
    pub open spec fn with_body(self, body: StoreKey) -> Joint {
        if self.body_0 is None {
            Joint { body_0: Some((body, 0usize)), ..self }
        } else if self.body_1 is None {
            Joint { body_1: Some((body, 0usize)), ..self }
        } else {
            self
        }
    }

    /// The joint without `body`: the first slot that holds it is cleared.
    pub open spec fn without_body(self, body: StoreKey) -> Joint {
        if self.body_0 is Some && slot_body(self.body_0) == body {
            Joint { body_0: None, ..self }
        } else if self.body_1 is Some && slot_body(self.body_1) == body {
            Joint { body_1: None, ..self }
        } else {
            self
        }
    }
}

impl JointTable {
    /// The table after the constraint of the joint under `joint` was brought
    /// in line with its bodies, of which `bodies` exist. A constraint whose
    /// joint lost a body is destroyed, and a removal event tells of it. A
    /// joint without constraint whose two bodies exist gets its constraint,
    /// and an insertion event tells of it. Nothing else changes.
    pub open spec fn refreshed(self, joint: StoreKey, bodies: Set<StoreKey>) -> JointTable {
        if !self.map.contains_key(joint) {
            self
        } else if self.map[joint].to_dematerialize() {
            self.destroyed(joint).with(joint, Joint { np_joint: None, ..self.map[joint] })
        } else if self.map[joint].to_materialize(bodies) {
            self.with(
                joint,
                Joint { np_joint: Some(self.map[joint].constraint()), ..self.map[joint] },
            ).created(joint)
        } else {
            self
        }
    }
}

impl World {
    /// The world after a joint without bodies was stored under the new key
    /// `joint`.
    pub open spec fn joint_created(self, joint: StoreKey, desc: JointDesc, position: JointPosition) -> World {
        World {
            joints: self.joints.with(
                joint,
                Joint {
                    self_key: Some(joint),
                    joint_desc: desc,
                    initial_position: position,
                    np_joint: None,
                    body_0: None,
                    body_1: None,
                },
            ),
            ..self
        }
    }

    /// The world after both bodies of the joint under `joint`, which exists,
    /// were asked to wake up.
    pub open spec fn joint_bodies_activated(self, joint: StoreKey) -> World {
        let j = self.joints.map[joint];
        let first = if j.body_0 is Some {
            self.bodies.activated(slot_body(j.body_0))
        } else {
            self.bodies
        };
        World {
            bodies: if j.body_1 is Some {
                first.activated(slot_body(j.body_1))
            } else {
                first
            },
            ..self
        }
    }

    /// What attaching the body `body` to the joint under `joint` answers:
    /// an error when the joint does not exist or has two bodies already.
    pub open spec fn joint_insert_answer(self, joint: StoreKey) -> Result<(), JointError> {
        if !self.joints.map.contains_key(joint) {
            Err(JointError::JointNotFound)
        } else if self.joints.map[joint].body_0 is Some && self.joints.map[joint].body_1 is Some {
            Err(JointError::JointFull)
        } else {
            Ok(())
        }
    }

    /// The world after the body `body` was attached to the joint under
    /// `joint`: the body takes the first free slot of the joint, and the
    /// joint gets its constraint if that was its second body. Nothing
    /// changes when the attachment is refused.
    pub open spec fn joint_body_inserted(self, joint: StoreKey, body: StoreKey) -> World {
        if self.joint_insert_answer(joint) is Ok {
            World {
                joints: self.joints.with(joint, self.joints.map[joint].with_body(body)).refreshed(
                    joint,
                    self.bodies.map.dom(),
                ),
                ..self
            }
        } else {
            self
        }
    }

    /// What detaching the body `body` from the joint under `joint` answers:
    /// an error when the joint exists and the body is not one of its bodies.
    pub open spec fn joint_remove_answer(self, joint: StoreKey, body: StoreKey) -> Result<
        (),
        JointError,
    > {
        if self.joints.map.contains_key(joint) && !self.joints.map[joint].joins(body) {
            Err(JointError::BodyNotInJoint)
        } else {
            Ok(())
        }
    }

    /// The world after the body `body` was detached from the joint under
    /// `joint`, if the joint exists: both bodies of the joint are asked to
    /// wake up, the slot of `body` is cleared, and the constraint of the
    /// joint, if it had one, is destroyed.
    pub open spec fn joint_body_removed(self, joint: StoreKey, body: StoreKey) -> World {
        if self.joints.map.contains_key(joint) {
            let woken = self.joint_bodies_activated(joint);
            World {
                joints: woken.joints.with(
                    joint,
                    woken.joints.map[joint].without_body(body),
                ).refreshed(joint, woken.bodies.map.dom()),
                ..woken
            }
        } else {
            self
        }
    }

    /// The world after the joint under `joint` was dropped: if it exists,
    /// both of its bodies are asked to wake up, the joint is removed, and a
    /// removal event tells of its constraint, if it had one.
    pub open spec fn joint_dropped(self, joint: StoreKey) -> World {
        let woken = if self.joints.map.contains_key(joint) {
            self.joint_bodies_activated(joint)
        } else {
            self
        };
        World { joints: woken.joints.dropped(joint), ..woken }
    }
}

/// The round trip of a joint. Attaching a first body to a joint without
/// bodies leaves it half attached and without constraint. Attaching a second
/// body, when both bodies exist, gives the joint its constraint and tells of
/// it in exactly one insertion event. A third body is refused, and nothing
/// changes. Detaching a body of the joint then leaves it half attached,
/// destroys the constraint and tells of it in exactly one removal event; and
/// detaching the other body leaves the joint without bodies, with no further
/// event.
pub proof fn lemma_joint_round_trip(
    w: World,
    joint: StoreKey,
    first: StoreKey,
    second: StoreKey,
    third: StoreKey,
)
    requires
        w.wf(),
        w.joints.map.contains_key(joint),
        w.joints.map[joint].state() == JointState::Unattached,
        w.bodies.map.contains_key(first),
        w.bodies.map.contains_key(second),
        first != second,
    ensures
        ({
            let half = w.joint_body_inserted(joint, first);
            let full = half.joint_body_inserted(joint, second);
            let back = full.joint_body_removed(joint, first);
            let bare = back.joint_body_removed(joint, second);
            let event = event_of(
                joint,
                NpJointConstraint {
                    anchor_0: BodyPartHandle(first, 0),
                    anchor_1: BodyPartHandle(second, 0),
                },
            );
            &&& w.joint_insert_answer(joint) is Ok
            &&& half.joints.map[joint].state() == JointState::HalfAttached
            &&& half.joints.inserted == w.joints.inserted
            &&& half.joint_insert_answer(joint) is Ok
            &&& full.joints.map[joint].state() == JointState::Materialized
            &&& full.joints.inserted == w.joints.inserted.push(event)
            &&& full.joints.removed == w.joints.removed
            &&& full.joint_insert_answer(joint) == Err::<(), JointError>(JointError::JointFull)
            &&& full.joint_body_inserted(joint, third) == full
            &&& full.joint_remove_answer(joint, first) is Ok
            &&& back.joints.map[joint].state() == JointState::HalfAttached
            &&& back.joints.map[joint].np_joint is None
            &&& back.joints.inserted == full.joints.inserted
            &&& back.joints.removed == w.joints.removed.push(event)
            &&& back.bodies.map[first].np_body.activated
            &&& back.bodies.map[second].np_body.activated
            &&& bare.joints.map[joint].state() == JointState::Unattached
            &&& bare.joints.inserted == full.joints.inserted
            &&& bare.joints.removed == back.joints.removed
        }),
{
    let half = w.joint_body_inserted(joint, first);
    let full = half.joint_body_inserted(joint, second);
    let back = full.joint_body_removed(joint, first);
    let bare = back.joint_body_removed(joint, second);
    assert(w.joints.map[joint].body_0 is None && w.joints.map[joint].body_1 is None);
    assert(w.joints.map[joint].np_joint is None);
    assert(half.joints.map[joint].body_0 == Some((first, 0usize)));
    assert(half.bodies.map.dom().contains(first));
    assert(half.bodies.map.dom().contains(second));
    assert(full.joints.map[joint].body_1 == Some((second, 0usize)));
    assert(full.joints.map[joint].np_joint is Some);
    let woken = full.joint_bodies_activated(joint);
    assert(woken.bodies.map.contains_key(first));
    assert(woken.bodies.map.contains_key(second));
    assert(back.joints.map[joint].body_0 is None);
    assert(back.joints.map[joint].body_1 == Some((second, 0usize)));
}

/// The server of joints.
pub struct JointNpServer {}

// These functions serve the other servers too.

impl JointNpServer {
    /// The server. It holds nothing: every operation is handed the tables
    /// that it works on.
    pub fn new() -> (server: JointNpServer) {
        JointNpServer {  }
    }

    /// Drops the joint that `joint_tag` names: wakes both of its bodies,
    /// then removes it.
    pub fn drop_joint(joint_tag: PhysicsJointTag, joints: &mut JointStorage, bodies: &mut BodyStorage)
        requires
            joint_tag.is_key(),
            old(joints).wf(),
            old(joints).generation() < u64::MAX,
            old(bodies).wf(),
        ensures
            final(joints).wf(),
            final(bodies).wf(),
            final(bodies).generation() == old(bodies).generation(),
            final(bodies).count() == old(bodies).count(),
            final(bodies).follows(old(bodies)),
            final(joints).follows(old(joints)),
            final(joints).generation() == old(joints).generation() + (if old(joints)@.map.contains_key(joint_tag.key()) {
                1int
            } else {
                0int
            }),
            final(joints).count() == old(joints).count() - (if old(joints)@.map.contains_key(
                joint_tag.key(),
            ) {
                1int
            } else {
                0int
            }),
            final(joints)@ == old(joints)@.dropped(joint_tag.key()),
            final(bodies)@ == (if old(joints)@.map.contains_key(joint_tag.key()) {
                let j = old(joints)@.map[joint_tag.key()];
                let first = if j.body_0 is Some {
                    old(bodies)@.activated(slot_body(j.body_0))
                } else {
                    old(bodies)@
                };
                if j.body_1 is Some {
                    first.activated(slot_body(j.body_1))
                } else {
                    first
                }
            } else {
                old(bodies)@
            }),
    {
        let j_key = joint_tag_to_store_key(joint_tag);
        // Wake the bodies of the joint
        if let Some(joint) = joints.get_joint(j_key) {
            if let Some(slot) = joint.body_0 {
                RBodyNpServer::active_body(slot.0, bodies);
            }
            if let Some(slot) = joint.body_1 {
                RBodyNpServer::active_body(slot.0, bodies);
            }
        }
        joints.drop_joint(j_key);
    }

    /// Brings the constraint of the joint under `joint_key` in line with its
    /// bodies (see [`JointTable::refreshed`]).
    pub fn update_internal_joint(joint_key: StoreKey, joints: &mut JointStorage, bodies: &BodyStorage)
        requires
            old(joints).wf(),
            bodies.wf(),
        ensures
            final(joints).wf(),
            final(joints).generation() == old(joints).generation(),
            final(joints).count() == old(joints).count(),
            final(joints).follows(old(joints)),
            final(joints)@ == old(joints)@.refreshed(joint_key, bodies@.map.dom()),
    {
        let mut notify_added: Option<NpJointConstraint> = None;
        let mut notify_removed = false;
        if let Some(joint) = joints.get_joint(joint_key) {
            if joint.np_joint.is_some() {
                if joint.body_0.is_none() || joint.body_1.is_none() {
                    // -- Remove the constraint --
                    notify_removed = true;
                }
            } else if let (Some(slot_0), Some(slot_1)) = (joint.body_0, joint.body_1) {
                // -- Create the constraint --
                if bodies.contains(slot_0.0) && bodies.contains(slot_1.0) {
                    match joint.joint_desc {
                        JointDesc::Fixed => {
                            notify_added = Some(
                                NpJointConstraint {
                                    anchor_0: BodyPartHandle(slot_0.0, slot_0.1),
                                    anchor_1: BodyPartHandle(slot_1.0, slot_1.1),
                                },
                            );
                        },
                    }
                }
            }
        }
        if let Some(np_joint) = notify_added {
            if let Some(joint) = joints.get_joint_mut(joint_key) {
                joint.np_joint = Some(np_joint);
            }
            joints.notify_joint_created(joint_key);
        } else if notify_removed {
            joints.notify_joint_removed(joint_key);
            if let Some(joint) = joints.get_joint_mut(joint_key) {
                joint.np_joint = None;
            }
        }
    }
}

// What callers ask of joints.

impl JointNpServer {
    /// Creates a joint of the kind `desc`, first placed at
    /// `initial_position`, with no bodies, and returns its tag.
    pub fn create_joint(
        storages: &mut ServersStorage,
        desc: &JointDesc,
        initial_position: &JointPosition,
    ) -> (tag: PhysicsJointTag)
        requires
            old(storages).wf(),
            old(storages).room_for_joint(),
        ensures
            final(storages).wf(),
            old(storages)@.consistent() ==> final(storages)@.consistent(),
            final(storages).one_step_from(old(storages)),
            tag.is_key(),
            !old(storages)@.joints.map.contains_key(tag.key()),
            final(storages)@ == old(storages)@.joint_created(tag.key(), *desc, *initial_position),
    {
        let key = storages.joints.insert(Joint::new(*desc, *initial_position));
        if let Some(joint) = storages.joints.get_joint_mut(key) {
            joint.self_key = Some(key);
        }
        proof {
            if old(storages)@.consistent() {
                lemma_joint_created(old(storages)@, key, *desc, *initial_position);
            }
        }
        store_key_to_joint_tag(key)
    }

    /// Attaches the body that `body_tag` names to the joint that `joint_tag`
    /// names. A joint that has two bodies refuses a third, and nothing
    /// changes.
    pub fn insert_rigid_body(
        storages: &mut ServersStorage,
        joint_tag: PhysicsJointTag,
        body_tag: PhysicsRigidBodyTag,
    ) -> (answer: Result<(), JointError>)
        requires
            old(storages).wf(),
            joint_tag.is_key(),
            body_tag.is_key(),
        ensures
            final(storages).wf(),
            old(storages)@.consistent() ==> final(storages)@.consistent(),
            final(storages).one_step_from(old(storages)),
            answer == old(storages)@.joint_insert_answer(joint_tag.key()),
            final(storages)@ == old(storages)@.joint_body_inserted(joint_tag.key(), body_tag.key()),
    {
        proof {
            if old(storages)@.consistent() {
                lemma_joint_bodies(old(storages)@, joint_tag.key(), body_tag.key());
            }
        }
        let joint_key = joint_tag_to_store_key(joint_tag);
        let body_key = rigid_tag_to_store_key(body_tag);
        if let Some(joint) = storages.joints.get_joint_mut(joint_key) {
            if joint.body_0.is_none() {
                joint.body_0 = Some((body_key, 0));
            } else if joint.body_1.is_none() {
                joint.body_1 = Some((body_key, 0));
            } else {
                return Err(JointError::JointFull);
            }
        } else {
            return Err(JointError::JointNotFound);
        }
        Self::update_internal_joint(joint_key, &mut storages.joints, &storages.bodies);
        Ok(())
    }

    /// Detaches the body that `body_tag` names from the joint that
    /// `joint_tag` names. Both bodies of the joint are woken, and the
    /// constraint of the joint, if it had one, is destroyed. Nothing happens
    /// when the joint tag does not resolve.
    pub fn remove_rigid_body(
        storages: &mut ServersStorage,
        joint_tag: PhysicsJointTag,
        body_tag: PhysicsRigidBodyTag,
    ) -> (answer: Result<(), JointError>)
        requires
            old(storages).wf(),
            joint_tag.is_key(),
            body_tag.is_key(),
        ensures
            final(storages).wf(),
            old(storages)@.consistent() ==> final(storages)@.consistent(),
            final(storages).one_step_from(old(storages)),
            answer == old(storages)@.joint_remove_answer(joint_tag.key(), body_tag.key()),
            final(storages)@ == old(storages)@.joint_body_removed(joint_tag.key(), body_tag.key()),
    {
        proof {
            if old(storages)@.consistent() {
                lemma_joint_bodies(old(storages)@, joint_tag.key(), body_tag.key());
            }
        }
        let joint_key = joint_tag_to_store_key(joint_tag);
        let body_key = rigid_tag_to_store_key(body_tag);
        let mut answer: Result<(), JointError> = Ok(());
        if let Some(joint) = storages.joints.get_joint_mut(joint_key) {
            if let Some(slot) = joint.body_0 {
                RBodyNpServer::active_body(slot.0, &mut storages.bodies);
            }
            if let Some(slot) = joint.body_1 {
                RBodyNpServer::active_body(slot.0, &mut storages.bodies);
            }
            if holds(joint.body_0, body_key) {
                joint.body_0 = None;
            } else if holds(joint.body_1, body_key) {
                joint.body_1 = None;
            } else {
                answer = Err(JointError::BodyNotInJoint);
            }
        }
        Self::update_internal_joint(joint_key, &mut storages.joints, &storages.bodies);
        answer
    }
}

/// Whether the slot `slot` of a joint holds the body `body`.
fn holds(slot: Option<(StoreKey, usize)>, body: StoreKey) -> (held: bool)
    ensures
        held == (slot is Some && slot_body(slot) == body),
{
    match slot {
        Some(pair) => pair.0 == body,
        None => false,
    }
}

} // verus!
