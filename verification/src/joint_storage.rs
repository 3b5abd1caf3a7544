//! The table of joints, with the constraints made and destroyed that the
//! engine has yet to hear of.

use crate::collider::BodyPartHandle;
use crate::joint::Joint;
use crate::joint::NpJointConstraint;
use crate::storage::Storage;
use crate::storage::StoreKey;
use vstd::prelude::*;

verus! {

/// What the engine is told about a constraint: the joint's key and the two
/// body parts that the constraint holds together.
pub type JointEvent = (StoreKey, BodyPartHandle, BodyPartHandle);

/// The event that tells of `constraint` on the joint `key`.
pub open spec fn event_of(key: StoreKey, constraint: NpJointConstraint) -> JointEvent {
    (key, constraint.anchor_0, constraint.anchor_1)
}

/// [`JointStorage`] as a mathematical value.
#[verifier::ext_equal]
pub struct JointTable {
    /// The joints by key.
    pub map: Map<StoreKey, Joint>,
    /// The pending insertion events, oldest first.
    pub inserted: Seq<JointEvent>,
    /// The pending removal events, oldest first.
    pub removed: Seq<JointEvent>,
}

impl JointTable {
    /// Whether the joint under `key` exists and has a constraint.
    pub open spec fn constrained(self, key: StoreKey) -> bool {
        self.map.contains_key(key) && self.map[key].np_joint is Some
    }

    /// The table with `joint` stored under `key` in place of what stood
    /// there.
    pub open spec fn with(self, key: StoreKey, joint: Joint) -> JointTable {
        JointTable { map: self.map.insert(key, joint), ..self }
    }

    /// The table after the engine was told that the joint under `key` has
    /// got its constraint: an insertion event is queued if the joint exists
    /// and has one.
    pub open spec fn created(self, key: StoreKey) -> JointTable {
        if self.constrained(key) {
            JointTable {
                inserted: self.inserted.push(event_of(key, self.map[key].np_joint->0)),
                ..self
            }
        } else {
            self
        }
    }

    /// The table after the engine was told that the constraint of the joint
    /// under `key` goes away: a removal event is queued if the joint exists
    /// and has one.
    pub open spec fn destroyed(self, key: StoreKey) -> JointTable {
        if self.constrained(key) {
            JointTable {
                removed: self.removed.push(event_of(key, self.map[key].np_joint->0)),
                ..self
            }
        } else {
            self
        }
    }

    /// The table after `joint` was inserted under `key`.
    pub open spec fn added(self, key: StoreKey, joint: Joint) -> JointTable {
        self.with(key, joint).created(key)
    }

    /// The table after the joint under `key` was dropped: it is gone, and a
    /// removal event is queued if it had a constraint.
    pub open spec fn dropped(self, key: StoreKey) -> JointTable {
        JointTable { map: self.map.remove(key), ..self.destroyed(key) }
    }
}

/// The table of joints.
pub struct JointStorage {
    storage: Storage<Joint>,
    /// The constraints made; shortened only by `pop_insertion_event`.
    inserted: Vec<JointEvent>,
    /// The constraints destroyed; shortened only by `pop_removal_event`.
    removed: Vec<JointEvent>,
}

impl JointStorage {
    /// The invariant of the table.
    pub closed spec fn wf(&self) -> bool {
        self.storage.wf()
    }

    /// The table as a mathematical value.
    pub closed spec fn view(&self) -> JointTable {
        JointTable { map: self.storage@, inserted: self.inserted@, removed: self.removed@ }
    }

    /// The number of joints removed so far.
    pub closed spec fn generation(&self) -> u64 {
        self.storage.generation()
    }

    /// The number of stored joints.
    pub closed spec fn count(&self) -> nat {
        self.storage.count()
    }

    /// A key that can never resolve again (see [`Storage::retired`]).
    pub open spec fn retired(&self, key: StoreKey) -> bool {
        !self@.map.contains_key(key) && key.generation < self.generation()
    }

    /// Whether this table can have come from `before`: as many or more
    /// removals have happened, every key that is stored now and was not
    /// stored then is at least as young as the removal count of then, and
    /// every key that was stored then and is not stored now is retired.
    pub open spec fn follows(&self, before: &JointStorage) -> bool {
        &&& before.generation() <= self.generation()
        &&& forall|k: StoreKey| #[trigger]
            self@.map.contains_key(k) && !before@.map.contains_key(k) ==> before.generation()
                <= k.generation
        &&& forall|k: StoreKey| #[trigger]
            before@.map.contains_key(k) && !self@.map.contains_key(k) ==> k.generation
                < self.generation()
    }

    /// An empty table.
    pub fn new() -> (s: JointStorage)
        ensures
            s.wf(),
            s@ == (JointTable { map: Map::empty(), inserted: Seq::empty(), removed: Seq::empty() }),
            s.generation() == 0,
            s.count() == 0,
    {
        JointStorage { storage: Storage::new(5, 15), inserted: Vec::new(), removed: Vec::new() }
    }

    /// The number of stored joints.
    pub fn len(&self) -> (len: usize)
        requires
            self.wf(),
        ensures
            len == self.count(),
    {
        self.storage.len()
    }

    /// The number of joints removed so far.
    pub fn removals(&self) -> (r: u64)
        ensures
            r == self.generation(),
    {
        self.storage.removals()
    }

    /// Stores `joint` and returns its key, which is new. If the joint comes
    /// with a constraint, an insertion event is queued for it.
    pub fn insert(&mut self, joint: Joint) -> (key: StoreKey)
        requires
            old(self).wf(),
            old(self).count() < usize::MAX,
        ensures
            final(self).wf(),
            !old(self)@.map.contains_key(key),
            final(self)@ == old(self)@.added(key, joint),
            final(self).generation() == old(self).generation(),
            final(self).count() == old(self).count() + 1,
            final(self).follows(old(self)),
    {
        let notify_joint_created = joint.np_joint.is_some();
        let key = self.storage.insert(joint);
        if notify_joint_created {
            self.notify_joint_created(key);
        }
        key
    }

    /// Tells the engine that the joint under `key` has got its constraint:
    /// an insertion event is queued if the joint exists and has one.
    pub fn notify_joint_created(&mut self, key: StoreKey)
        requires
            old(self).wf(),
        ensures
            final(self).wf(),
            final(self)@ == old(self)@.created(key),
            final(self).generation() == old(self).generation(),
            final(self).count() == old(self).count(),
            final(self).follows(old(self)),
    {
        if let Some(j) = self.storage.get(key) {
            if let Some(j) = &j.np_joint {
                let (part1, part2) = j.anchors();
                self.inserted.push((key, part1, part2));
            }
        }
    }

    /// Removes the joint under `key`. If there was one and it had a
    /// constraint, a removal event is queued for it.
    pub fn drop_joint(&mut self, key: StoreKey)
        requires
            old(self).wf(),
            old(self).generation() < u64::MAX,
        ensures
            final(self).wf(),
            final(self)@ == old(self)@.dropped(key),
            final(self).generation() == old(self).generation() + (if old(self)@.map.contains_key(
                key,
            ) {
                1int
            } else {
                0int
            }),
            final(self).count() == old(self).count() - (if old(self)@.map.contains_key(
                key,
            ) {
                1int
            } else {
                0int
            }),
            final(self).follows(old(self)),
    {
        let res = self.storage.remove(key);
        if let Some(data) = res {
            if let Some(joint) = &data.np_joint {
                let (part1, part2) = joint.anchors();
                self.removed.push((key, part1, part2));
            }
        }
    }

    /// Tells the engine that the constraint of the joint under `key` is
    /// about to be destroyed: a removal event is queued if the joint exists
    /// and has one.
    pub fn notify_joint_removed(&mut self, key: StoreKey)
        requires
            old(self).wf(),
        ensures
            final(self).wf(),
            final(self)@ == old(self)@.destroyed(key),
            final(self).generation() == old(self).generation(),
            final(self).count() == old(self).count(),
            final(self).follows(old(self)),
    {
        if let Some(j) = self.storage.get(key) {
            if let Some(j) = &j.np_joint {
                let (part1, part2) = j.anchors();
                self.removed.push((key, part1, part2));
            }
        }
    }

    /// The joint under `key`, if there is one.
    pub fn get_joint(&self, key: StoreKey) -> (r: Option<&Joint>)
        requires
            self.wf(),
        ensures
            r is Some == self@.map.contains_key(key),
            r is Some ==> *r->0 == self@.map[key],
    {
        self.storage.get(key)
    }

    /// Exclusive access to the joint under `key`, if there is one. What the
    /// caller leaves behind the reference is what the table then holds under
    /// `key`; nothing else changes.
    pub fn get_joint_mut(&mut self, key: StoreKey) -> (r: Option<&mut Joint>)
        requires
            old(self).wf(),
        ensures
            final(self).wf(),
            final(self).generation() == old(self).generation(),
            final(self).count() == old(self).count(),
            r is Some == old(self)@.map.contains_key(key),
            r is Some ==> *r->0 == old(self)@.map[key],
            r is Some ==> final(self)@ =~= old(self)@.with(key, *final(r->0)),
            r is None ==> final(self)@ =~= old(self)@,
            final(self).follows(old(self)),
    {
        self.storage.get_mut(key)
    }

    /// The constraint of the joint under `handle`, as the engine reads it.
    pub fn get(&self, handle: StoreKey) -> (r: Option<&NpJointConstraint>)
        requires
            self.wf(),
        ensures
            r is Some == self@.constrained(handle),
            r is Some ==> *r->0 == self@.map[handle].np_joint->0,
    {
        if let Some(j) = self.storage.get(handle) {
            j.np_joint.as_ref()
        } else {
            None
        }
    }

    /// The keys of the joints, by increasing slot.
    pub fn iter(&self) -> (keys: Vec<StoreKey>)
        requires
            self.wf(),
        ensures
            forall|k: StoreKey| #[trigger] keys@.contains(k) <==> self@.map.contains_key(k),
            forall|i: int, j: int| 0 <= i < j < keys.len() ==> keys[i].index < keys[j].index,
    {
        self.storage.iter()
    }

    /// Whether a joint is stored under `handle`.
    pub fn contains(&self, handle: StoreKey) -> (r: bool)
        requires
            self.wf(),
        ensures
            r == self@.map.contains_key(handle),
    {
        self.storage.has(handle)
    }

    /// Takes the youngest pending insertion event.
    pub fn pop_insertion_event(&mut self) -> (r: Option<JointEvent>)
        ensures
            final(self).wf() == old(self).wf(),
            final(self).generation() == old(self).generation(),
            final(self).count() == old(self).count(),
            final(self)@.map == old(self)@.map,
            final(self)@.removed == old(self)@.removed,
            old(self)@.inserted.len() == 0 ==> r is None && final(self)@.inserted == old(self)@.inserted,
            old(self)@.inserted.len() > 0 ==> r == Some(old(self)@.inserted.last())
                && final(self)@.inserted == old(self)@.inserted.drop_last(),
            final(self).follows(old(self)),
    {
        self.inserted.pop()
    }

    /// Takes the youngest pending removal event.
    pub fn pop_removal_event(&mut self) -> (r: Option<JointEvent>)
        ensures
            final(self).wf() == old(self).wf(),
            final(self).generation() == old(self).generation(),
            final(self).count() == old(self).count(),
            final(self)@.map == old(self)@.map,
            final(self)@.inserted == old(self)@.inserted,
            old(self)@.removed.len() == 0 ==> r is None && final(self)@.removed == old(self)@.removed,
            old(self)@.removed.len() > 0 ==> r == Some(old(self)@.removed.last())
                && final(self)@.removed == old(self)@.removed.drop_last(),
            final(self).follows(old(self)),
    {
        self.removed.pop()
    }

    /// Removes the joint under `to_remove` on the engine's behalf: no event
    /// is queued.
    pub fn remove(&mut self, to_remove: StoreKey)
        requires
            old(self).wf(),
            old(self).generation() < u64::MAX,
        ensures
            final(self).wf(),
            final(self)@ == (JointTable { map: old(self)@.map.remove(to_remove), ..old(self)@ }),
            final(self).generation() == old(self).generation() + (if old(self)@.map.contains_key(
                to_remove,
            ) {
                1int
            } else {
                0int
            }),
            final(self).count() == old(self).count() - (if old(self)@.map.contains_key(
                to_remove,
            ) {
                1int
            } else {
                0int
            }),
            final(self).follows(old(self)),
    {
        let _ = self.storage.remove(to_remove);
    }
}

impl Default for JointStorage {
    fn default() -> (s: JointStorage)
        ensures
            s.wf(),
            s@ == (JointTable { map: Map::empty(), inserted: Seq::empty(), removed: Seq::empty() }),
            s.generation() == 0,
            s.count() == 0,
    {
        JointStorage::new()
    }
}

} // verus!
