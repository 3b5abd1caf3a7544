//! The table of colliders, with the insertions and removals that the engine
//! has yet to hear of.

use crate::collider::Collider;
use crate::storage::Storage;
use crate::storage::StoreKey;
use vstd::prelude::*;

verus! {

/// [`ColliderStorage`] as a mathematical value.
#[verifier::ext_equal]
pub struct ColliderTable {
    /// The colliders by key.
    pub map: Map<StoreKey, Collider>,
    /// The pending insertion events, oldest first.
    pub inserted: Seq<StoreKey>,
    /// The pending removal events, oldest first.
    pub removed: Seq<StoreKey>,
}

impl ColliderTable {
    /// The table after `collider` was inserted under `key`: an insertion
    /// event is queued.
    pub open spec fn added(self, key: StoreKey, collider: Collider) -> ColliderTable {
        ColliderTable {
            map: self.map.insert(key, collider),
            inserted: self.inserted.push(key),
            ..self
        }
    }

    /// The table with `collider` stored under `key` in place of what stood
    /// there.
    pub open spec fn with(self, key: StoreKey, collider: Collider) -> ColliderTable {
        ColliderTable { map: self.map.insert(key, collider), ..self }
    }

    /// The table after the collider under `key` was dropped: if there was
    /// one, it is gone and a removal event is queued.
    pub open spec fn dropped(self, key: StoreKey) -> ColliderTable {
        if self.map.contains_key(key) {
            ColliderTable { map: self.map.remove(key), removed: self.removed.push(key), ..self }
        } else {
            self
        }
    }

    /// The table after the collider that `key` names, if it names one, was
    /// dropped.
    pub open spec fn dropped_if(self, key: Option<StoreKey>) -> ColliderTable {
        match key {
            Some(key) => self.dropped(key),
            None => self,
        }
    }
}

/// The table of colliders.
pub struct ColliderStorage {
    storage: Storage<Collider>,
    /// The keys of inserted colliders; shortened only by
    /// `pop_insertion_event`.
    inserted: Vec<StoreKey>,
    /// The keys of removed colliders; shortened only by `pop_removal_event`.
    removed: Vec<StoreKey>,
}

impl ColliderStorage {
    /// The invariant of the table.
    pub closed spec fn wf(&self) -> bool {
        self.storage.wf()
    }

    /// The table as a mathematical value.
    pub closed spec fn view(&self) -> ColliderTable {
        ColliderTable { map: self.storage@, inserted: self.inserted@, removed: self.removed@ }
    }

    /// The number of colliders removed so far.
    pub closed spec fn generation(&self) -> u64 {
        self.storage.generation()
    }

    /// The number of stored colliders.
    pub closed spec fn count(&self) -> nat {
        self.storage.count()
    }

    /// A key that can never resolve again (see [`Storage::retired`]).
    pub open spec fn retired(&self, key: StoreKey) -> bool {
        !self@.map.contains_key(key) && key.generation < self.generation()
    }

    /// Whether this table can have come from `before`: as many or more
    /// removals have happened, every key that is stored now and was not
    /// stored then is at least as young as the removal count of then, and
    /// every key that was stored then and is not stored now is retired.
    pub open spec fn follows(&self, before: &ColliderStorage) -> bool {
        &&& before.generation() <= self.generation()
        &&& forall|k: StoreKey| #[trigger]
            self@.map.contains_key(k) && !before@.map.contains_key(k) ==> before.generation()
                <= k.generation
        &&& forall|k: StoreKey| #[trigger]
            before@.map.contains_key(k) && !self@.map.contains_key(k) ==> k.generation
                < self.generation()
    }

    /// A stored key is at most as young as the removal count.
    pub proof fn lemma_key_generation(&self, key: StoreKey)
        requires
            self.wf(),
            self@.map.contains_key(key),
        ensures
            key.generation <= self.generation(),
    {
        self.storage.lemma_keys(key, key);
    }

    /// An empty table.
    pub fn new() -> (s: ColliderStorage)
        ensures
            s.wf(),
            s@ == (ColliderTable { map: Map::empty(), inserted: Seq::empty(), removed: Seq::empty() }),
            s.generation() == 0,
            s.count() == 0,
    {
        ColliderStorage { storage: Storage::new(50, 50), inserted: Vec::new(), removed: Vec::new() }
    }

    /// The number of stored colliders.
    pub fn len(&self) -> (len: usize)
        requires
            self.wf(),
        ensures
            len == self.count(),
    {
        self.storage.len()
    }

    /// The number of colliders removed so far.
    pub fn removals(&self) -> (r: u64)
        ensures
            r == self.generation(),
    {
        self.storage.removals()
    }

    /// Stores `collider`, queues an insertion event for it and returns its
    /// key, which is new.
    pub fn insert_collider(&mut self, collider: Collider) -> (key: StoreKey)
        requires
            old(self).wf(),
            old(self).count() < usize::MAX,
        ensures
            final(self).wf(),
            !old(self)@.map.contains_key(key),
            key.generation == old(self).generation(),
            final(self)@ == old(self)@.added(key, collider),
            final(self).generation() == old(self).generation(),
            final(self).count() == old(self).count() + 1,
            final(self).follows(old(self)),
    {
        let key = self.storage.insert(collider);
        self.inserted.push(key);
        key
    }

    /// Removes the collider under `key`. If there was one, a removal event
    /// for `key` is queued.
    pub fn drop_collider(&mut self, key: StoreKey)
        requires
            old(self).wf(),
            old(self).generation() < u64::MAX,
        ensures
            final(self).wf(),
            final(self)@ == old(self)@.dropped(key),
            final(self).generation() == old(self).generation() + (if old(self)@.map.contains_key(
                key,
            ) {
                1int
            } else {
                0int
            }),
            final(self).count() == old(self).count() - (if old(self)@.map.contains_key(
                key,
            ) {
                1int
            } else {
                0int
            }),
            final(self).follows(old(self)),
    {
        let _ = self.remove(key);
    }

    /// The collider under `key`, if there is one.
    pub fn get_collider(&self, key: StoreKey) -> (r: Option<&Collider>)
        requires
            self.wf(),
        ensures
            r is Some == self@.map.contains_key(key),
            r is Some ==> *r->0 == self@.map[key],
    {
        self.storage.get(key)
    }

    /// Exclusive access to the collider under `key`, if there is one. What
    /// the caller leaves behind the reference is what the table then holds
    /// under `key`; nothing else changes.
    pub fn get_collider_mut(&mut self, key: StoreKey) -> (r: Option<&mut Collider>)
        requires
            old(self).wf(),
        ensures
            final(self).wf(),
            final(self).generation() == old(self).generation(),
            final(self).count() == old(self).count(),
            r is Some == old(self)@.map.contains_key(key),
            r is Some ==> *r->0 == old(self)@.map[key],
            r is Some ==> final(self)@ =~= old(self)@.with(key, *final(r->0)),
            r is None ==> final(self)@ =~= old(self)@,
            final(self).follows(old(self)),
    {
        self.storage.get_mut(key)
    }

    /// The collider under `handle`, as the engine's collision pipeline reads
    /// it.
    pub fn collision_object(&self, handle: StoreKey) -> (r: Option<&Collider>)
        requires
            self.wf(),
        ensures
            r is Some == self@.map.contains_key(handle),
            r is Some ==> *r->0 == self@.map[handle],
    {
        self.storage.get(handle)
    }

    /// The keys of the colliders, by increasing slot.
    pub fn iter(&self) -> (keys: Vec<StoreKey>)
        requires
            self.wf(),
        ensures
            forall|k: StoreKey| #[trigger] keys@.contains(k) <==> self@.map.contains_key(k),
            forall|i: int, j: int| 0 <= i < j < keys.len() ==> keys[i].index < keys[j].index,
    {
        self.storage.iter()
    }

    /// Whether a collider is stored under `handle`.
    pub fn contains(&self, handle: StoreKey) -> (r: bool)
        requires
            self.wf(),
        ensures
            r == self@.map.contains_key(handle),
    {
        self.storage.has(handle)
    }

    /// Takes the youngest pending insertion event.
    pub fn pop_insertion_event(&mut self) -> (r: Option<StoreKey>)
        ensures
            final(self).wf() == old(self).wf(),
            final(self).generation() == old(self).generation(),
            final(self).count() == old(self).count(),
            final(self)@.map == old(self)@.map,
            final(self)@.removed == old(self)@.removed,
            old(self)@.inserted.len() == 0 ==> r is None && final(self)@.inserted == old(self)@.inserted,
            old(self)@.inserted.len() > 0 ==> r == Some(old(self)@.inserted.last())
                && final(self)@.inserted == old(self)@.inserted.drop_last(),
            final(self).follows(old(self)),
    {
        self.inserted.pop()
    }

    /// Takes the youngest pending removal event.
    pub fn pop_removal_event(&mut self) -> (r: Option<StoreKey>)
        ensures
            final(self).wf() == old(self).wf(),
            final(self).generation() == old(self).generation(),
            final(self).count() == old(self).count(),
            final(self)@.map == old(self)@.map,
            final(self)@.inserted == old(self)@.inserted,
            old(self)@.removed.len() == 0 ==> r is None && final(self)@.removed == old(self)@.removed,
            old(self)@.removed.len() > 0 ==> r == Some(old(self)@.removed.last())
                && final(self)@.removed == old(self)@.removed.drop_last(),
            final(self).follows(old(self)),
    {
        self.removed.pop()
    }

    /// Removes the collider under `to_remove` and says whether there was
    /// one. If there was, a removal event for `to_remove` is queued.
    pub fn remove(&mut self, to_remove: StoreKey) -> (removed: bool)
        requires
            old(self).wf(),
            old(self).generation() < u64::MAX,
        ensures
            final(self).wf(),
            removed == old(self)@.map.contains_key(to_remove),
            final(self)@ == old(self)@.dropped(to_remove),
            final(self).generation() == old(self).generation() + (if removed {
                1int
            } else {
                0int
            }),
            final(self).count() == old(self).count() - (if removed {
                1int
            } else {
                0int
            }),
            final(self).follows(old(self)),
    {
        match self.storage.remove(to_remove) {
            Some(_) => {
                self.removed.push(to_remove);
                true
            },
            None => {
                assert(self@.map =~= old(self)@.map);
                false
            },
        }
    }
}

impl Default for ColliderStorage {
    fn default() -> (s: ColliderStorage)
        ensures
            s.wf(),
            s@ == (ColliderTable { map: Map::empty(), inserted: Seq::empty(), removed: Seq::empty() }),
            s.generation() == 0,
            s.count() == 0,
    {
        ColliderStorage::new()
    }
}

} // verus!
