//! The table of force generators.

use crate::force_generator::ForceGenerator;
use crate::storage::Storage;
use crate::storage::StoreKey;
use vstd::prelude::*;

verus! {

/// The table of force generators.
pub struct ForceGeneratorStorage {
    storage: Storage<ForceGenerator>,
}

impl ForceGeneratorStorage {
    /// The invariant of the table.
    pub closed spec fn wf(&self) -> bool {
        self.storage.wf()
    }

    /// The force generators by key.
    pub closed spec fn view(&self) -> Map<StoreKey, ForceGenerator> {
        self.storage@
    }

    /// The number of force generators removed so far.
    pub closed spec fn generation(&self) -> u64 {
        self.storage.generation()
    }

    /// The number of stored force generators.
    pub closed spec fn count(&self) -> nat {
        self.storage.count()
    }

    /// An empty table.
    pub fn new() -> (s: ForceGeneratorStorage)
        ensures
            s.wf(),
            s@ == Map::<StoreKey, ForceGenerator>::empty(),
            s.generation() == 0,
            s.count() == 0,
    {
        ForceGeneratorStorage { storage: Storage::new(5, 5) }
    }

    /// The number of stored force generators.
    pub fn len(&self) -> (len: usize)
        requires
            self.wf(),
        ensures
            len == self.count(),
    {
        self.storage.len()
    }

    /// The number of force generators removed so far.
    pub fn removals(&self) -> (r: u64)
        ensures
            r == self.generation(),
    {
        self.storage.removals()
    }

    /// Stores `force_generator` and returns its key, which is new.
    pub fn insert(&mut self, force_generator: ForceGenerator) -> (key: StoreKey)
        requires
            old(self).wf(),
            old(self).count() < usize::MAX,
        ensures
            final(self).wf(),
            !old(self)@.contains_key(key),
            final(self)@ == old(self)@.insert(key, force_generator),
            final(self).generation() == old(self).generation(),
            final(self).count() == old(self).count() + 1,
    {
        self.storage.insert(force_generator)
    }

    /// Removes the force generator under `key`, if there is one.
    pub fn drop(&mut self, key: StoreKey)
        requires
            old(self).wf(),
            old(self).generation() < u64::MAX,
        ensures
            final(self).wf(),
            final(self)@ == old(self)@.remove(key),
            final(self).generation() == old(self).generation() + (if old(self)@.contains_key(key) {
                1int
            } else {
                0int
            }),
            final(self).count() == old(self).count() - (if old(self)@.contains_key(key) {
                1int
            } else {
                0int
            }),
    {
        let _ = self.storage.remove(key);
    }

    /// The force generator under `key`, if there is one.
    pub fn get_force_generator(&self, key: StoreKey) -> (r: Option<&ForceGenerator>)
        requires
            self.wf(),
        ensures
            r is Some == self@.contains_key(key),
            r is Some ==> *r->0 == self@[key],
    {
        self.storage.get(key)
    }

    /// Whether a force generator is stored under `handle`.
    pub fn contains(&self, handle: StoreKey) -> (r: bool)
        requires
            self.wf(),
        ensures
            r == self@.contains_key(handle),
    {
        self.storage.has(handle)
    }
}

impl Default for ForceGeneratorStorage {
    fn default() -> (s: ForceGeneratorStorage)
        ensures
            s.wf(),
            s@ == Map::<StoreKey, ForceGenerator>::empty(),
            s.generation() == 0,
            s.count() == 0,
    {
        ForceGeneratorStorage::new()
    }
}

} // verus!
