//! The table of bodies, with the removals that the engine has yet to hear of.

use crate::body::Body;
use crate::body::BodyView;
use crate::body::NpRigidBody;
use crate::storage::Storage;
use crate::storage::StoreKey;
use vstd::prelude::*;

verus! {

/// [`BodyStorage`] as a mathematical value.
#[verifier::ext_equal]
pub struct BodyTable {
    /// The bodies by key.
    pub map: Map<StoreKey, BodyView>,
    /// The pending removal events, oldest first.
    pub removed: Seq<StoreKey>,
}

impl BodyTable {
    /// The table with `body` stored under `key`.
    pub open spec fn with(self, key: StoreKey, body: BodyView) -> BodyTable {
        BodyTable { map: self.map.insert(key, body), ..self }
    }

    /// The table after the body under `key` was dropped: the body is gone,
    /// and a removal event for `key` is queued whether there was one or not.
    pub open spec fn dropped(self, key: StoreKey) -> BodyTable {
        BodyTable { map: self.map.remove(key), removed: self.removed.push(key) }
    }

    /// The table after the body under `key`, if there is one, was asked to
    /// wake up.
    pub open spec fn activated(self, key: StoreKey) -> BodyTable {
        if self.map.contains_key(key) {
            self.with(key, self.map[key].activated())
        } else {
            self
        }
    }

    /// The table with the requests to wake up taken from all bodies.
    pub open spec fn settled(self) -> BodyTable {
        BodyTable { map: self.map.map_values(|b: BodyView| b.settled()), ..self }
    }

    /// Every body knows its own key.
    pub open spec fn keyed(self) -> bool {
        forall|k: StoreKey| #[trigger] self.map.contains_key(k) ==> self.map[k].self_key == Some(k)
    }
}

/// The table of bodies.
pub struct BodyStorage {
    storage: Storage<Body>,
    /// The keys of dropped bodies; shortened only by `pop_removal_event`.
    removed: Vec<StoreKey>,
}

impl BodyStorage {
    /// The invariant of the table.
    pub closed spec fn wf(&self) -> bool {
        self.storage.wf()
    }

    /// The table as a mathematical value.
    pub closed spec fn view(&self) -> BodyTable {
        BodyTable { map: self.storage@.map_values(|b: Body| b@), removed: self.removed@ }
    }

    /// The number of bodies removed so far.
    pub closed spec fn generation(&self) -> u64 {
        self.storage.generation()
    }

    /// The number of stored bodies.
    pub closed spec fn count(&self) -> nat {
        self.storage.count()
    }

    /// Whether this table can have come from `before`: as many or more
    /// removals have happened, every key that is stored now and was not
    /// stored then is at least as young as the removal count of then, and
    /// every key that was stored then and is not stored now is retired.
    pub open spec fn follows(&self, before: &BodyStorage) -> bool {
        &&& before.generation() <= self.generation()
        &&& forall|k: StoreKey| #[trigger]
            self@.map.contains_key(k) && !before@.map.contains_key(k) ==> before.generation()
                <= k.generation
        &&& forall|k: StoreKey| #[trigger]
            before@.map.contains_key(k) && !self@.map.contains_key(k) ==> k.generation
                < self.generation()
    }

    /// A key that can never resolve again (see [`Storage::retired`]).
    pub open spec fn retired(&self, key: StoreKey) -> bool {
        !self@.map.contains_key(key) && key.generation < self.generation()
    }

    /// An empty table.
    pub fn new() -> (s: BodyStorage)
        ensures
            s.wf(),
            s@ == (BodyTable { map: Map::empty(), removed: Seq::empty() }),
            s.generation() == 0,
            s.count() == 0,
    {
        let s = BodyStorage { storage: Storage::new(50, 50), removed: Vec::new() };
        assert(s@.map =~= Map::empty());
        s
    }

    /// The number of stored bodies.
    pub fn len(&self) -> (len: usize)
        requires
            self.wf(),
        ensures
            len == self.count(),
    {
        self.storage.len()
    }

    /// The number of bodies removed so far.
    pub fn removals(&self) -> (r: u64)
        ensures
            r == self.generation(),
    {
        self.storage.removals()
    }

    /// Stores `body` and returns its key, which is new.
    pub fn insert_body(&mut self, body: Body) -> (key: StoreKey)
        requires
            old(self).wf(),
            old(self).count() < usize::MAX,
        ensures
            final(self).wf(),
            !old(self)@.map.contains_key(key),
            !old(self).retired(key),
            final(self)@ == old(self)@.with(key, body@),
            final(self).generation() == old(self).generation(),
            final(self).count() == old(self).count() + 1,
            final(self).follows(old(self)),
    {
        let key = self.storage.insert(body);
        assert(self@.map =~= old(self)@.map.insert(key, body@));
        key
    }

    /// Removes the body under `key`, if there is one, and queues a removal
    /// event for `key` in either case.
    pub fn drop_body(&mut self, key: StoreKey)
        requires
            old(self).wf(),
            old(self).generation() < u64::MAX,
        ensures
            final(self).wf(),
            final(self)@ == old(self)@.dropped(key),
            final(self).generation() == old(self).generation() + (if old(self)@.map.contains_key(
                key,
            ) {
                1int
            } else {
                0int
            }),
            old(self)@.map.contains_key(key) ==> final(self).retired(key),
            final(self).count() == old(self).count() - (if old(self)@.map.contains_key(
                key,
            ) {
                1int
            } else {
                0int
            }),
            final(self).follows(old(self)),
    {
        let _ = self.storage.remove(key);
        self.removed.push(key);
        assert(self@.map =~= old(self)@.map.remove(key));
    }

    /// The body under `key`, if there is one.
    pub fn get_body(&self, key: StoreKey) -> (r: Option<&Body>)
        requires
            self.wf(),
        ensures
            r is Some == self@.map.contains_key(key),
            r is Some ==> r->0@ == self@.map[key],
    {
        self.storage.get(key)
    }

    /// Exclusive access to the body under `key`, if there is one. What the
    /// caller leaves behind the reference is what the table then holds under
    /// `key`; nothing else changes.
    pub fn get_body_mut(&mut self, key: StoreKey) -> (r: Option<&mut Body>)
        requires
            old(self).wf(),
        ensures
            final(self).wf(),
            final(self).generation() == old(self).generation(),
            final(self).count() == old(self).count(),
            r is Some == old(self)@.map.contains_key(key),
            r is Some ==> r->0@ == old(self)@.map[key],
            r is Some ==> final(self)@ =~= old(self)@.with(key, final(r->0)@),
            r is None ==> final(self)@ =~= old(self)@,
            final(self).follows(old(self)),
    {
        self.storage.get_mut(key)
    }

    /// The keys of the bodies, by increasing slot.
    pub fn iter(&self) -> (keys: Vec<StoreKey>)
        requires
            self.wf(),
        ensures
            forall|k: StoreKey| #[trigger] keys@.contains(k) <==> self@.map.contains_key(k),
            forall|i: int, j: int| 0 <= i < j < keys.len() ==> keys[i].index < keys[j].index,
    {
        self.storage.iter()
    }

    /// The rigid body of the body under `handle`, as the engine reads it.
    pub fn get(&self, handle: StoreKey) -> (r: Option<&NpRigidBody>)
        requires
            self.wf(),
        ensures
            r is Some == self@.map.contains_key(handle),
            r is Some ==> *r->0 == self@.map[handle].np_body,
    {
        match self.storage.get(handle) {
            Some(body) => Some(&body.np_body),
            None => None,
        }
    }

    /// Whether a body is stored under `handle`.
    pub fn contains(&self, handle: StoreKey) -> (r: bool)
        requires
            self.wf(),
        ensures
            r == self@.map.contains_key(handle),
    {
        self.storage.has(handle)
    }

    /// Takes the requests to wake up: the keys of the bodies that were asked
    /// to wake up since the last call, by increasing slot.
    pub fn take_activations(&mut self) -> (woken: Vec<StoreKey>)
        requires
            old(self).wf(),
        ensures
            final(self).wf(),
            final(self).generation() == old(self).generation(),
            final(self).count() == old(self).count(),
            final(self)@ == old(self)@.settled(),
            forall|k: StoreKey|
                #[trigger] woken@.contains(k) <==> old(self)@.map.contains_key(k) && old(self)@.map[k].np_body.activated,
            forall|i: int, j: int| 0 <= i < j < woken.len() ==> woken[i].index < woken[j].index,
            final(self).follows(old(self)),
    {
        let keys = self.iter();
        let mut woken: Vec<StoreKey> = Vec::new();
        let mut n: usize = 0;
        while n < keys.len()
            invariant
                n <= keys.len(),
                self.wf(),
                self.generation() == old(self).generation(),
                self.count() == old(self).count(),
                self@.removed == old(self)@.removed,
                self@.map.dom() == old(self)@.map.dom(),
                forall|key: StoreKey| #[trigger] keys@.contains(key) <==> old(self)@.map.contains_key(key),
                forall|i: int, j: int| 0 <= i < j < keys.len() ==> keys[i].index < keys[j].index,
                forall|i: int|
                    0 <= i < n ==> self@.map[#[trigger] keys[i]] == old(self)@.map[keys[i]].settled(),
                forall|i: int| n <= i < keys.len() ==> self@.map[#[trigger] keys[i]] == old(self)@.map[keys[i]],
                forall|k: StoreKey|
                    #[trigger] woken@.contains(k) <==> (exists|i: int|
                        0 <= i < n && keys[i] == k) && old(self)@.map[k].np_body.activated,
                forall|i: int, j: int| 0 <= i < j < woken.len() ==> woken[i].index < woken[j].index,
                forall|i: int| 0 <= i < woken.len() && n < keys.len() ==> woken[i].index < keys[n as int].index,
            decreases keys.len() - n,
        {
            let key: StoreKey = keys[n];
            let ghost before = self@.map;
            let ghost listed = woken@;
            proof {
                assert(keys@.contains(key));
            }
            if let Some(body) = self.get_body_mut(key) {
                if body.np_body.activated {
                    body.np_body.activated = false;
                    woken.push(key);
                }
            }
            proof {
                assert(self@.map.dom() =~= before.dom());
                assert forall|i: int| 0 <= i < keys.len() && i != n implies self@.map[#[trigger] keys[i]]
                    == before[keys[i]] by {
                    if i < n {
                        assert(keys[i].index < keys[n as int].index);
                    } else {
                        assert(keys[n as int].index < keys[i].index);
                    }
                }
                assert forall|k: StoreKey|
                    #[trigger] woken@.contains(k) <==> (exists|i: int|
                        0 <= i < n + 1 && keys[i] == k) && old(self)@.map[k].np_body.activated by {
                    if woken@.contains(k) {
                        let w = choose|w: int| 0 <= w < woken@.len() && woken@[w] == k;
                        if w < listed.len() {
                            assert(listed[w] == k);
                            assert(listed.contains(k));
                        } else {
                            assert(keys[n as int] == k);
                        }
                    }
                    if (exists|i: int| 0 <= i < n + 1 && keys[i] == k) && old(self)@.map[k].np_body.activated {
                        let i = choose|i: int| 0 <= i < n + 1 && keys[i] == k;
                        if i < n {
                            assert(listed.contains(k));
                            let w = choose|w: int| 0 <= w < listed.len() && listed[w] == k;
                            assert(woken@[w] == k);
                        } else {
                            assert(woken@[listed.len() as int] == k);
                        }
                    }
                }
                assert forall|i: int| 0 <= i < woken.len() && n + 1 < keys.len() implies woken[i].index
                    < keys[n + 1].index by {
                    assert(keys[n as int].index < keys[n + 1].index);
                }
            }
            n += 1;
        }
        proof {
            assert forall|key: StoreKey| #[trigger] self@.map.contains_key(key) implies self@.map[key]
                == old(self)@.map[key].settled() by {
                assert(keys@.contains(key));
                let i = choose|i: int| 0 <= i < keys@.len() && keys@[i] == key;
                assert(self@.map[keys[i]] == old(self)@.map[keys[i]].settled());
            }
            assert(self@.map =~= old(self)@.settled().map);
            assert forall|k: StoreKey|
                #[trigger] woken@.contains(k) <==> old(self)@.map.contains_key(k) && old(self)@.map[k].np_body.activated by {
                if old(self)@.map.contains_key(k) {
                    assert(keys@.contains(k));
                    let i = choose|i: int| 0 <= i < keys@.len() && keys@[i] == k;
                    assert(keys[i] == k);
                }
                if woken@.contains(k) {
                    let i = choose|i: int| 0 <= i < n && keys[i] == k;
                    assert(keys@.contains(keys@[i]));
                }
            }
        }
        woken
    }

    /// Takes the youngest pending removal event.
    pub fn pop_removal_event(&mut self) -> (r: Option<StoreKey>)
        ensures
            final(self).wf() == old(self).wf(),
            final(self).generation() == old(self).generation(),
            final(self).count() == old(self).count(),
            final(self)@.map == old(self)@.map,
            old(self)@.removed.len() == 0 ==> r is None && final(self)@.removed == old(self)@.removed,
            old(self)@.removed.len() > 0 ==> r == Some(old(self)@.removed.last())
                && final(self)@.removed == old(self)@.removed.drop_last(),
            final(self).follows(old(self)),
    {
        self.removed.pop()
    }
}

impl Default for BodyStorage {
    fn default() -> (s: BodyStorage)
        ensures
            s.wf(),
            s@ == (BodyTable { map: Map::empty(), removed: Seq::empty() }),
            s.generation() == 0,
            s.count() == 0,
    {
        BodyStorage::new()
    }
}

} // verus!
