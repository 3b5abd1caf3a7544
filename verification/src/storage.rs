//! Generational slot storage.
//!
//! A [`Storage`] hands out [`StoreKey`]s made of a slot index and a generation.
//! The keys are allocated by a `generational_arena::Arena`; the stored objects
//! live in a slot table of the storage's own, indexed by the key's slot. A key
//! whose object was removed never resolves again, even when its slot is reused.

use generational_arena::Arena;
use generational_arena::Index;
use vstd::prelude::*;

verus! {

/// The outside arena type. Verus sees nothing inside it; what it holds is
/// named by [`arena_live`], [`arena_capacity`] and [`arena_generation`].
#[verifier::external_type_specification]
#[verifier::external_body]
#[verifier::reject_recursive_types(T)]
pub struct ExArena<T>(Arena<T>);

/// The arena as this library uses it: it allocates keys and stores no payload.
pub type KeyArena = Arena<()>;

/// The occupied slots of an arena: slot index to the generation stored there.
pub uninterp spec fn arena_live(arena: KeyArena) -> Map<usize, u64>;

/// The number of slots of an arena, free and occupied.
pub uninterp spec fn arena_capacity(arena: KeyArena) -> usize;

/// The arena's generation counter: the generation given to the next insertion.
pub uninterp spec fn arena_generation(arena: KeyArena) -> u64;

/// An opaque handle to a stored object: a slot index and the generation the
/// slot had when the object was inserted.
#[derive(Clone, Copy, Debug, PartialEq, Eq, Structural, Hash)]
pub struct StoreKey {
    pub index: usize,
    pub generation: u64,
}

impl StoreKey {
    /// Builds a key from its two parts.
    pub fn from_raw_parts(index: usize, generation: u64) -> (key: StoreKey)
        ensures
            key.index == index,
            key.generation == generation,
    {
        StoreKey { index, generation }
    }

    /// Splits a key into its two parts.
    pub fn into_raw_parts(self) -> (parts: (usize, u64))
        ensures
            parts.0 == self.index,
            parts.1 == self.generation,
    {
        (self.index, self.generation)
    }

    /// The strict order of keys: by slot index, then by generation.
    pub open spec fn spec_lt(self, other: StoreKey) -> bool {
        self.index < other.index || (self.index == other.index && self.generation
            < other.generation)
    }

    /// Whether `self` comes strictly before `other` in the order of keys.
    pub fn lt(self, other: StoreKey) -> (r: bool)
        ensures
            r == self.spec_lt(other),
    {
        self.index < other.index || (self.index == other.index && self.generation
            < other.generation)
    }
}

/// Whether `key` names an occupied slot of `arena` with the generation stored
/// there.
pub open spec fn arena_holds(arena: KeyArena, key: StoreKey) -> bool {
    arena_live(arena).contains_key(key.index) && arena_live(arena)[key.index] == key.generation
}

/// `Arena::with_capacity`: an empty arena of `max(n, 1)` slots whose
/// generation counter is zero.
#[verifier::external_body]
fn arena_with_capacity(n: usize) -> (arena: KeyArena)
    ensures
        arena_live(arena).dom() == Set::<usize>::empty(),
        arena_capacity(arena) == (if n == 0 { 1usize } else { n }),
        arena_generation(arena) == 0,
{
    Arena::with_capacity(n)
}

/// `Arena::len`: the number of occupied slots, which never exceeds the number
/// of slots.
#[verifier::external_body]
fn arena_len(arena: &KeyArena) -> (len: usize)
    ensures
        len == arena_live(*arena).dom().len(),
        len <= arena_capacity(*arena),
{
    arena.len()
}

/// `Arena::capacity`: the number of slots.
#[verifier::external_body]
fn arena_slots(arena: &KeyArena) -> (slots: usize)
    ensures
        slots == arena_capacity(*arena),
{
    arena.capacity()
}

/// `Arena::reserve`: appends `additional` free slots and touches nothing
/// else. The arena panics when the slot count overflows, and links a slot that
/// does not exist into its free list when `additional` is zero; both are left
/// out.
#[verifier::external_body]
fn arena_reserve(arena: &mut KeyArena, additional: usize)
    requires
        additional > 0,
        arena_capacity(*old(arena)) + additional <= usize::MAX,
    ensures
        arena_capacity(*final(arena)) == arena_capacity(*old(arena)) + additional,
        arena_live(*final(arena)) == arena_live(*old(arena)),
        arena_generation(*final(arena)) == arena_generation(*old(arena)),
{
    arena.reserve(additional)
}

/// `Arena::insert` on an arena that has a free slot: some free slot becomes
/// occupied with the current generation, and the key of that slot is
/// returned. Which free slot is taken is left open.
#[verifier::external_body]
fn arena_insert(arena: &mut KeyArena) -> (key: StoreKey)
    requires
        arena_live(*old(arena)).dom().len() < arena_capacity(*old(arena)),
    ensures
        key.index < arena_capacity(*old(arena)),
        !arena_live(*old(arena)).contains_key(key.index),
        key.generation == arena_generation(*old(arena)),
        arena_live(*final(arena)) == arena_live(*old(arena)).insert(key.index, key.generation),
        arena_capacity(*final(arena)) == arena_capacity(*old(arena)),
        arena_generation(*final(arena)) == arena_generation(*old(arena)),
{
    let (index, generation) = arena.insert(()).into_raw_parts();
    StoreKey { index, generation }
}

/// `Arena::remove`: when `key` names an occupied slot with the generation
/// stored there, the slot is freed and the generation counter goes up by one;
/// otherwise nothing changes. The counter would overflow at `u64::MAX`, which
/// is left out.
#[verifier::external_body]
fn arena_remove(arena: &mut KeyArena, key: StoreKey) -> (removed: bool)
    requires
        arena_generation(*old(arena)) < u64::MAX,
    ensures
        removed == arena_holds(*old(arena), key),
        removed ==> arena_live(*final(arena)) == arena_live(*old(arena)).remove(key.index),
        removed ==> arena_generation(*final(arena)) == arena_generation(*old(arena)) + 1,
        !removed ==> arena_live(*final(arena)) == arena_live(*old(arena)),
        !removed ==> arena_generation(*final(arena)) == arena_generation(*old(arena)),
        arena_capacity(*final(arena)) == arena_capacity(*old(arena)),
{
    arena.remove(Index::from_raw_parts(key.index, key.generation)).is_some()
}

/// `Arena::contains`: whether `key` names an occupied slot with the
/// generation stored there.
#[verifier::external_body]
fn arena_contains(arena: &KeyArena, key: StoreKey) -> (held: bool)
    ensures
        held == arena_holds(*arena, key),
{
    arena.contains(Index::from_raw_parts(key.index, key.generation))
}

/// `Arena::get_unknown_gen`: the key of the object in slot `index`, if the
/// slot is occupied.
#[verifier::external_body]
fn arena_key_at(arena: &KeyArena, index: usize) -> (key: Option<StoreKey>)
    ensures
        key is Some == arena_live(*arena).contains_key(index),
        key is Some ==> key->0.index == index,
        key is Some ==> key->0.generation == arena_live(*arena)[index],
{
    match arena.get_unknown_gen(index) {
        Some((_, found)) => {
            let (index, generation) = found.into_raw_parts();
            Some(StoreKey { index, generation })
        },
        None => None,
    }
}

/// A table of objects addressed by [`StoreKey`].
pub struct Storage<T> {
    /// The keys of the stored objects.
    keys: KeyArena,
    /// The stored objects, each in the slot that its key names.
    slots: Vec<Option<T>>,
    /// The number of removals so far, which is the arena's generation
    /// counter.
    generation: u64,
    /// The number of slots by which the table grows when it is full.
    growing_size: usize,
}

impl<T> Storage<T> {
    /// The invariant that ties the slot table to the arena's keys.
    pub closed spec fn wf(&self) -> bool {
        let live = arena_live(self.keys);
        &&& live.dom().finite()
        &&& self.slots.len() == arena_capacity(self.keys)
        &&& self.generation == arena_generation(self.keys)
        &&& self.growing_size > 0
        &&& forall|i: usize| #[trigger]
            live.contains_key(i) ==> i < self.slots.len() && self.slots[i as int] is Some
                && live[i] <= self.generation
        &&& forall|i: int|
            0 <= i < self.slots.len() && (#[trigger] self.slots[i]) is Some
                ==> live.contains_key(i as usize)
    }

    /// The stored objects by key.
    pub closed spec fn view(&self) -> Map<StoreKey, T> {
        Map::new(
            |k: StoreKey| arena_holds(self.keys, k),
            |k: StoreKey| self.slots[k.index as int]->0,
        )
    }

    /// The number of removals so far. A key is issued with the count at the
    /// time of its insertion as its generation.
    pub closed spec fn generation(&self) -> u64 {
        self.generation
    }

    /// The number of stored objects.
    pub closed spec fn count(&self) -> nat {
        arena_live(self.keys).dom().len()
    }

    /// A key that can never resolve again: it is absent, and its generation
    /// lies behind the removal count.
    pub open spec fn retired(&self, key: StoreKey) -> bool {
        !self@.contains_key(key) && key.generation < self.generation()
    }

    /// Whether this storage can have come from `before`: as many or more
    /// removals have happened, every key that is stored now and was not
    /// stored then is at least as young as the removal count of then, and
    /// every key that was stored then and is not stored now is retired.
    pub open spec fn follows(&self, before: &Storage<T>) -> bool {
        &&& before.generation() <= self.generation()
        &&& forall|k: StoreKey| #[trigger]
            self@.contains_key(k) && !before@.contains_key(k) ==> before.generation()
                <= k.generation
        &&& forall|k: StoreKey| #[trigger]
            before@.contains_key(k) && !self@.contains_key(k) ==> k.generation
                < self.generation()
    }

    /// A storage that follows one that follows `first` follows `first`.
    pub proof fn lemma_follows_on(&self, middle: &Storage<T>, first: &Storage<T>)
        requires
            self.follows(middle),
            middle.follows(first),
        ensures
            self.follows(first),
    {
        assert forall|k: StoreKey| #[trigger]
            self@.contains_key(k) && !first@.contains_key(k) implies first.generation()
            <= k.generation by {
            if middle@.contains_key(k) {
            }
        }
        assert forall|k: StoreKey| #[trigger]
            first@.contains_key(k) && !self@.contains_key(k) implies k.generation
            < self.generation() by {
            if middle@.contains_key(k) {
            }
        }
    }

    /// A retired key stays retired, whatever is inserted and removed
    /// afterwards: it never resolves again, even when its slot is taken by
    /// another object.
    pub proof fn lemma_retired_for_good(&self, before: &Storage<T>, key: StoreKey)
        requires
            before.retired(key),
            self.follows(before),
        ensures
            self.retired(key),
            !self@.contains_key(key),
    {
    }

    /// The number of stored objects is the number of stored keys.
    pub proof fn lemma_len(&self)
        requires
            self.wf(),
        ensures
            self@.dom().finite(),
            self@.dom().len() == self.count(),
    {
        let live = arena_live(self.keys).dom();
        let key_of = |i: usize| StoreKey { index: i, generation: arena_live(self.keys)[i] };
        assert(vstd::relations::injective_on(key_of, live));
        assert forall|k: StoreKey| live.map(key_of).contains(k) <==> self@.dom().contains(k) by {
            if self@.dom().contains(k) {
                assert(live.contains(k.index) && key_of(k.index) == k);
            }
        }
        assert(live.map(key_of) =~= self@.dom());
        vstd::set_lib::lemma_map_size(live, self@.dom(), key_of);
    }

    /// Stored keys are at most as young as the removal count, and no two of
    /// them share a slot.
    pub proof fn lemma_keys(&self, a: StoreKey, b: StoreKey)
        requires
            self.wf(),
            self@.contains_key(a),
            self@.contains_key(b),
        ensures
            a.generation <= self.generation(),
            a.index == b.index ==> a == b,
    {
    }

    /// Creates a storage with `initial_capacity` slots (at least one) that
    /// grows by `growing_size` slots whenever it is full.
    pub fn new(initial_capacity: usize, growing_size: usize) -> (s: Storage<T>)
        requires
            growing_size > 0,
        ensures
            s.wf(),
            s@ == Map::<StoreKey, T>::empty(),
            s.generation() == 0,
            s.count() == 0,
    {
        let keys = arena_with_capacity(initial_capacity);
        let n = arena_slots(&keys);
        let mut slots: Vec<Option<T>> = Vec::new();
        let mut i: usize = 0;
        while i < n
            invariant
                i <= n,
                slots.len() == i,
                forall|j: int| 0 <= j < i ==> slots[j] is None,
            decreases n - i,
        {
            slots.push(None);
            i += 1;
        }
        let s = Storage { keys, slots, generation: 0, growing_size };
        proof {
            assert(arena_live(s.keys).dom().len() == 0);
            assert(s@ =~= Map::<StoreKey, T>::empty());
        }
        s
    }

    /// The number of stored objects.
    pub fn len(&self) -> (len: usize)
        requires
            self.wf(),
        ensures
            len == self.count(),
            len == self@.dom().len(),
    {
        proof {
            self.lemma_len();
        }
        arena_len(&self.keys)
    }

    /// The number of removals so far.
    pub fn removals(&self) -> (r: u64)
        ensures
            r == self.generation(),
    {
        self.generation
    }

    /// Stores `object` and returns its key. The key is new: it was not stored
    /// before, and it is not retired. When every slot is taken, the table
    /// first grows by its increment, or by what is left up to the largest
    /// slot count.
    pub fn insert(&mut self, object: T) -> (key: StoreKey)
        requires
            old(self).wf(),
            old(self).count() < usize::MAX,
        ensures
            final(self).wf(),
            !old(self)@.contains_key(key),
            key.generation == old(self).generation(),
            final(self)@ == old(self)@.insert(key, object),
            final(self).generation() == old(self).generation(),
            final(self).count() == old(self).count() + 1,
            final(self).follows(old(self)),
    {
        let slots = arena_slots(&self.keys);
        if arena_len(&self.keys) == slots {
            let left: usize = usize::MAX - slots;
            let additional: usize = if self.growing_size < left {
                self.growing_size
            } else {
                left
            };
            arena_reserve(&mut self.keys, additional);
            let mut i: usize = 0;
            while i < additional
                invariant
                    i <= additional,
                    self.growing_size == old(self).growing_size,
                    self.generation == old(self).generation,
                    arena_live(self.keys) == arena_live(old(self).keys),
                    arena_generation(self.keys) == arena_generation(old(self).keys),
                    arena_capacity(self.keys) == arena_capacity(old(self).keys) + additional,
                    self.slots.len() == old(self).slots.len() + i,
                    old(self).slots.len() + additional <= usize::MAX,
                    forall|j: int|
                        0 <= j < old(self).slots.len() ==> self.slots[j] == old(self).slots[j],
                    forall|j: int|
                        old(self).slots.len() <= j < self.slots.len() ==> self.slots[j] is None,
                decreases additional - i,
            {
                self.slots.push(None);
                i += 1;
            }
        }
        let key = arena_insert(&mut self.keys);
        self.slots[key.index] = Some(object);
        proof {
            assert(final(self)@ =~= old(self)@.insert(key, object));
        }
        key
    }

    /// Whether `key` is stored.
    pub fn has(&self, key: StoreKey) -> (r: bool)
        requires
            self.wf(),
        ensures
            r == self@.contains_key(key),
    {
        arena_contains(&self.keys, key)
    }

    /// The object stored under `key`, if there is one.
    pub fn get(&self, key: StoreKey) -> (r: Option<&T>)
        requires
            self.wf(),
        ensures
            r is Some == self@.contains_key(key),
            r is Some ==> *r->0 == self@[key],
    {
        if arena_contains(&self.keys, key) {
            self.slots[key.index].as_ref()
        } else {
            None
        }
    }

    /// Exclusive access to the object stored under `key`, if there is one.
    /// What the caller leaves behind the reference is what the storage then
    /// holds under `key`; nothing else changes.
    pub fn get_mut(&mut self, key: StoreKey) -> (r: Option<&mut T>)
        requires
            old(self).wf(),
        ensures
            final(self).wf(),
            final(self).generation() == old(self).generation(),
            final(self).count() == old(self).count(),
            r is Some == old(self)@.contains_key(key),
            r is Some ==> *r->0 == old(self)@[key],
            r is Some ==> final(self)@ =~= old(self)@.insert(key, *final(r->0)),
            r is None ==> final(self)@ =~= old(self)@,
            final(self).follows(old(self)),
    {
        if arena_contains(&self.keys, key) {
            let slot = &mut self.slots[key.index];
            slot.as_mut()
        } else {
            None
        }
    }

    /// Whether a removal can be served: the removal count has not reached
    /// its maximum.
    pub fn can_remove(&self) -> (r: bool)
        ensures
            r == (self.generation() < u64::MAX),
    {
        self.generation < u64::MAX
    }

    /// Removes the object stored under `key` and returns it; `None` when there
    /// is none. A removed key is retired.
    pub fn remove(&mut self, key: StoreKey) -> (r: Option<T>)
        requires
            old(self).wf(),
            old(self).generation() < u64::MAX,
        ensures
            final(self).wf(),
            r is Some == old(self)@.contains_key(key),
            r is Some ==> r->0 == old(self)@[key],
            final(self)@ == old(self)@.remove(key),
            final(self).generation() == old(self).generation() + (if r is Some {
                1int
            } else {
                0int
            }),
            old(self)@.contains_key(key) || key.generation < old(self).generation() ==> final(self).retired(key),
            final(self).follows(old(self)),
            final(self).count() == old(self).count() - (if r is Some {
                1int
            } else {
                0int
            }),
    {
        if arena_remove(&mut self.keys, key) {
            self.generation = self.generation + 1;
            let r = self.slots[key.index].take();
            proof {
                assert(final(self)@ =~= old(self)@.remove(key));
                lemma_len_after_remove(arena_live(old(self).keys).dom(), key.index);
            }
            r
        } else {
            proof {
                assert(final(self)@ =~= old(self)@.remove(key));
            }
            None
        }
    }

    /// The stored keys, by increasing slot.
    pub fn iter(&self) -> (keys: Vec<StoreKey>)
        requires
            self.wf(),
        ensures
            forall|k: StoreKey| #[trigger] keys@.contains(k) <==> self@.contains_key(k),
            forall|i: int, j: int| 0 <= i < j < keys.len() ==> keys[i].index < keys[j].index,
    {
        let mut keys: Vec<StoreKey> = Vec::new();
        let n = self.slots.len();
        let mut i: usize = 0;
        while i < n
            invariant
                self.wf(),
                n == self.slots.len(),
                i <= n,
                forall|k: StoreKey| keys@.contains(k) <==> self@.contains_key(k) && k.index < i,
                forall|a: int, b: int| 0 <= a < b < keys.len() ==> keys[a].index < keys[b].index,
                forall|a: int| 0 <= a < keys.len() ==> keys[a].index < i,
            decreases n - i,
        {
            match arena_key_at(&self.keys, i) {
                Some(key) => {
                    let ghost before = keys@;
                    keys.push(key);
                    proof {
                        assert(keys@ == before.push(key));
                        assert forall|k: StoreKey| keys@.contains(k) <==> self@.contains_key(k)
                            && k.index < i + 1 by {
                            if keys@.contains(k) {
                                let w = choose|w: int| 0 <= w < keys@.len() && keys@[w] == k;
                                if w < before.len() {
                                    assert(before[w] == k);
                                    assert(before.contains(k));
                                }
                            }
                            if self@.contains_key(k) && k.index < i + 1 {
                                if k.index < i {
                                    assert(before.contains(k));
                                    let w = choose|w: int| 0 <= w < before.len() && before[w] == k;
                                    assert(keys@[w] == k);
                                } else {
                                    assert(k == key);
                                    assert(keys@[before.len() as int] == k);
                                }
                            }
                        }
                    }
                },
                None => {},
            }
            i += 1;
        }
        proof {
            assert forall|k: StoreKey| self@.contains_key(k) implies k.index < n by {}
        }
        keys
    }
}

impl<T> Default for Storage<T> {
    /// A storage of ten slots that grows by ten.
    fn default() -> (s: Storage<T>)
        ensures
            s.wf(),
            s@ == Map::<StoreKey, T>::empty(),
            s.generation() == 0,
            s.count() == 0,
    {
        Storage::new(10, 10)
    }
}

/// Taking one element out of a finite set leaves one element fewer.
proof fn lemma_len_after_remove(s: Set<usize>, i: usize)
    requires
        s.finite(),
        s.contains(i),
    ensures
        s.remove(i).len() < s.len(),
{
}

} // verus!
