use amethyst_nphysics::storage::Storage;
use amethyst_nphysics::storage::StoreKey;

#[test]
fn insert_then_get_returns_the_object() {
    let mut storage: Storage<u32> = Storage::new(4, 4);
    let a = storage.insert(10);
    let b = storage.insert(20);
    assert_ne!(a, b);
    assert_eq!(storage.get(a), Some(&10));
    assert_eq!(storage.get(b), Some(&20));
    assert!(storage.has(a));
    assert_eq!(storage.len(), 2);
}

#[test]
fn removed_key_never_resolves_again_even_when_the_slot_is_reused() {
    let mut storage: Storage<&'static str> = Storage::new(1, 1);
    let old = storage.insert("first");
    assert_eq!(storage.remove(old), Some("first"));
    assert_eq!(storage.get(old), None);
    let new = storage.insert("second");
    // The freed slot is taken again, under a younger generation.
    assert_eq!(new.index, old.index);
    assert!(new.generation > old.generation);
    assert_eq!(storage.get(old), None);
    assert!(!storage.has(old));
    assert_eq!(storage.get_mut(old), None);
    assert_eq!(storage.remove(old), None);
    assert_eq!(storage.get(new), Some(&"second"));
}

#[test]
fn remove_of_an_absent_key_changes_nothing() {
    let mut storage: Storage<u8> = Storage::new(2, 2);
    let a = storage.insert(1);
    let forged = StoreKey::from_raw_parts(a.index, a.generation + 7);
    assert_eq!(storage.remove(forged), None);
    assert_eq!(storage.removals(), 0);
    assert_eq!(storage.get(a), Some(&1));
    assert_eq!(storage.len(), 1);
}

#[test]
fn removals_count_the_generation() {
    let mut storage: Storage<u8> = Storage::new(2, 2);
    let a = storage.insert(1);
    let b = storage.insert(2);
    assert_eq!(a.generation, 0);
    assert_eq!(b.generation, 0);
    assert!(storage.can_remove());
    storage.remove(a);
    assert_eq!(storage.removals(), 1);
    let c = storage.insert(3);
    assert_eq!(c.generation, 1);
    storage.remove(b);
    storage.remove(c);
    assert_eq!(storage.removals(), 3);
    assert_eq!(storage.len(), 0);
}

#[test]
fn storage_grows_by_its_increment_when_full() {
    let mut storage: Storage<usize> = Storage::new(1, 3);
    let mut keys = Vec::new();
    for i in 0..20 {
        keys.push(storage.insert(i));
    }
    assert_eq!(storage.len(), 20);
    for (i, key) in keys.iter().enumerate() {
        assert_eq!(storage.get(*key), Some(&i));
    }
    // No two live keys share a slot.
    for i in 0..keys.len() {
        for j in (i + 1)..keys.len() {
            assert_ne!(keys[i].index, keys[j].index);
        }
    }
}

#[test]
fn zero_initial_capacity_still_holds_objects() {
    let mut storage: Storage<u8> = Storage::new(0, 1);
    let a = storage.insert(5);
    let b = storage.insert(6);
    assert_eq!(storage.get(a), Some(&5));
    assert_eq!(storage.get(b), Some(&6));
}

#[test]
fn get_mut_writes_through() {
    let mut storage: Storage<Vec<u8>> = Storage::new(2, 2);
    let a = storage.insert(vec![1]);
    let b = storage.insert(vec![9]);
    storage.get_mut(a).unwrap().push(2);
    assert_eq!(storage.get(a), Some(&vec![1, 2]));
    assert_eq!(storage.get(b), Some(&vec![9]));
}

#[test]
fn iter_lists_the_live_keys_by_slot() {
    let mut storage: Storage<u8> = Storage::new(4, 4);
    let a = storage.insert(1);
    let b = storage.insert(2);
    let c = storage.insert(3);
    storage.remove(b);
    let keys = storage.iter();
    assert_eq!(keys.len(), 2);
    assert!(keys.contains(&a));
    assert!(keys.contains(&c));
    assert!(!keys.contains(&b));
    assert!(keys[0].index < keys[1].index);
}

#[test]
fn key_order_is_by_slot_then_generation() {
    let a = StoreKey::from_raw_parts(1, 5);
    let b = StoreKey::from_raw_parts(2, 0);
    let c = StoreKey::from_raw_parts(1, 6);
    assert!(a.lt(b));
    assert!(a.lt(c));
    assert!(c.lt(b));
    assert!(!b.lt(a));
    assert!(!a.lt(a));
    assert_eq!(a.into_raw_parts(), (1, 5));
}
