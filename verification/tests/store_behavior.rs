use ncmerge::errors::MergeError;
use ncmerge::store::part_a;
use ncmerge::store::part_b;
use ncmerge::store::read;
use ncmerge::store::rocket;
use ncmerge::store::PartStore;
use ncmerge::store::Slot;

/// A read of a dataset with only slot A populated fails with `NotFound`.
#[test]
fn get_with_missing_slot_is_not_found() {
    let mut store = PartStore::new();
    store.put("grid".to_string(), Slot::A, vec![1, 2, 3]);
    assert_eq!(store.get(&"grid".to_string()).err(), Some(MergeError::NotFound));
}

/// A read of a dataset never uploaded fails with `NotFound`.
#[test]
fn get_unknown_name_is_not_found() {
    let store = PartStore::new();
    assert_eq!(store.get(&"absent".to_string()).err(), Some(MergeError::NotFound));
}

/// Both slots written: the read hands both byte blobs back.
#[test]
fn get_after_both_puts() {
    let mut store = PartStore::new();
    let na = store.put("grid".to_string(), Slot::A, vec![1, 2, 3]);
    let nb = store.put("grid".to_string(), Slot::B, vec![4, 5]);
    assert_eq!(na, 3);
    assert_eq!(nb, 2);
    let (a, b) = store.get(&"grid".to_string()).unwrap();
    assert_eq!(a, vec![1, 2, 3]);
    assert_eq!(b, vec![4, 5]);
}

/// A repeated upload replaces the slot unconditionally.
#[test]
fn put_replaces_slot() {
    let mut store = PartStore::new();
    store.put("grid".to_string(), Slot::A, vec![1]);
    store.put("grid".to_string(), Slot::B, vec![2]);
    store.put("grid".to_string(), Slot::A, vec![9, 9]);
    let (a, b) = store.get(&"grid".to_string()).unwrap();
    assert_eq!(a, vec![9, 9]);
    assert_eq!(b, vec![2]);
}

/// Different dataset names are independent.
#[test]
fn names_are_independent() {
    let mut store = PartStore::new();
    store.put("one".to_string(), Slot::A, vec![1]);
    store.put("one".to_string(), Slot::B, vec![2]);
    store.put("two".to_string(), Slot::A, vec![3]);
    let (a, b) = store.get(&"one".to_string()).unwrap();
    assert_eq!(a, vec![1]);
    assert_eq!(b, vec![2]);
    assert_eq!(store.get(&"two".to_string()).err(), Some(MergeError::NotFound));
}

/// The upload entry points report the stored byte count and fill the right
/// slots for a later read.
#[test]
fn upload_entry_points_round_trip() {
    let mut store = rocket();
    let na = part_a(&mut store, "set".to_string(), vec![10, 11, 12, 13]);
    assert_eq!(na, 4);
    assert_eq!(read(&store, &"set".to_string()).err(), Some(MergeError::NotFound));
    let nb = part_b(&mut store, "set".to_string(), vec![20]);
    assert_eq!(nb, 1);
    let (a, b) = read(&store, &"set".to_string()).unwrap();
    assert_eq!(a, vec![10, 11, 12, 13]);
    assert_eq!(b, vec![20]);
}
