use slicelet::slices::AssignmentStore;
use slicelet::slices::Slice;
use slicelet::slices::StoreError;

fn slice(start: u64, end: u64) -> Slice {
    Slice { start, end }
}

#[test]
fn new_store_owns_nothing() {
    let store = AssignmentStore::new();
    assert_eq!(store.len(), 0);
    assert!(!store.contains(0));
    assert!(!store.contains(u64::MAX));
}

#[test]
fn contains_iff_within_assigned_slices() {
    let mut store = AssignmentStore::new();
    let assigned = vec![slice(10, 20), slice(40, 40), slice(100, 200)];
    let unassigned: Vec<Slice> = Vec::new();
    assert!(store.apply(&assigned, &unassigned).is_ok());
    assert_eq!(store.len(), 3);
    assert!(!store.contains(9));
    assert!(store.contains(10));
    assert!(store.contains(15));
    assert!(store.contains(20));
    assert!(!store.contains(21));
    assert!(!store.contains(39));
    assert!(store.contains(40));
    assert!(!store.contains(41));
    assert!(store.contains(100));
    assert!(store.contains(200));
    assert!(!store.contains(201));
    assert!(!store.contains(u64::MAX));
}

#[test]
fn apply_keeps_slices_sorted_regardless_of_delta_order() {
    let mut store = AssignmentStore::new();
    let assigned = vec![slice(100, 200), slice(0, 10), slice(50, 60)];
    let unassigned: Vec<Slice> = Vec::new();
    assert!(store.apply(&assigned, &unassigned).is_ok());
    assert!(store.contains(5));
    assert!(store.contains(55));
    assert!(store.contains(150));
    assert!(!store.contains(30));
}

#[test]
fn round_trip_restores_empty_store() {
    let mut store = AssignmentStore::new();
    let delta = vec![slice(10, 20)];
    let nothing: Vec<Slice> = Vec::new();
    assert!(store.apply(&delta, &nothing).is_ok());
    assert!(store.contains(15));
    assert!(store.apply(&nothing, &delta).is_ok());
    assert_eq!(store.len(), 0);
    assert!(!store.contains(15));
}

#[test]
fn unassigning_unknown_slice_reports_without_crashing() {
    let mut store = AssignmentStore::new();
    let assigned = vec![slice(10, 20)];
    let nothing: Vec<Slice> = Vec::new();
    assert!(store.apply(&assigned, &nothing).is_ok());
    // The exact bounds do not match an owned slice: the entry is dropped and
    // the desync is reported.
    let unassigned = vec![slice(10, 21)];
    assert_eq!(store.apply(&nothing, &unassigned), Err(StoreError::UnassignedNotOwned));
    // The store still owns what it owned.
    assert!(store.contains(15));
    assert_eq!(store.len(), 1);
}

#[test]
fn mixed_delta_assigns_and_unassigns_in_one_step() {
    let mut store = AssignmentStore::new();
    let first = vec![slice(0, 9), slice(20, 29)];
    let nothing: Vec<Slice> = Vec::new();
    assert!(store.apply(&first, &nothing).is_ok());
    let assigned = vec![slice(40, 49)];
    let unassigned = vec![slice(0, 9)];
    assert!(store.apply(&assigned, &unassigned).is_ok());
    assert!(!store.contains(5));
    assert!(store.contains(25));
    assert!(store.contains(45));
}

#[test]
fn single_key_slice_boundaries() {
    let mut store = AssignmentStore::new();
    let assigned = vec![slice(42, 42)];
    let nothing: Vec<Slice> = Vec::new();
    assert!(store.apply(&assigned, &nothing).is_ok());
    assert!(!store.contains(41));
    assert!(store.contains(42));
    assert!(!store.contains(43));
}

#[test]
fn full_space_slice_covers_everything() {
    let mut store = AssignmentStore::new();
    let assigned = vec![slice(0, u64::MAX)];
    let nothing: Vec<Slice> = Vec::new();
    assert!(store.apply(&assigned, &nothing).is_ok());
    assert!(store.contains(0));
    assert!(store.contains(u64::MAX / 2));
    assert!(store.contains(u64::MAX));
}
