use ecs_core::component::Component;
use ecs_core::error::StorageError;
use ecs_core::entity_id::EntityId;
use ecs_core::sparse_set::SparseSet;
use ecs_core::tracking::{
    is_track_within_bounds, TrackingTimestamp, HALF_TRACKING_RANGE, TRACK_DELETION,
    TRACK_INSERTION,
};

#[derive(PartialEq, Eq, Debug)]
struct A(u32);

impl Component for A {}

#[test]
fn within_bounds_plain_interval() {
    assert!(is_track_within_bounds(5, 0, 10));
    assert!(is_track_within_bounds(0, 0, 10));
    assert!(is_track_within_bounds(10, 0, 10));
    assert!(!is_track_within_bounds(11, 0, 10));
}

#[test]
fn within_bounds_wraps_around() {
    // an interval that crosses the counter wrap
    let last = u32::MAX - 1;
    let current = 3u32;
    assert!(is_track_within_bounds(u32::MAX, last, current));
    assert!(is_track_within_bounds(0, last, current));
    assert!(is_track_within_bounds(3, last, current));
    assert!(!is_track_within_bounds(4, last, current));
}

#[test]
fn deletion_log_records_and_trims() {
    let mut storage: SparseSet<A> = SparseSet::new();
    storage.track_deletion();

    let e0 = EntityId::new_from_parts(0, 0);
    let e1 = EntityId::new_from_parts(1, 0);
    let e2 = EntityId::new_from_parts(2, 0);
    storage.insert(e0, A(0), 1);
    storage.insert(e1, A(1), 1);
    storage.insert(e2, A(2), 1);

    let t = 5u32;
    assert!(storage.dyn_delete(e1, t));
    assert_eq!(storage.deletion_data.len(), 1);
    assert_eq!(storage.deletion_data[0], (e1, t, A(1)));

    // the entry at tick t is older than the cutoff t + 1, so it goes
    storage.clear_all_deleted_older_than_timestamp(TrackingTimestamp(t + 1));
    assert!(storage.deletion_data.is_empty());
}

#[test]
fn removal_log_keeps_entries_younger_than_cutoff() {
    let mut storage: SparseSet<A> = SparseSet::new();
    storage.track_removal();

    let e0 = EntityId::new_from_parts(0, 0);
    let e1 = EntityId::new_from_parts(1, 0);
    storage.insert(e0, A(0), 1);
    storage.insert(e1, A(1), 1);

    assert_eq!(storage.dyn_remove(e0, 4), Some(A(0)));
    assert_eq!(storage.dyn_remove(e1, 9), Some(A(1)));
    assert_eq!(storage.removal_data.len(), 2);

    // cutoff between the two ticks: only the younger entry stays
    storage.clear_all_removed_older_than_timestamp(TrackingTimestamp(7));
    assert_eq!(storage.removal_data, vec![(e1, 9u32)]);

    // a cutoff more than half the range ahead clears the rest
    storage
        .clear_all_removed_older_than_timestamp(TrackingTimestamp(9 + HALF_TRACKING_RANGE + 1));
    assert!(storage.removal_data.is_empty());
}

#[test]
fn tracking_toggles_are_idempotent() {
    let mut storage: SparseSet<A> = SparseSet::new();
    storage.insert(EntityId::new_from_parts(0, 0), A(1), 0);
    storage.insert(EntityId::new_from_parts(1, 0), A(2), 0);

    storage.track_insertion();
    storage.track_insertion();
    storage.track_insertion();
    assert_eq!(storage.insertion_data.len(), 2);
    assert!(storage.is_tracking_insertion());

    storage.track_modification();
    storage.track_modification();
    assert_eq!(storage.modification_data.len(), 2);
    assert!(storage.is_tracking_modification());
}

#[test]
fn insertion_and_modification_stamps() {
    let mut storage: SparseSet<A> = SparseSet::new();
    storage.track_insertion();
    storage.track_modification();

    let e = EntityId::new_from_parts(0, 0);
    storage.insert(e, A(1), 7);
    assert_eq!(storage.insertion_data, vec![7u32]);
    assert_eq!(storage.modification_data, vec![0u32]);

    // replacing the component counts as a modification
    assert_eq!(storage.insert(e, A(2), 9), Some(A(1)));
    assert_eq!(storage.insertion_data, vec![7u32]);
    assert_eq!(storage.modification_data, vec![9u32]);
}

#[test]
fn stale_insert_is_a_no_op() {
    let mut storage: SparseSet<A> = SparseSet::new();

    let newer = EntityId::new_from_parts(0, 2);
    let stale = EntityId::new_from_parts(0, 1);
    storage.insert(newer, A(5), 0);

    assert_eq!(storage.insert(stale, A(6), 0), None);
    assert_eq!(storage.private_get(newer), Some(&A(5)));
    assert_eq!(storage.private_get(stale), None);

    // inserting with the same generation replaces and returns the old value
    assert_eq!(storage.insert(newer, A(8), 0), Some(A(5)));
    assert_eq!(storage.private_get(newer), Some(&A(8)));
}

#[test]
fn tracking_demands_are_checked() {
    let mut storage: SparseSet<A> = SparseSet::new();
    storage.track_insertion();

    assert!(storage.check_tracking(TRACK_INSERTION).is_ok());
    assert_eq!(
        storage.check_tracking(TRACK_INSERTION | TRACK_DELETION),
        Err(StorageError::TrackingNotEnabled(TRACK_INSERTION | TRACK_DELETION))
    );

    storage.enable_tracking(TRACK_INSERTION | TRACK_DELETION);
    assert!(storage.check_tracking(TRACK_INSERTION | TRACK_DELETION).is_ok());
}
