use slot_sync::reconcile::{merge, reconcile};
use slot_sync::slot::{indices, SlotRecord};
use slot_sync::store::{SharedStore, UNCORRECTED};
use std::collections::HashMap;

fn read(programmed: u16, corrected: u16, timestamp: u64) -> SlotRecord {
    SlotRecord { programmed, corrected: Some(corrected), timestamp: Some(timestamp) }
}

fn device(timestamp: u64) -> HashMap<usize, SlotRecord> {
    let mut snapshot = HashMap::new();
    for index in 0..8usize {
        snapshot.insert(index, read(10 + index as u16, 100 + index as u16, timestamp));
    }
    snapshot
}

fn store_of(slots: &HashMap<usize, SlotRecord>) -> SharedStore {
    let mut store = SharedStore::new();
    for (&index, &record) in slots {
        store.upsert(index, |_| record);
    }
    store
}

fn contents(store: &SharedStore) -> HashMap<usize, SlotRecord> {
    store.snapshot_indices().into_iter().map(|index| (index, store.get(index).unwrap())).collect()
}

#[test]
fn new_record_has_only_a_programmed_value() {
    assert_eq!(
        SlotRecord::new(77),
        SlotRecord { programmed: 77, corrected: None, timestamp: None }
    );
}

#[test]
fn new_store_is_empty() {
    let store = SharedStore::new();
    assert_eq!(store.len(), 0);
    assert_eq!(store.snapshot_indices(), Vec::<usize>::new());
    assert_eq!(store.get(0), None);
}

#[test]
fn indices_come_smallest_first() {
    let mut slots = HashMap::new();
    for index in [7usize, 300, 2, 0, usize::MAX, 41] {
        slots.insert(index, SlotRecord::new(1));
    }
    assert_eq!(indices(&slots), vec![0, 2, 7, 41, 300, usize::MAX]);
    assert_eq!(store_of(&slots).snapshot_indices(), vec![0, 2, 7, 41, 300, usize::MAX]);
    assert_eq!(indices(&HashMap::new()), Vec::<usize>::new());
}

#[test]
fn upsert_inserts_and_updates() {
    let mut store = SharedStore::new();
    let made = store.upsert(4, |held| {
        assert_eq!(held, None);
        SlotRecord::new(9)
    });
    assert_eq!(made, SlotRecord::new(9));
    assert_eq!(store.get(4), Some(SlotRecord::new(9)));
    assert_eq!(store.len(), 1);

    let made = store.upsert(4, |held| {
        let held = held.unwrap();
        SlotRecord { programmed: held.programmed + 1, corrected: Some(3), timestamp: held.timestamp }
    });
    assert_eq!(made, SlotRecord { programmed: 10, corrected: Some(3), timestamp: None });
    assert_eq!(store.get(4), Some(made));
    assert_eq!(store.len(), 1);
    assert_eq!(store.get(5), None);
}

#[test]
fn client_cannot_program_an_unknown_slot() {
    let mut store = store_of(&device(1));
    assert_eq!(store.set_programmed(8, 5), None);
    assert_eq!(store.len(), 8);
    assert_eq!(contents(&store), device(1));
}

#[test]
fn client_write_sets_a_provisional_corrected_value() {
    let mut store = store_of(&device(1));
    assert_eq!(
        store.set_programmed(3, 500),
        Some(SlotRecord { programmed: 500, corrected: Some(UNCORRECTED), timestamp: Some(1) })
    );
    assert_eq!(UNCORRECTED, 0xFFFF);
    assert_eq!(
        store.set_programmed(4, 0),
        Some(SlotRecord { programmed: 0, corrected: Some(0), timestamp: Some(1) })
    );
    assert_eq!(store.get(3), Some(read(500, 0xFFFF, 1)));
    assert_eq!(store.get(4), Some(read(0, 0, 1)));
    assert_eq!(store.get(5), Some(read(15, 105, 1)));
}

#[test]
fn client_write_of_the_same_value_changes_nothing() {
    let mut store = store_of(&device(1));
    assert_eq!(store.set_programmed(3, 13), Some(read(13, 103, 1)));
    assert_eq!(contents(&store), device(1));
}

#[test]
fn merge_of_one_slot() {
    let seen = read(9, 90, 2);
    assert_eq!(merge(None, seen), seen);
    assert_eq!(
        merge(Some(SlotRecord { programmed: 5, corrected: None, timestamp: None }), seen),
        SlotRecord { programmed: 5, corrected: None, timestamp: Some(2) }
    );
    assert_eq!(merge(Some(read(5, 50, 1)), seen), read(5, 50, 2));
    assert_eq!(merge(Some(read(9, 50, 1)), seen), read(9, 90, 2));
    assert_eq!(merge(Some(SlotRecord::new(9)), seen), read(9, 90, 2));
}

#[test]
fn reconcile_in_step_changes_nothing_to_write() {
    let mut store = store_of(&device(1));
    let mut snapshot = device(2);
    snapshot.insert(5, read(15, 999, 2));
    let changed = reconcile(&snapshot, &mut store);
    assert!(changed.is_empty());
    for index in 0..8usize {
        assert_eq!(store.get(index).unwrap().programmed, 10 + index as u16);
        assert_eq!(store.get(index).unwrap().timestamp, Some(2));
    }
    assert_eq!(store.get(5).unwrap().corrected, Some(999));
    assert_eq!(contents(&store), snapshot);
}

#[test]
fn reconcile_twice_is_reconcile_once() {
    let mut store = store_of(&device(1));
    store.set_programmed(1, 4000);
    store.set_programmed(6, 0);
    let snapshot = device(2);
    let first = reconcile(&snapshot, &mut store);
    let after_first = contents(&store);
    let second = reconcile(&snapshot, &mut store);
    assert_eq!(contents(&store), after_first);
    assert_eq!(indices(&first), vec![1, 6]);
    assert_eq!(indices(&second), vec![1, 6]);
}

#[test]
fn conflict_is_resolved_for_the_store() {
    let mut store = SharedStore::new();
    store.upsert(0, |_| SlotRecord { programmed: 5, corrected: Some(50), timestamp: Some(1) });
    let mut snapshot = HashMap::new();
    snapshot.insert(0usize, read(9, 90, 2));
    let changed = reconcile(&snapshot, &mut store);
    assert_eq!(changed.len(), 1);
    assert_eq!(changed[&0], SlotRecord { programmed: 5, corrected: Some(50), timestamp: Some(1) });
    assert_eq!(
        store.get(0),
        Some(SlotRecord { programmed: 5, corrected: Some(50), timestamp: Some(2) })
    );
}

#[test]
fn first_contact_adopts_the_snapshot() {
    let mut store = SharedStore::new();
    let snapshot = device(3);
    let changed = reconcile(&snapshot, &mut store);
    assert!(changed.is_empty());
    assert_eq!(store.len(), 8);
    assert_eq!(store.snapshot_indices(), vec![0, 1, 2, 3, 4, 5, 6, 7]);
    assert_eq!(contents(&store), snapshot);
}

#[test]
fn external_write_is_pushed_at_the_next_sync() {
    let mut store = SharedStore::new();
    let mut agreed = device(1);
    agreed.insert(2, read(3, 30, 1));
    assert!(reconcile(&agreed, &mut store).is_empty());

    assert_eq!(store.set_programmed(2, 7).unwrap().programmed, 7);

    let mut next = device(2);
    next.insert(2, read(3, 30, 2));
    let changed = reconcile(&next, &mut store);
    assert_eq!(indices(&changed), vec![2]);
    assert_eq!(changed[&2].programmed, 7);
    assert_eq!(store.get(2).unwrap().programmed, 7);

    // Once the device has the value, the slot is in step again.
    let mut written = device(3);
    written.insert(2, read(7, 70, 3));
    assert!(reconcile(&written, &mut store).is_empty());
    assert_eq!(store.get(2), Some(read(7, 70, 3)));
}

#[test]
fn slots_outside_the_snapshot_stay() {
    let mut store = SharedStore::new();
    store.upsert(40, |_| SlotRecord::new(1));
    store.upsert(1, |_| SlotRecord::new(11));
    let mut snapshot = HashMap::new();
    snapshot.insert(1usize, read(11, 5, 9));
    snapshot.insert(2usize, read(12, 6, 9));
    let changed = reconcile(&snapshot, &mut store);
    assert!(changed.is_empty());
    assert_eq!(store.snapshot_indices(), vec![1, 2, 40]);
    assert_eq!(store.get(40), Some(SlotRecord::new(1)));
    assert_eq!(store.get(1), Some(read(11, 5, 9)));
    assert_eq!(store.get(2), Some(read(12, 6, 9)));
}

#[test]
fn empty_snapshot_changes_nothing() {
    let mut store = store_of(&device(1));
    let changed = reconcile(&HashMap::new(), &mut store);
    assert!(changed.is_empty());
    assert_eq!(contents(&store), device(1));
}
