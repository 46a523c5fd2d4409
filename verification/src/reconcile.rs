//! Merging a device snapshot into the store.
//!
//! The store holds what is wanted, the device what is. Where the two disagree on a
//! programmed value, a client has asked for another value since the last cycle: the store's
//! value stands and is to be written to the device.

use crate::slot::{indices, SlotRecord};
use crate::store::{client_write, SharedStore};
use std::collections::HashMap;
use vstd::prelude::*;

verus! {

broadcast use vstd::std_specs::hash::group_hash_axioms;

/// What the store holds for a slot after it met the record `seen` in a device snapshot.
///
/// A slot that the store did not know is taken over as the device reports it. Where the
/// two disagree on the programmed value the store keeps its own record; where they agree
/// it takes the device's corrected value. The time of the read is taken in every case.
pub open spec fn merged_slot(held: Option<SlotRecord>, seen: SlotRecord) -> SlotRecord {
    match held {
        None => seen,
        Some(own) => if own.programmed != seen.programmed {
            SlotRecord {
                programmed: own.programmed,
                corrected: own.corrected,
                timestamp: seen.timestamp,
            }
        } else {
            SlotRecord {
                programmed: own.programmed,
                corrected: seen.corrected,
                timestamp: seen.timestamp,
            }
        },
    }
}

/// Whether the store holds a programmed value for the slot that the device does not have.
pub open spec fn disagrees(held: Option<SlotRecord>, seen: SlotRecord) -> bool {
    held matches Some(own) && own.programmed != seen.programmed
}

/// The store after `snapshot` was merged into it.
pub open spec fn reconciled(
    store: Map<usize, SlotRecord>,
    snapshot: Map<usize, SlotRecord>,
) -> Map<usize, SlotRecord> {
    Map::new(
        |index: usize| store.contains_key(index) || snapshot.contains_key(index),
        |index: usize|
            if snapshot.contains_key(index) {
                merged_slot(store.get(index), snapshot[index])
            } else {
                store[index]
            },
    )
}

/// The slots that must be written to the device after `snapshot` was read: those on whose
/// programmed value store and device disagree, each with the record that the store held.
pub open spec fn changed_slots(
    store: Map<usize, SlotRecord>,
    snapshot: Map<usize, SlotRecord>,
) -> Map<usize, SlotRecord> {
    Map::new(
        |index: usize| snapshot.contains_key(index) && disagrees(store.get(index), snapshot[index]),
        |index: usize| store[index],
    )
}

/// Merging never drops a slot and never touches the programmed value of a slot that the
/// store already held; slots that the snapshot does not name stay as they are.
pub proof fn lemma_programmed_kept(store: Map<usize, SlotRecord>, snapshot: Map<usize, SlotRecord>)
    ensures
        forall|index: usize| #[trigger]
            store.contains_key(index) ==> {
                &&& reconciled(store, snapshot).contains_key(index)
                &&& reconciled(store, snapshot)[index].programmed == store[index].programmed
            },
        forall|index: usize| #[trigger]
            store.contains_key(index) && !snapshot.contains_key(index) ==> reconciled(
                store,
                snapshot,
            )[index] == store[index],
        forall|index: usize| #[trigger]
            snapshot.contains_key(index) ==> reconciled(store, snapshot)[index].timestamp
                == snapshot[index].timestamp,
{
}

/// Where the store agrees with the snapshot on every programmed value, nothing has to be
/// written and the store keeps its slots and their programmed values; it takes over the
/// corrected values and the time of the read.
pub proof fn lemma_in_step(store: Map<usize, SlotRecord>, snapshot: Map<usize, SlotRecord>)
    requires
        forall|index: usize| #[trigger]
            snapshot.contains_key(index) ==> store.contains_key(index) && store[index].programmed
                == snapshot[index].programmed,
    ensures
        changed_slots(store, snapshot) == Map::<usize, SlotRecord>::empty(),
        reconciled(store, snapshot).dom() == store.dom(),
        forall|index: usize| #[trigger]
            store.contains_key(index) ==> reconciled(store, snapshot)[index].programmed
                == store[index].programmed,
        forall|index: usize| #[trigger]
            snapshot.contains_key(index) ==> reconciled(store, snapshot)[index] == snapshot[index],
{
    assert(changed_slots(store, snapshot) =~= Map::<usize, SlotRecord>::empty());
    assert(reconciled(store, snapshot).dom() =~= store.dom());
}

/// Merging the same snapshot a second time changes nothing more, and asks for the same
/// slots to be written.
pub proof fn lemma_reconcile_again(store: Map<usize, SlotRecord>, snapshot: Map<usize, SlotRecord>)
    ensures
        reconciled(reconciled(store, snapshot), snapshot) == reconciled(store, snapshot),
        changed_slots(reconciled(store, snapshot), snapshot).dom() == changed_slots(
            store,
            snapshot,
        ).dom(),
{
    let once = reconciled(store, snapshot);
    assert(reconciled(once, snapshot) =~= once);
    assert(changed_slots(once, snapshot).dom() =~= changed_slots(store, snapshot).dom());
}

/// Where store and device disagree on a programmed value, the store's value stands: the
/// slot is to be written with the record that the store held, and the store keeps its
/// programmed and corrected values and takes over only the time of the read.
pub proof fn lemma_store_wins(
    store: Map<usize, SlotRecord>,
    snapshot: Map<usize, SlotRecord>,
    index: usize,
)
    requires
        store.contains_key(index),
        snapshot.contains_key(index),
        store[index].programmed != snapshot[index].programmed,
    ensures
        changed_slots(store, snapshot).contains_key(index),
        changed_slots(store, snapshot)[index] == store[index],
        reconciled(store, snapshot)[index] == (SlotRecord {
            programmed: store[index].programmed,
            corrected: store[index].corrected,
            timestamp: snapshot[index].timestamp,
        }),
{
}

/// A slot is to be written exactly if the store held it with another programmed value
/// than the device reports.
pub proof fn lemma_changed_exactly(
    store: Map<usize, SlotRecord>,
    snapshot: Map<usize, SlotRecord>,
    index: usize,
)
    ensures
        changed_slots(store, snapshot).contains_key(index) <==> store.contains_key(index)
            && snapshot.contains_key(index) && store[index].programmed
            != snapshot[index].programmed,
{
}

/// A store that knows no slot takes the snapshot over as it is, and nothing has to be
/// written.
pub proof fn lemma_first_contact(snapshot: Map<usize, SlotRecord>)
    ensures
        reconciled(Map::<usize, SlotRecord>::empty(), snapshot) == snapshot,
        changed_slots(Map::<usize, SlotRecord>::empty(), snapshot) == Map::<
            usize,
            SlotRecord,
        >::empty(),
{
    let none = Map::<usize, SlotRecord>::empty();
    assert(reconciled(none, snapshot) =~= snapshot);
    assert(changed_slots(none, snapshot) =~= none);
}

/// No more slots disagree with a snapshot than the snapshot holds.
pub proof fn lemma_changed_within_snapshot(
    store: Map<usize, SlotRecord>,
    snapshot: Map<usize, SlotRecord>,
)
    requires
        snapshot.dom().finite(),
    ensures
        changed_slots(store, snapshot).dom().subset_of(snapshot.dom()),
        changed_slots(store, snapshot).dom().finite(),
        changed_slots(store, snapshot).len() <= snapshot.len(),
{
    vstd::set_lib::lemma_len_subset(changed_slots(store, snapshot).dom(), snapshot.dom());
}

/// What a client wrote reaches the device: if the next snapshot still reports another
/// programmed value for the slot, the slot is to be written with the client's value, and
/// the store keeps that value.
pub proof fn lemma_client_write_pushed(
    store: Map<usize, SlotRecord>,
    index: usize,
    programmed: u16,
    snapshot: Map<usize, SlotRecord>,
)
    requires
        store.contains_key(index),
        snapshot.contains_key(index),
        snapshot[index].programmed != programmed,
    ensures
        ({
            let written = client_write(store, index, programmed);
            &&& changed_slots(written, snapshot).contains_key(index)
            &&& changed_slots(written, snapshot)[index].programmed == programmed
            &&& reconciled(written, snapshot)[index].programmed == programmed
        }),
{
}

/// What the store is to hold for a slot after it met the record `seen` in a snapshot.
pub fn merge(held: Option<SlotRecord>, seen: SlotRecord) -> (r: SlotRecord)
    ensures
        r == merged_slot(held, seen),
{
    match held {
        None => seen,
        Some(own) => {
            if own.programmed != seen.programmed {
                SlotRecord {
                    programmed: own.programmed,
                    corrected: own.corrected,
                    timestamp: seen.timestamp,
                }
            } else {
                SlotRecord {
                    programmed: own.programmed,
                    corrected: seen.corrected,
                    timestamp: seen.timestamp,
                }
            }
        },
    }
}

/// Merges a device snapshot into the store and returns the slots that must be written
/// back to the device.
pub fn reconcile(snapshot: &HashMap<usize, SlotRecord>, store: &mut SharedStore) -> (changed:
    HashMap<usize, SlotRecord>)
    ensures
        final(store)@ == reconciled(old(store)@, snapshot@),
        changed@ == changed_slots(old(store)@, snapshot@),
{
    let order = indices(snapshot);
    let mut changed: HashMap<usize, SlotRecord> = HashMap::new();
    let mut at: usize = 0;
    while at < order.len()
        invariant
            at <= order@.len(),
            forall|k: usize| snapshot@.contains_key(k) <==> order@.contains(k),
            forall|i: int, j: int| 0 <= i < j < order@.len() ==> order@[i] < order@[j],
            store@ == reconciled(old(store)@, snapshot@.restrict(order@.take(at as int).to_set())),
            changed@ == changed_slots(
                old(store)@,
                snapshot@.restrict(order@.take(at as int).to_set()),
            ),
        decreases order@.len() - at,
    {
        let index = order[at];
        let ghost before = snapshot@.restrict(order@.take(at as int).to_set());
        let ghost after = snapshot@.restrict(order@.take(at + 1).to_set());
        proof {
            assert(order@.contains(index));
            let done = order@.take(at as int);
            let next = order@.take(at + 1);
            assert forall|k: usize| next.contains(k) <==> done.contains(k) || k == index by {
                if next.contains(k) {
                    let i = choose|i: int| 0 <= i < next.len() && next[i] == k;
                    if i < at {
                        assert(done[i] == k);
                    }
                }
                if done.contains(k) {
                    let i = choose|i: int| 0 <= i < done.len() && done[i] == k;
                    assert(next[i] == k);
                }
                assert(next[at as int] == index);
            }
            assert(next.to_set() =~= done.to_set().insert(index));
            if done.contains(index) {
                let i = choose|i: int| 0 <= i < done.len() && done[i] == index;
                assert(order@[i] < order@[at as int]);
            }
            assert(!before.contains_key(index));
            assert(after =~= before.insert(index, snapshot@[index]));
        }
        let seen = match snapshot.get(&index) {
            Some(seen) => *seen,
            None => {
                assert(false);
                SlotRecord::new(0)
            },
        };
        let held = store.get(index);
        proof {
            assert(held == old(store)@.get(index));
        }
        match held {
            Some(own) => {
                if own.programmed != seen.programmed {
                    changed.insert(index, own);
                }
            },
            None => {},
        }
        let merging = |held: Option<SlotRecord>| -> (r: SlotRecord)
            ensures
                r == merged_slot(held, seen),
            { merge(held, seen) };
        store.upsert(index, merging);
        proof {
            assert(store@ =~= reconciled(old(store)@, after));
            assert(changed@ =~= changed_slots(old(store)@, after));
        }
        at += 1;
    }
    proof {
        assert(order@.take(at as int) =~= order@);
        assert(snapshot@.restrict(order@.to_set()) =~= snapshot@);
    }
    changed
}

} // verus!
