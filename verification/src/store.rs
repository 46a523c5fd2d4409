//! The server-side copy of the slots.

use crate::slot::{ascending, indices, SlotRecord};
use std::collections::HashMap;
use vstd::prelude::*;

verus! {

broadcast use vstd::std_specs::hash::group_hash_axioms;

/// The corrected value that a slot shows after a client programmed it with anything but
/// zero, until the device reports the real one.
pub const UNCORRECTED: u16 = 0xFFFF;

/// The record of a slot after a client asked for the value `programmed`.
///
/// A request for the value that the slot already has changes nothing. Any other value
/// is taken over, and the corrected value is set provisionally: zero for zero, and
/// [`UNCORRECTED`] for anything else.
pub open spec fn client_written(held: SlotRecord, programmed: u16) -> SlotRecord {
    if held.programmed == programmed {
        held
    } else {
        SlotRecord {
            programmed,
            corrected: Some(if programmed == 0 { 0u16 } else { UNCORRECTED }),
            timestamp: held.timestamp,
        }
    }
}

/// The store after a client asked for the value `programmed` in the slot `index`.
pub open spec fn client_write(
    store: Map<usize, SlotRecord>,
    index: usize,
    programmed: u16,
) -> Map<usize, SlotRecord> {
    if store.contains_key(index) {
        store.insert(index, client_written(store[index], programmed))
    } else {
        store
    }
}

/// A client's write touches one slot only, never adds one, and leaves the time of the
/// last read alone; the corrected value changes only together with the programmed one.
pub proof fn lemma_client_write(store: Map<usize, SlotRecord>, index: usize, programmed: u16)
    ensures
        client_write(store, index, programmed).dom() == store.dom(),
        forall|other: usize| #[trigger]
            store.contains_key(other) && other != index ==> client_write(
                store,
                index,
                programmed,
            )[other] == store[other],
        store.contains_key(index) ==> {
            let now = client_write(store, index, programmed)[index];
            &&& now.programmed == programmed
            &&& now.timestamp == store[index].timestamp
            &&& store[index].programmed == programmed ==> now == store[index]
        },
{
    assert(client_write(store, index, programmed).dom() =~= store.dom());
}

/// The slots as the server knows them, keyed by slot index.
pub struct SharedStore {
    slots: HashMap<usize, SlotRecord>,
}

impl View for SharedStore {
    type V = Map<usize, SlotRecord>;

    closed spec fn view(&self) -> Map<usize, SlotRecord> {
        self.slots@
    }
}

impl SharedStore {
    /// A store that knows no slot yet.
    pub fn new() -> (store: SharedStore)
        ensures
            store@ == Map::<usize, SlotRecord>::empty(),
    {
        SharedStore { slots: HashMap::new() }
    }

    /// A store never holds more than finitely many slots.
    pub proof fn lemma_finite(&self)
        ensures
            self@.dom().finite(),
    {
    }

    /// How many slots the store knows.
    pub fn len(&self) -> (n: usize)
        ensures
            n == self@.len(),
    {
        self.slots.len()
    }

    /// The indices of the slots that the store knows, smallest first.
    pub fn snapshot_indices(&self) -> (list: Vec<usize>)
        ensures
            list@ == ascending(self@.dom()),
            list@.len() == self@.len(),
    {
        indices(&self.slots)
    }

    /// The record of the slot `index`, if the store knows that slot.
    pub fn get(&self, index: usize) -> (r: Option<SlotRecord>)
        ensures
            r == self@.get(index),
    {
        match self.slots.get(&index) {
            Some(record) => Some(*record),
            None => None,
        }
    }

    /// Gives the slot `index` the record that `f` makes of what the store holds for it,
    /// whether the store knew the slot or not, and returns that record.
    pub fn upsert<F: FnOnce(Option<SlotRecord>) -> SlotRecord>(&mut self, index: usize, f: F) -> (r:
        SlotRecord)
        requires
            f.requires((old(self)@.get(index),)),
        ensures
            f.ensures((old(self)@.get(index),), r),
            final(self)@ == old(self)@.insert(index, r),
    {
        let held = self.get(index);
        let record = f(held);
        self.slots.insert(index, record);
        record
    }

    /// Takes a new programmed value from a client. A slot that the store does not know
    /// cannot be programmed: the store stays as it is and nothing is returned. Otherwise the
    /// record that the store now holds is returned.
    pub fn set_programmed(&mut self, index: usize, programmed: u16) -> (r: Option<SlotRecord>)
        ensures
            final(self)@ == client_write(old(self)@, index, programmed),
            r == final(self)@.get(index),
            r is Some <==> old(self)@.contains_key(index),
    {
        match self.get(index) {
            None => None,
            Some(held) => {
                if held.programmed == programmed {
                    assert(self@ =~= client_write(self@, index, programmed));
                    Some(held)
                } else {
                    let record = SlotRecord {
                        programmed,
                        corrected: Some(if programmed == 0 { 0 } else { UNCORRECTED }),
                        timestamp: held.timestamp,
                    };
                    self.slots.insert(index, record);
                    Some(record)
                }
            },
        }
    }
}

} // verus!
