//! Byte layout of the slots in device memory.
//!
//! A slot takes four bytes, two little-endian 16-bit fields: the programmed value, then the
//! corrected value. Slot `i` lies at bytes `4i` to `4i + 3`.

use crate::slot::{SlotRecord, SLOT_COUNT};
use std::collections::HashMap;
use vstd::prelude::*;

verus! {

broadcast use vstd::std_specs::hash::group_hash_axioms;

/// Bytes that one slot takes.
pub const SLOT_BYTES: usize = 4;

/// Bytes that a full snapshot takes.
pub const SNAPSHOT_BYTES: usize = SLOT_COUNT * SLOT_BYTES;

/// The 16-bit value whose low byte is `low` and whose high byte is `high`.
pub open spec fn word(low: u8, high: u8) -> u16 {
    (low + 256 * high) as u16
}

/// The low byte of `value`.
pub open spec fn low_byte(value: u16) -> u8 {
    (value % 256) as u8
}

/// The high byte of `value`.
pub open spec fn high_byte(value: u16) -> u8 {
    (value / 256) as u8
}

/// The record that `bytes` hold for slot `index`, read at `timestamp`.
pub open spec fn slot_at(bytes: Seq<u8>, index: int, timestamp: u64) -> SlotRecord {
    SlotRecord {
        programmed: word(bytes[4 * index], bytes[4 * index + 1]),
        corrected: Some(word(bytes[4 * index + 2], bytes[4 * index + 3])),
        timestamp: Some(timestamp),
    }
}

/// The snapshot that `bytes` hold: every slot of the device, all stamped with `timestamp`.
pub open spec fn snapshot_of(bytes: Seq<u8>, timestamp: u64) -> Map<usize, SlotRecord> {
    Map::new(
        |index: usize| index < SLOT_COUNT,
        |index: usize| slot_at(bytes, index as int, timestamp),
    )
}

/// Whether `slots` is what one read of the device gives: every slot of the device and no
/// other, each with a corrected value.
pub open spec fn is_device_snapshot(slots: Map<usize, SlotRecord>) -> bool {
    &&& forall|index: usize| slots.contains_key(index) <==> index < SLOT_COUNT
    &&& forall|index: usize| index < SLOT_COUNT ==> (#[trigger] slots[index]).corrected is Some
}

/// The bytes that hold `slots`.
pub open spec fn layout_of(slots: Map<usize, SlotRecord>) -> Seq<u8> {
    Seq::new(
        SNAPSHOT_BYTES as nat,
        |at: int|
            {
                let record = slots[(at / 4) as usize];
                if at % 4 == 0 {
                    low_byte(record.programmed)
                } else if at % 4 == 1 {
                    high_byte(record.programmed)
                } else if at % 4 == 2 {
                    low_byte(record.corrected->0)
                } else {
                    high_byte(record.corrected->0)
                }
            },
    )
}

/// Splitting a value into its two bytes and joining them again changes nothing.
pub proof fn lemma_word_bytes(value: u16, low: u8, high: u8)
    ensures
        word(low_byte(value), high_byte(value)) == value,
        low_byte(word(low, high)) == low,
        high_byte(word(low, high)) == high,
{
}

/// Laying a device snapshot out and reading the bytes back gives, for every slot, the
/// programmed and corrected values that went in.
pub proof fn lemma_layout_round_trip(slots: Map<usize, SlotRecord>, timestamp: u64)
    requires
        is_device_snapshot(slots),
    ensures
        layout_of(slots).len() == SNAPSHOT_BYTES,
        snapshot_of(layout_of(slots), timestamp).dom() == slots.dom(),
        forall|index: usize| #[trigger]
            slots.contains_key(index) ==> {
                let back = snapshot_of(layout_of(slots), timestamp)[index];
                &&& back.programmed == slots[index].programmed
                &&& back.corrected == slots[index].corrected
                &&& back.timestamp == Some(timestamp)
            },
{
    let bytes = layout_of(slots);
    assert(snapshot_of(bytes, timestamp).dom() =~= slots.dom());
    assert forall|index: usize| #[trigger] slots.contains_key(index) implies {
        let back = snapshot_of(bytes, timestamp)[index];
        &&& back.programmed == slots[index].programmed
        &&& back.corrected == slots[index].corrected
        &&& back.timestamp == Some(timestamp)
    } by {
        let record = slots[index];
        assert(index < SLOT_COUNT);
        assert(record.corrected is Some);
        let i = index as int;
        assert(((4 * i) / 4) as usize == index && (4 * i) % 4 == 0);
        assert(((4 * i + 1) / 4) as usize == index && (4 * i + 1) % 4 == 1);
        assert(((4 * i + 2) / 4) as usize == index && (4 * i + 2) % 4 == 2);
        assert(((4 * i + 3) / 4) as usize == index && (4 * i + 3) % 4 == 3);
        assert(bytes[4 * i] == low_byte(record.programmed));
        assert(bytes[4 * i + 1] == high_byte(record.programmed));
        assert(bytes[4 * i + 2] == low_byte(record.corrected->0));
        assert(bytes[4 * i + 3] == high_byte(record.corrected->0));
        lemma_word_bytes(record.programmed, 0, 0);
        lemma_word_bytes(record.corrected->0, 0, 0);
    }
}

/// Reading a full set of bytes and laying the snapshot out again gives the bytes back.
pub proof fn lemma_layout_of_snapshot(bytes: Seq<u8>, timestamp: u64)
    requires
        bytes.len() == SNAPSHOT_BYTES,
    ensures
        is_device_snapshot(snapshot_of(bytes, timestamp)),
        layout_of(snapshot_of(bytes, timestamp)) == bytes,
{
    let slots = snapshot_of(bytes, timestamp);
    assert forall|at: int| 0 <= at < SNAPSHOT_BYTES implies layout_of(slots)[at] == bytes[at] by {
        let index = (at / 4) as usize;
        assert(index < SLOT_COUNT);
        assert(slots[index] == slot_at(bytes, index as int, timestamp));
        assert(4 * (index as int) + at % 4 == at);
        lemma_word_bytes(0, bytes[4 * index], bytes[4 * index + 1]);
        lemma_word_bytes(0, bytes[4 * index + 2], bytes[4 * index + 3]);
    }
    assert(layout_of(slots) =~= bytes);
}

/// Joins two bytes into a 16-bit value, low byte first.
fn join(low: u8, high: u8) -> (value: u16)
    ensures
        value == word(low, high),
{
    let low: u16 = low as u16;
    let high: u16 = high as u16;
    high * 256 + low
}

/// Reads a snapshot out of the bytes of device memory and stamps every slot with
/// `timestamp`. Only a full set of bytes, four for each slot of the device, is a snapshot.
pub fn decode_snapshot(bytes: &[u8], timestamp: u64) -> (r: Option<HashMap<usize, SlotRecord>>)
    ensures
        r is Some <==> bytes@.len() == SNAPSHOT_BYTES,
        r matches Some(slots) ==> slots@ == snapshot_of(bytes@, timestamp),
{
    if bytes.len() != SNAPSHOT_BYTES {
        return None;
    }
    let mut slots: HashMap<usize, SlotRecord> = HashMap::new();
    let mut index: usize = 0;
    while index < SLOT_COUNT
        invariant
            bytes@.len() == SNAPSHOT_BYTES,
            index <= SLOT_COUNT,
            slots@ =~= Map::new(
                |k: usize| k < index,
                |k: usize| slot_at(bytes@, k as int, timestamp),
            ),
        decreases SLOT_COUNT - index,
    {
        let base: usize = index * SLOT_BYTES;
        let record = SlotRecord {
            programmed: join(bytes[base], bytes[base + 1]),
            corrected: Some(join(bytes[base + 2], bytes[base + 3])),
            timestamp: Some(timestamp),
        };
        slots.insert(index, record);
        index += 1;
    }
    Some(slots)
}

/// Lays a device snapshot out as bytes of device memory. Anything else than a device
/// snapshot has no layout.
pub fn encode_snapshot(slots: &HashMap<usize, SlotRecord>) -> (r: Option<Vec<u8>>)
    ensures
        r is Some <==> is_device_snapshot(slots@),
        r matches Some(bytes) ==> bytes@ == layout_of(slots@),
{
    if slots.len() != SLOT_COUNT {
        proof {
            if is_device_snapshot(slots@) {
                lemma_device_snapshot_len(slots@);
            }
        }
        return None;
    }
    let mut bytes: Vec<u8> = Vec::new();
    let mut index: usize = 0;
    while index < SLOT_COUNT
        invariant
            index <= SLOT_COUNT,
            slots@.len() == SLOT_COUNT,
            bytes@.len() == 4 * index,
            forall|k: usize| k < index ==> #[trigger] slots@.contains_key(k),
            forall|k: usize| k < index ==> (#[trigger] slots@[k]).corrected is Some,
            forall|at: int| 0 <= at < bytes@.len() ==> bytes@[at] == layout_of(slots@)[at],
        decreases SLOT_COUNT - index,
    {
        let record = match slots.get(&index) {
            Some(record) => *record,
            None => {
                return None;
            },
        };
        let corrected = match record.corrected {
            Some(corrected) => corrected,
            None => {
                return None;
            },
        };
        bytes.push((record.programmed % 256) as u8);
        bytes.push((record.programmed / 256) as u8);
        bytes.push((corrected % 256) as u8);
        bytes.push((corrected / 256) as u8);
        index += 1;
    }
    proof {
        lemma_full_cover(slots@);
        assert(bytes@ =~= layout_of(slots@));
    }
    Some(bytes)
}

/// A device snapshot holds as many slots as the device has.
pub proof fn lemma_device_snapshot_len(slots: Map<usize, SlotRecord>)
    requires
        is_device_snapshot(slots),
    ensures
        slots.dom().finite(),
        slots.len() == SLOT_COUNT,
{
    let full = Set::new(|k: usize| k < SLOT_COUNT);
    assert(slots.dom() =~= full);
    lemma_below_len(SLOT_COUNT);
}

/// There are `n` indices below `n`.
proof fn lemma_below_len(n: usize)
    ensures
        Set::new(|k: usize| k < n).finite(),
        Set::new(|k: usize| k < n).len() == n,
    decreases n,
{
    let set = Set::new(|k: usize| k < n);
    if n == 0 {
        assert(set =~= Set::empty());
    } else {
        let less = (n - 1) as usize;
        lemma_below_len(less);
        assert(set =~= Set::new(|k: usize| k < less).insert(less));
    }
}

/// A map of as many slots as the device has, which holds every slot of the device, holds
/// no other.
proof fn lemma_full_cover(slots: Map<usize, SlotRecord>)
    requires
        slots.dom().finite(),
        slots.len() == SLOT_COUNT,
        forall|k: usize| k < SLOT_COUNT ==> slots.contains_key(k),
    ensures
        forall|k: usize| slots.contains_key(k) <==> k < SLOT_COUNT,
{
    let full = Set::new(|k: usize| k < SLOT_COUNT);
    lemma_below_len(SLOT_COUNT);
    assert(full.subset_of(slots.dom()));
    vstd::set_lib::lemma_subset_equality(full, slots.dom());
    assert forall|k: usize| slots.contains_key(k) implies k < SLOT_COUNT by {
        assert(full.contains(k));
    }
}

} // verus!
