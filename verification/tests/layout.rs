use slot_sync::layout::{decode_snapshot, encode_snapshot, SLOT_BYTES, SNAPSHOT_BYTES};
use slot_sync::slot::{SlotRecord, SLOT_COUNT};
use std::collections::HashMap;

fn sample() -> HashMap<usize, SlotRecord> {
    let mut slots = HashMap::new();
    for index in 0..8usize {
        slots.insert(
            index,
            SlotRecord {
                programmed: (index as u16) * 0x1111 + 3,
                corrected: Some(0xFFFF - (index as u16) * 0x0F0F),
                timestamp: Some(1_700_000_000),
            },
        );
    }
    slots
}

#[test]
fn sizes_fit_together() {
    assert_eq!(SLOT_COUNT, 8);
    assert_eq!(SLOT_BYTES, 4);
    assert_eq!(SNAPSHOT_BYTES, SLOT_COUNT * SLOT_BYTES);
}

#[test]
fn snapshot_round_trip() {
    let slots = sample();
    let bytes = encode_snapshot(&slots).unwrap();
    assert_eq!(bytes.len(), 32);
    let back = decode_snapshot(&bytes, 5).unwrap();
    assert_eq!(back.len(), 8);
    for index in 0..8usize {
        assert_eq!(back[&index].programmed, slots[&index].programmed);
        assert_eq!(back[&index].corrected, slots[&index].corrected);
        assert_eq!(back[&index].timestamp, Some(5));
    }
}

#[test]
fn bytes_round_trip() {
    let bytes: Vec<u8> = (0u8..32).map(|i| 255 - 7 * i).collect();
    let slots = decode_snapshot(&bytes, 0).unwrap();
    assert_eq!(encode_snapshot(&slots), Some(bytes));
}

#[test]
fn layout_of_one_slot() {
    let mut slots = sample();
    slots.insert(
        3,
        SlotRecord { programmed: 0x1234, corrected: Some(0xABCD), timestamp: None },
    );
    let bytes = encode_snapshot(&slots).unwrap();
    assert_eq!(&bytes[12..16], &[0x34, 0x12, 0xCD, 0xAB]);
}

#[test]
fn decode_reads_each_slot_at_its_offset() {
    let mut bytes = vec![0u8; 32];
    bytes[28] = 0x01;
    bytes[29] = 0x02;
    bytes[30] = 0x03;
    bytes[31] = 0x04;
    let slots = decode_snapshot(&bytes, 42).unwrap();
    assert_eq!(
        slots[&7],
        SlotRecord { programmed: 0x0201, corrected: Some(0x0403), timestamp: Some(42) }
    );
    assert_eq!(
        slots[&6],
        SlotRecord { programmed: 0, corrected: Some(0), timestamp: Some(42) }
    );
}

#[test]
fn decode_wants_exactly_a_snapshot() {
    assert_eq!(decode_snapshot(&[], 0), None);
    assert_eq!(decode_snapshot(&[0u8; 31], 0), None);
    assert_eq!(decode_snapshot(&[0u8; 33], 0), None);
    assert!(decode_snapshot(&[0u8; 32], 0).is_some());
}

#[test]
fn encode_wants_exactly_a_device_snapshot() {
    let mut missing = sample();
    missing.remove(&4);
    assert_eq!(encode_snapshot(&missing), None);

    let mut extra = sample();
    extra.insert(8, SlotRecord { programmed: 0, corrected: Some(0), timestamp: None });
    assert_eq!(encode_snapshot(&extra), None);

    let mut shifted = sample();
    shifted.remove(&0);
    shifted.insert(9, SlotRecord { programmed: 0, corrected: Some(0), timestamp: None });
    assert_eq!(encode_snapshot(&shifted), None);

    let mut unread = sample();
    unread.insert(2, SlotRecord { programmed: 1, corrected: None, timestamp: None });
    assert_eq!(encode_snapshot(&unread), None);

    assert_eq!(encode_snapshot(&HashMap::new()), None);
}
