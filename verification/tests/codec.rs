use slot_sync::codec::{
    decode_read_response, decode_write_response, encode_write_payload, read_request,
    write_request, ProtocolError,
};
use slot_sync::slot::SlotRecord;
use std::collections::HashMap;

const ZEROS: &str = "0000000000000000000000000000000000000000000000000000000000000000";

fn record(programmed: u16) -> SlotRecord {
    SlotRecord { programmed, corrected: None, timestamp: None }
}

#[test]
fn read_request_is_the_fixed_line() {
    assert_eq!(read_request(), "READ 50 32\r\n");
}

#[test]
fn data_line_gives_eight_slots() {
    let line = format!("DATA {}\r\n", ZEROS);
    let slots = decode_read_response(&line, 1234).unwrap();
    assert_eq!(slots.len(), 8);
    for index in 0..8usize {
        assert_eq!(
            slots[&index],
            SlotRecord { programmed: 0, corrected: Some(0), timestamp: Some(1234) }
        );
    }
}

#[test]
fn data_line_is_little_endian() {
    let mut text = String::from("34127856");
    text.push_str("0100ff00");
    text.push_str(&ZEROS[16..]);
    let line = format!("DATA {}\r\n", text);
    let slots = decode_read_response(&line, 7).unwrap();
    assert_eq!(
        slots[&0],
        SlotRecord { programmed: 0x1234, corrected: Some(0x5678), timestamp: Some(7) }
    );
    assert_eq!(
        slots[&1],
        SlotRecord { programmed: 1, corrected: Some(255), timestamp: Some(7) }
    );
    assert_eq!(slots[&7], SlotRecord { programmed: 0, corrected: Some(0), timestamp: Some(7) });
}

#[test]
fn data_line_decodes_what_hex_encodes() {
    let bytes: Vec<u8> = (0u8..32).map(|i| i.wrapping_mul(37).wrapping_add(11)).collect();
    let line = format!("DATA {}\r\n", hex::encode(&bytes));
    let slots = decode_read_response(&line, 99).unwrap();
    for index in 0..8usize {
        let base = 4 * index;
        let programmed = u16::from_le_bytes([bytes[base], bytes[base + 1]]);
        let corrected = u16::from_le_bytes([bytes[base + 2], bytes[base + 3]]);
        assert_eq!(
            slots[&index],
            SlotRecord { programmed, corrected: Some(corrected), timestamp: Some(99) }
        );
    }
}

#[test]
fn data_line_accepts_upper_case_digits() {
    let mut text = String::from("ABCDEF01");
    text.push_str(&ZEROS[8..]);
    let slots = decode_read_response(&format!("DATA {}", text), 0).unwrap();
    assert_eq!(slots[&0].programmed, 0xCDAB);
    assert_eq!(slots[&0].corrected, Some(0x01EF));
}

#[test]
fn data_line_ignores_surrounding_whitespace_and_further_tokens() {
    let line = format!(" \t DATA \u{a0}\u{3000} {}   trailing words\r\n", ZEROS);
    assert_eq!(decode_read_response(&line, 1).unwrap().len(), 8);
}

#[test]
fn data_line_with_63_digits_is_a_length_error() {
    let line = format!("DATA {}\r\n", &ZEROS[..63]);
    assert_eq!(decode_read_response(&line, 0), Err(ProtocolError::InvalidDataLength));
}

#[test]
fn data_line_with_65_digits_is_a_length_error() {
    let line = format!("DATA {}0\r\n", ZEROS);
    assert_eq!(decode_read_response(&line, 0), Err(ProtocolError::InvalidDataLength));
}

#[test]
fn data_line_with_a_stray_character_is_invalid_data() {
    let line = format!("DATA {}g\r\n", &ZEROS[..63]);
    assert_eq!(decode_read_response(&line, 0), Err(ProtocolError::InvalidData));
}

#[test]
fn data_length_is_counted_in_bytes() {
    // 62 digits and one character of two bytes: 64 bytes, but no hexadecimal text.
    let line = format!("DATA {}\u{e9}\r\n", &ZEROS[..62]);
    assert_eq!(decode_read_response(&line, 0), Err(ProtocolError::InvalidData));
    // 64 characters, 65 bytes.
    let line = format!("DATA {}\u{e9}\r\n", &ZEROS[..63]);
    assert_eq!(decode_read_response(&line, 0), Err(ProtocolError::InvalidDataLength));
}

#[test]
fn data_line_without_data_is_missing_data() {
    assert_eq!(decode_read_response("DATA\r\n", 0), Err(ProtocolError::MissingData));
    assert_eq!(decode_read_response("DATA   ", 0), Err(ProtocolError::MissingData));
}

#[test]
fn error_line_is_a_device_error() {
    assert_eq!(decode_read_response("ERROR 12\r\n", 0), Err(ProtocolError::Device));
    assert_eq!(decode_write_response("ERROR\r\n"), Err(ProtocolError::Device));
}

#[test]
fn other_first_token_is_unknown() {
    assert_eq!(decode_read_response("OK\r\n", 0), Err(ProtocolError::UnknownResponse));
    assert_eq!(decode_read_response("data 00\r\n", 0), Err(ProtocolError::UnknownResponse));
    assert_eq!(
        decode_read_response(&format!("DATA{}\r\n", ZEROS), 0),
        Err(ProtocolError::UnknownResponse)
    );
    assert_eq!(decode_write_response("DATA\r\n"), Err(ProtocolError::UnknownResponse));
    assert_eq!(decode_write_response("ok\r\n"), Err(ProtocolError::UnknownResponse));
    assert_eq!(decode_write_response("OKAY\r\n"), Err(ProtocolError::UnknownResponse));
}

#[test]
fn empty_line_is_invalid() {
    assert_eq!(decode_read_response("", 0), Err(ProtocolError::InvalidResponse));
    assert_eq!(decode_read_response(" \r\n", 0), Err(ProtocolError::InvalidResponse));
    assert_eq!(decode_write_response(""), Err(ProtocolError::InvalidResponse));
    assert_eq!(decode_write_response("\r\n"), Err(ProtocolError::InvalidResponse));
}

#[test]
fn ok_line_is_accepted() {
    assert_eq!(decode_write_response("OK\r\n"), Ok(()));
    assert_eq!(decode_write_response("  OK and more\r\n"), Ok(()));
    assert_eq!(decode_write_response("OK"), Ok(()));
}

#[test]
fn messages_name_the_failure() {
    assert_eq!(ProtocolError::Device.message(), "Device error");
    assert_eq!(ProtocolError::UnknownResponse.message(), "Unknown response");
    assert_eq!(ProtocolError::InvalidResponse.message(), "Invalid response");
    assert_eq!(ProtocolError::MissingData.message(), "Missing data");
    assert_eq!(ProtocolError::InvalidDataLength.message(), "Invalid data length");
    assert_eq!(ProtocolError::InvalidData.message(), "Invalid data");
    assert!(ProtocolError::Device.is_device_error());
    assert!(!ProtocolError::InvalidData.is_device_error());
}

#[test]
fn nothing_changed_means_no_request() {
    let changed: HashMap<usize, SlotRecord> = HashMap::new();
    assert_eq!(write_request(&changed), None);
    assert_eq!(encode_write_payload(&changed), Vec::<u8>::new());
}

#[test]
fn write_record_is_marker_index_and_value() {
    let mut changed = HashMap::new();
    changed.insert(2usize, record(7));
    assert_eq!(encode_write_payload(&changed), vec![0xC5, 2, 7, 0]);
    assert_eq!(write_request(&changed), Some(String::from("WRITE 50 4 c5020700\r\n")));
}

#[test]
fn write_value_goes_low_byte_first() {
    let mut changed = HashMap::new();
    changed.insert(0usize, record(0xABCD));
    assert_eq!(encode_write_payload(&changed), vec![0xC5, 0, 0xCD, 0xAB]);
    assert_eq!(write_request(&changed), Some(String::from("WRITE 50 4 c500cdab\r\n")));
}

#[test]
fn write_records_come_in_ascending_order() {
    let mut changed = HashMap::new();
    changed.insert(7usize, record(0x0102));
    changed.insert(0usize, record(0xFFFF));
    changed.insert(3usize, record(0));
    assert_eq!(
        encode_write_payload(&changed),
        vec![0xC5, 0, 0xFF, 0xFF, 0xC5, 3, 0, 0, 0xC5, 7, 2, 1]
    );
    assert_eq!(
        write_request(&changed),
        Some(String::from("WRITE 50 12 c500ffffc5030000c5070201\r\n"))
    );
}

#[test]
fn write_request_counts_bytes_in_decimal() {
    let mut changed = HashMap::new();
    for index in 0..30usize {
        changed.insert(index, record(index as u16));
    }
    let request = write_request(&changed).unwrap();
    assert!(request.starts_with("WRITE 50 120 c5000000c5010100"));
    assert!(request.ends_with("c51d1d00\r\n"));
    assert_eq!(request.len(), "WRITE 50 120 ".len() + 240 + 2);
}

#[test]
fn write_request_agrees_with_hex() {
    let mut changed = HashMap::new();
    changed.insert(5usize, record(0x9A3C));
    changed.insert(1usize, record(0x0BF0));
    let payload = encode_write_payload(&changed);
    let expected = format!("WRITE 50 {} {}\r\n", payload.len(), hex::encode(&payload));
    assert_eq!(write_request(&changed), Some(expected));
}

#[test]
fn write_index_is_one_byte() {
    let mut changed = HashMap::new();
    changed.insert(258usize, record(1));
    assert_eq!(encode_write_payload(&changed), vec![0xC5, 2, 1, 0]);
}
