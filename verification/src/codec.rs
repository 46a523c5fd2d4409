//! The line protocol spoken over the serial link.
//!
//! Requests and responses are single lines of ASCII text that end in CR LF:
//! `READ <offset> <count>` is answered by `DATA <hex>` or `ERROR ...`, and
//! `WRITE <offset> <count> <hex>` by `OK` or `ERROR ...`.

use crate::base16::{
    digit_value, digits, hex_bytes, hex_decode, hex_encode, hex_text, is_hex_text,
    lemma_hex_text_concat,
};
use crate::layout::{
    decode_snapshot, high_byte, is_device_snapshot, lemma_layout_of_snapshot, low_byte,
    snapshot_of, SLOT_BYTES, SNAPSHOT_BYTES,
};
use crate::slot::{ascending, indices, SlotRecord};
use crate::text::{
    chars_of, is_whitespace, lemma_scan, lemma_token_found, scan_blank, scan_word, token,
    token_end,
};
use std::collections::HashMap;
use vstd::prelude::*;
use vstd::slice::slice_subrange;
use vstd::string::*;
use vstd::utf8::encode_utf8;

verus! {

broadcast use {vstd::std_specs::hash::group_hash_axioms, vstd::string::group_string_axioms};

/// Where the slots begin in device memory.
pub const BASE_OFFSET: usize = 50;

/// The byte that opens every record of a write.
pub const WRITE_MARKER: u8 = 0xC5;

/// Why a response of the device was not accepted.
#[derive(Clone, Copy, Debug, PartialEq, Eq, Structural)]
pub enum ProtocolError {
    /// The device answered `ERROR`.
    Device,
    /// The response begins with a token that the protocol does not know.
    UnknownResponse,
    /// The response holds no token at all.
    InvalidResponse,
    /// Nothing follows `DATA`.
    MissingData,
    /// The data are not as long as a snapshot is.
    InvalidDataLength,
    /// The data are not hexadecimal text.
    InvalidData,
}

impl ProtocolError {
    /// The text that `message` gives.
    pub open spec fn message_text(self) -> Seq<char> {
        match self {
            ProtocolError::Device => "Device error"@,
            ProtocolError::UnknownResponse => "Unknown response"@,
            ProtocolError::InvalidResponse => "Invalid response"@,
            ProtocolError::MissingData => "Missing data"@,
            ProtocolError::InvalidDataLength => "Invalid data length"@,
            ProtocolError::InvalidData => "Invalid data"@,
        }
    }

    /// A short description for operators.
    pub fn message(&self) -> (text: &'static str)
        ensures
            text@ == self.message_text(),
    {
        match self {
            ProtocolError::Device => "Device error",
            ProtocolError::UnknownResponse => "Unknown response",
            ProtocolError::InvalidResponse => "Invalid response",
            ProtocolError::MissingData => "Missing data",
            ProtocolError::InvalidDataLength => "Invalid data length",
            ProtocolError::InvalidData => "Invalid data",
        }
    }

    /// Whether the device itself reported the failure, rather than answering out of protocol.
    pub fn is_device_error(&self) -> (r: bool)
        ensures
            r == (*self == ProtocolError::Device),
    {
        match self {
            ProtocolError::Device => true,
            _ => false,
        }
    }
}

/// The bytes that a response to a read carries for the slots, or why it carries none.
///
/// The first token decides: `DATA` announces the slots, `ERROR` a failure of the device,
/// and anything else is out of protocol. After `DATA` the next token must be the
/// hexadecimal text of a full snapshot.
pub open spec fn read_payload(line: Seq<char>) -> Result<Seq<u8>, ProtocolError> {
    match token(line, 0) {
        None => Err(ProtocolError::InvalidResponse),
        Some(head) => if head == "DATA"@ {
            match token(line, token_end(line, 0)) {
                None => Err(ProtocolError::MissingData),
                Some(text) => {
                    let raw = encode_utf8(text);
                    if raw.len() != 2 * SNAPSHOT_BYTES {
                        Err(ProtocolError::InvalidDataLength)
                    } else if !is_hex_text(raw) {
                        Err(ProtocolError::InvalidData)
                    } else {
                        Ok(hex_bytes(raw))
                    }
                },
            }
        } else if head == "ERROR"@ {
            Err(ProtocolError::Device)
        } else {
            Err(ProtocolError::UnknownResponse)
        },
    }
}

/// The snapshot that a response to a read gives when it arrives at `timestamp`.
pub open spec fn read_outcome(line: Seq<char>, timestamp: u64) -> Result<
    Map<usize, SlotRecord>,
    ProtocolError,
> {
    match read_payload(line) {
        Ok(bytes) => Ok(snapshot_of(bytes, timestamp)),
        Err(e) => Err(e),
    }
}

/// What a response to a write says.
pub open spec fn write_outcome(line: Seq<char>) -> Result<(), ProtocolError> {
    match token(line, 0) {
        None => Err(ProtocolError::InvalidResponse),
        Some(head) => if head == "OK"@ {
            Ok(())
        } else if head == "ERROR"@ {
            Err(ProtocolError::Device)
        } else {
            Err(ProtocolError::UnknownResponse)
        },
    }
}

/// Whether the characters from `from` up to `to` spell `word`.
fn spells(chars: &Vec<char>, from: usize, to: usize, word: &str) -> (r: bool)
    requires
        from <= to <= chars@.len(),
    ensures
        r == (chars@.subrange(from as int, to as int) == word@),
{
    let n = word.unicode_len();
    if to - from != n {
        return false;
    }
    let mut i: usize = 0;
    while i < n
        invariant
            from <= to <= chars@.len(),
            to - from == n == word@.len(),
            i <= n,
            forall|j: int| 0 <= j < i ==> chars@[from + j] == word@[j],
        decreases n - i,
    {
        if chars[from + i] != word.get_char(i) {
            assert(chars@.subrange(from as int, to as int)[i as int] != word@[i as int]);
            return false;
        }
        i += 1;
    }
    assert(chars@.subrange(from as int, to as int) =~= word@);
    true
}

/// Reads the response to a read request. `timestamp` is the Unix time at which the line
/// arrived; every slot of the snapshot carries it.
pub fn decode_read_response(line: &str, timestamp: u64) -> (r: Result<
    HashMap<usize, SlotRecord>,
    ProtocolError,
>)
    ensures
        match r {
            Ok(slots) => read_outcome(line@, timestamp) == Ok::<
                Map<usize, SlotRecord>,
                ProtocolError,
            >(slots@),
            Err(e) => read_outcome(line@, timestamp) == Err::<
                Map<usize, SlotRecord>,
                ProtocolError,
            >(e),
        },
{
    let chars = chars_of(line);
    let head_from = scan_blank(&chars, 0);
    proof {
        lemma_scan(chars@, 0);
    }
    if head_from >= chars.len() {
        return Err(ProtocolError::InvalidResponse);
    }
    let head_to = scan_word(&chars, head_from);
    proof {
        lemma_scan(chars@, head_from as int);
    }
    if !spells(&chars, head_from, head_to, "DATA") {
        if spells(&chars, head_from, head_to, "ERROR") {
            return Err(ProtocolError::Device);
        }
        return Err(ProtocolError::UnknownResponse);
    }
    let text_from = scan_blank(&chars, head_to);
    proof {
        lemma_scan(chars@, head_to as int);
    }
    if text_from >= chars.len() {
        return Err(ProtocolError::MissingData);
    }
    let text_to = scan_word(&chars, text_from);
    proof {
        lemma_scan(chars@, text_from as int);
    }
    let raw = line.substring_char(text_from, text_to).as_bytes();
    if raw.len() != 2 * SNAPSHOT_BYTES {
        return Err(ProtocolError::InvalidDataLength);
    }
    match hex_decode(raw) {
        Err(_) => Err(ProtocolError::InvalidData),
        Ok(bytes) => {
            match decode_snapshot(bytes.as_slice(), timestamp) {
                Some(slots) => Ok(slots),
                None => {
                    assert(false);
                    Err(ProtocolError::InvalidDataLength)
                },
            }
        },
    }
}

/// Reads the response to a write request.
pub fn decode_write_response(line: &str) -> (r: Result<(), ProtocolError>)
    ensures
        r == write_outcome(line@),
{
    let chars = chars_of(line);
    let head_from = scan_blank(&chars, 0);
    proof {
        lemma_scan(chars@, 0);
    }
    if head_from >= chars.len() {
        return Err(ProtocolError::InvalidResponse);
    }
    let head_to = scan_word(&chars, head_from);
    proof {
        lemma_scan(chars@, head_from as int);
    }
    if spells(&chars, head_from, head_to, "OK") {
        Ok(())
    } else if spells(&chars, head_from, head_to, "ERROR") {
        Err(ProtocolError::Device)
    } else {
        Err(ProtocolError::UnknownResponse)
    }
}

/// Every snapshot that a response gives is a device snapshot.
pub proof fn lemma_snapshot_read(line: Seq<char>, timestamp: u64)
    ensures
        read_outcome(line, timestamp) matches Ok(snapshot) ==> is_device_snapshot(snapshot),
{
    match read_payload(line) {
        Ok(bytes) => {
            assert(bytes.len() == SNAPSHOT_BYTES);
            lemma_layout_of_snapshot(bytes, timestamp);
        },
        Err(_) => {},
    }
}

/// Whether `c` is a hexadecimal digit, of either case.
pub open spec fn is_hex_digit(c: char) -> bool {
    ('0' <= c <= '9') || ('a' <= c <= 'f') || ('A' <= c <= 'F')
}

/// A response that announces hexadecimal text is accepted exactly if the text is as long
/// as that of a snapshot; text of any other length is turned down for its length. What
/// follows the text on the line is of no account.
pub proof fn lemma_data_line(text: Seq<char>, rest: Seq<char>)
    requires
        text.len() > 0,
        forall|i: int| 0 <= i < text.len() ==> is_hex_digit(#[trigger] text[i]),
        rest.len() == 0 || is_whitespace(rest[0]),
    ensures
        text.len() != 2 * SNAPSHOT_BYTES ==> read_payload("DATA "@ + text + rest) == Err::<
            Seq<u8>,
            ProtocolError,
        >(ProtocolError::InvalidDataLength),
        text.len() == 2 * SNAPSHOT_BYTES ==> read_payload("DATA "@ + text + rest) == Ok::<
            Seq<u8>,
            ProtocolError,
        >(hex_bytes(text.map_values(|c: char| c as u8))),
{
    reveal_strlit("DATA ");
    reveal_strlit("DATA");
    let line = "DATA "@ + text + rest;
    let end = 5 + text.len() as int;
    assert(line.subrange(0, 4) =~= "DATA"@);
    assert(line.subrange(5, end) =~= text);
    assert forall|i: int| 5 <= i < end implies !is_whitespace(#[trigger] line[i]) by {
        assert(line[i] == text[i - 5]);
    }
    if rest.len() > 0 {
        assert(line[end] == rest[0]);
    }
    lemma_token_found(line, 0, 0, 4);
    lemma_token_found(line, 4, 5, end);
    assert(vstd::utf8::is_ascii_chars(text)) by {
        assert forall|i: int| 0 <= i < text.len() implies '\0' <= #[trigger] text[i]
            <= '\u{7f}' by {
            assert(is_hex_digit(text[i]));
        }
    }
    vstd::utf8::is_ascii_chars_encode_utf8(text);
    let raw = encode_utf8(text);
    assert(raw =~= text.map_values(|c: char| c as u8));
    if text.len() == 2 * SNAPSHOT_BYTES {
        assert forall|i: int| 0 <= i < raw.len() implies (#[trigger] digit_value(
            raw[i],
        )) is Some by {
            assert(is_hex_digit(text[i]));
        }
    }
}

/// The decimal numeral for `n`.
pub open spec fn decimal(n: nat) -> Seq<char>
    decreases n,
{
    if n < 10 {
        seq![digits()[n as int]]
    } else {
        decimal(n / 10).push(digits()[(n % 10) as int])
    }
}

/// The request that asks the device for all its slots.
pub open spec fn read_request_text() -> Seq<char> {
    "READ "@ + decimal(BASE_OFFSET as nat) + " "@ + decimal(SNAPSHOT_BYTES as nat) + "\r\n"@
}

/// The record that tells the device to program the slot `index`: the marker, the index as
/// one byte (the low byte of an index that does not fit), and the programmed value, low
/// byte first.
pub open spec fn write_record(index: usize, record: SlotRecord) -> Seq<u8> {
    seq![
        WRITE_MARKER,
        (index % 256) as u8,
        low_byte(record.programmed),
        high_byte(record.programmed),
    ]
}

/// The records for the slots that `order` names, one after the other.
pub open spec fn write_records(slots: Map<usize, SlotRecord>, order: Seq<usize>) -> Seq<u8>
    decreases order.len(),
{
    if order.len() == 0 {
        Seq::empty()
    } else {
        write_records(slots, order.drop_last()) + write_record(order.last(), slots[order.last()])
    }
}

/// The bytes that a write of `changed` sends: one record for each slot, smallest index first.
pub open spec fn write_payload(changed: Map<usize, SlotRecord>) -> Seq<u8> {
    write_records(changed, ascending(changed.dom()))
}

/// The request that sends `payload` to the device.
pub open spec fn write_line(payload: Seq<u8>) -> Seq<char> {
    "WRITE "@ + decimal(BASE_OFFSET as nat) + " "@ + decimal(payload.len()) + " "@ + hex_text(
        payload,
    ) + "\r\n"@
}

/// The request that pushes `changed` to the device; none where nothing has changed.
pub open spec fn write_request_text(changed: Map<usize, SlotRecord>) -> Option<Seq<char>> {
    if changed.len() == 0 {
        None
    } else {
        Some(write_line(write_payload(changed)))
    }
}

/// Appends the decimal numeral for `n` to `out`.
fn push_decimal(out: &mut String, n: usize)
    ensures
        final(out)@ == old(out)@ + decimal(n as nat),
    decreases n,
{
    if n >= 10 {
        push_decimal(out, n / 10);
    }
    let d: usize = n % 10;
    proof {
        reveal_strlit("0123456789");
    }
    let numerals = "0123456789";
    assert(is_ascii(numerals));
    out.append(numerals.substring_ascii(d, d + 1));
    proof {
        assert(numerals@.subrange(d as int, d + 1) =~= seq![digits()[d as int]]);
        if n < 10 {
            assert(decimal(n as nat) =~= seq![digits()[d as int]]);
        } else {
            assert(decimal(n as nat) == decimal((n / 10) as nat).push(digits()[d as int]));
            assert(out@ =~= old(out)@ + decimal(n as nat));
        }
    }
}

/// Appends the hexadecimal text of `data` to `out`. The text is made a few bytes at a time,
/// so that its making never has to reserve more than a few bytes at once, however long
/// `data` is.
fn push_hex(out: &mut String, data: &[u8])
    ensures
        final(out)@ == old(out)@ + hex_text(data@),
{
    let mut at: usize = 0;
    proof {
        assert(hex_text(data@.take(0)) =~= Seq::<char>::empty());
        assert(out@ =~= old(out)@ + hex_text(data@.take(0)));
    }
    while at < data.len()
        invariant
            at <= data@.len(),
            out@ == old(out)@ + hex_text(data@.take(at as int)),
        decreases data@.len() - at,
    {
        let end: usize = if data.len() - at > SLOT_BYTES {
            at + SLOT_BYTES
        } else {
            data.len()
        };
        let text = hex_encode(slice_subrange(data, at, end));
        out.append(text.as_str());
        proof {
            lemma_hex_text_concat(data@.take(at as int), data@.subrange(at as int, end as int));
            assert(data@.take(end as int) =~= data@.take(at as int) + data@.subrange(
                at as int,
                end as int,
            ));
            assert(out@ =~= old(out)@ + hex_text(data@.take(end as int)));
        }
        at = end;
    }
    proof {
        assert(data@.take(at as int) =~= data@);
    }
}

/// The request that asks the device for all its slots.
pub fn read_request() -> (request: String)
    ensures
        request@ == read_request_text(),
{
    let mut request = String::from_str("READ ");
    push_decimal(&mut request, BASE_OFFSET);
    request.append(" ");
    push_decimal(&mut request, SNAPSHOT_BYTES);
    request.append("\r\n");
    request
}

/// The bytes that a write of `changed` sends.
pub fn encode_write_payload(changed: &HashMap<usize, SlotRecord>) -> (payload: Vec<u8>)
    ensures
        payload@ == write_payload(changed@),
        payload@.len() == 4 * changed@.len(),
{
    let order = indices(changed);
    let mut payload: Vec<u8> = Vec::new();
    let mut at: usize = 0;
    while at < order.len()
        invariant
            at <= order@.len(),
            forall|i: int| 0 <= i < order@.len() ==> changed@.contains_key(#[trigger] order@[i]),
            payload@ == write_records(changed@, order@.take(at as int)),
            payload@.len() == 4 * at,
        decreases order@.len() - at,
    {
        let index = order[at];
        let record = match changed.get(&index) {
            Some(record) => *record,
            None => {
                assert(false);
                SlotRecord::new(0)
            },
        };
        payload.push(WRITE_MARKER);
        payload.push((index % 256) as u8);
        payload.push((record.programmed % 256) as u8);
        payload.push((record.programmed / 256) as u8);
        proof {
            let next = order@.take(at + 1);
            assert(next.drop_last() =~= order@.take(at as int));
            assert(next.last() == index);
            assert(payload@ =~= write_records(changed@, order@.take(at as int)) + write_record(
                index,
                record,
            ));
        }
        at += 1;
    }
    proof {
        assert(order@.take(at as int) =~= order@);
    }
    payload
}

/// The request that pushes `changed` to the device. Where nothing has changed there is
/// nothing to send.
pub fn write_request(changed: &HashMap<usize, SlotRecord>) -> (request: Option<String>)
    ensures
        request is Some <==> changed@.len() > 0,
        match request {
            Some(line) => write_request_text(changed@) == Some(line@),
            None => write_request_text(changed@) is None,
        },
{
    if changed.is_empty() {
        return None;
    }
    let payload = encode_write_payload(changed);
    let mut line = String::from_str("WRITE ");
    push_decimal(&mut line, BASE_OFFSET);
    line.append(" ");
    push_decimal(&mut line, payload.len());
    line.append(" ");
    push_hex(&mut line, payload.as_slice());
    line.append("\r\n");
    Some(line)
}

} // verus!
