//! Hexadecimal text, as the `hex` crate writes and reads it.

use vstd::prelude::*;

verus! {

/// `hex::FromHexError`, the error of `hex::decode`. Nothing is said of what it holds.
#[verifier::external_type_specification]
#[verifier::external_body]
pub struct ExFromHexError(hex::FromHexError);

/// The sixteen digits used when writing, in order of their value.
pub open spec fn digits() -> Seq<char> {
    seq!['0', '1', '2', '3', '4', '5', '6', '7', '8', '9', 'a', 'b', 'c', 'd', 'e', 'f']
}

/// The text for `data`: two digits per byte, the high half first.
pub open spec fn hex_text(data: Seq<u8>) -> Seq<char> {
    Seq::new(
        2 * data.len(),
        |i: int|
            if i % 2 == 0 {
                digits()[data[i / 2] as int / 16]
            } else {
                digits()[data[i / 2] as int % 16]
            },
    )
}

/// The value of one digit, in either case; `None` for any other byte.
pub open spec fn digit_value(c: u8) -> Option<int> {
    if 0x30 <= c <= 0x39 {
        // '0' to '9'
        Some(c - 0x30)
    } else if 0x61 <= c <= 0x66 {
        // 'a' to 'f'
        Some(c - 0x61 + 10)
    } else if 0x41 <= c <= 0x46 {
        // 'A' to 'F'
        Some(c - 0x41 + 10)
    } else {
        None
    }
}

/// Whether `text` is an even number of digits and nothing else.
pub open spec fn is_hex_text(text: Seq<u8>) -> bool {
    &&& text.len() % 2 == 0
    &&& forall|i: int| 0 <= i < text.len() ==> (#[trigger] digit_value(text[i])) is Some
}

/// The bytes that `text` stands for: each pair of digits gives one byte, the high half first.
pub open spec fn hex_bytes(text: Seq<u8>) -> Seq<u8> {
    Seq::new(
        text.len() / 2,
        |i: int| (16 * digit_value(text[2 * i])->0 + digit_value(text[2 * i + 1])->0) as u8,
    )
}

/// Calls `hex::encode`. Not proved, but taken from that crate: the result is the lower-case
/// text of `data`, two digits per byte, the high half first. The call reserves twice the
/// length of `data` at once, so that must be a size that can be asked for.
#[verifier::external_body]
pub(crate) fn hex_encode(data: &[u8]) -> (text: String)
    requires
        2 * data@.len() <= isize::MAX,
    ensures
        text@ == hex_text(data@),
{
    hex::encode(data)
}

/// Calls `hex::decode`. Not proved, but taken from that crate: the call succeeds exactly on
/// an even number of hexadecimal digits of either case, and then returns, for each pair of
/// digits, the byte that it stands for.
#[verifier::external_body]
pub(crate) fn hex_decode(text: &[u8]) -> (r: Result<Vec<u8>, hex::FromHexError>)
    ensures
        r is Ok <==> is_hex_text(text@),
        r matches Ok(bytes) ==> bytes@ == hex_bytes(text@),
{
    hex::decode(text)
}

/// The text of bytes that follow one another is the text of the first followed by the text
/// of the second.
pub proof fn lemma_hex_text_concat(first: Seq<u8>, second: Seq<u8>)
    ensures
        hex_text(first + second) == hex_text(first) + hex_text(second),
{
    let whole = hex_text(first + second);
    let parts = hex_text(first) + hex_text(second);
    assert(whole.len() == parts.len());
    assert forall|i: int| 0 <= i < whole.len() implies whole[i] == parts[i] by {
        if i >= 2 * first.len() {
            let j = i - 2 * first.len();
            assert(j / 2 == i / 2 - first.len());
            assert(j % 2 == i % 2);
            assert((first + second)[i / 2] == second[j / 2]);
            assert(parts[i] == hex_text(second)[j]);
        } else {
            assert((first + second)[i / 2] == first[i / 2]);
            assert(parts[i] == hex_text(first)[i]);
        }
    }
    assert(whole =~= parts);
}

/// Writing then reading gives the bytes back.
pub proof fn lemma_hex_round_trip(data: Seq<u8>)
    ensures
        is_hex_text(hex_text(data).map_values(|c: char| c as u8)),
        hex_bytes(hex_text(data).map_values(|c: char| c as u8)) == data,
{
    let text = hex_text(data).map_values(|c: char| c as u8);
    assert forall|i: int| 0 <= i < text.len() implies (#[trigger] digit_value(text[i])) is Some by {
        let n = if i % 2 == 0 {
            data[i / 2] as int / 16
        } else {
            data[i / 2] as int % 16
        };
        assert(0 <= n < 16);
        assert(text[i] == digits()[n] as u8);
    }
    assert forall|i: int| 0 <= i < data.len() implies hex_bytes(text)[i] == data[i] by {
        let hi = data[i] as int / 16;
        let lo = data[i] as int % 16;
        assert(text[2 * i] == digits()[hi] as u8);
        assert(text[2 * i + 1] == digits()[lo] as u8);
        assert(digit_value(text[2 * i]) == Some(hi));
        assert(digit_value(text[2 * i + 1]) == Some(lo));
    }
    assert(hex_bytes(text) =~= data);
}

} // verus!
