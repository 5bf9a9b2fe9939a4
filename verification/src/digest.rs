//! SHA-1 digests, computed by the `sha1` crate.

use sha1::{Digest, Sha1};
use vstd::prelude::*;

verus! {

/// The SHA-1 digest of a byte string.
pub uninterp spec fn sha1_digest(data: Seq<u8>) -> Seq<u8>;

/// `Sha1::digest` of the `sha1` crate, copied into a vector. Believed, not
/// proved: the result is the digest of exactly these bytes, and it has the 20
/// bytes that the crate declares as the output size of SHA-1.
#[verifier::external_body]
pub(crate) fn sha1(data: &[u8]) -> (digest: Vec<u8>)
    ensures
        digest@ == sha1_digest(data@),
        digest@.len() == 20,
{
    Sha1::digest(data).to_vec()
}

/// Tells whether two byte strings are equal.
pub fn same_bytes(a: &[u8], b: &[u8]) -> (same: bool)
    ensures
        same == (a@ == b@),
{
    if a.len() != b.len() {
        return false;
    }
    let mut at: usize = 0;
    while at < a.len()
        invariant
            a@.len() == b@.len(),
            at <= a@.len(),
            forall|i: int| 0 <= i < at ==> a@[i] == b@[i],
        decreases a@.len() - at,
    {
        if a[at] != b[at] {
            return false;
        }
        at += 1;
    }
    assert(a@ =~= b@);
    true
}

/// The value of a hexadecimal digit, in either case.
pub open spec fn hex_value(digit: u8) -> Option<u8> {
    if 0x30 <= digit <= 0x39 {
        Some((digit - 0x30) as u8)
    } else if 0x61 <= digit <= 0x66 {
        Some((digit - 0x61 + 10) as u8)
    } else if 0x41 <= digit <= 0x46 {
        Some((digit - 0x41 + 10) as u8)
    } else {
        None
    }
}

/// The lower-case hexadecimal digit of a value below 16.
pub open spec fn hex_digit(value: u8) -> u8
    recommends
        value < 16,
{
    if value < 10 {
        (0x30 + value) as u8
    } else {
        (0x61 + value - 10) as u8
    }
}

/// The text is made of pairs of hexadecimal digits.
pub open spec fn is_hex(text: Seq<u8>) -> bool {
    &&& text.len() % 2 == 0
    &&& forall|i: int| 0 <= i < text.len() ==> hex_value(#[trigger] text[i]) is Some
}

/// The bytes that pairs of hexadecimal digits spell.
pub open spec fn from_hex(text: Seq<u8>) -> Seq<u8>
    recommends
        is_hex(text),
{
    Seq::new(
        text.len() / 2,
        |i: int| (hex_value(text[2 * i])->0 * 16 + hex_value(text[2 * i + 1])->0) as u8,
    )
}

/// The bytes written as lower-case hexadecimal digits, two for each.
pub open spec fn to_hex(bytes: Seq<u8>) -> Seq<u8> {
    Seq::new(
        2 * bytes.len(),
        |i: int|
            if i % 2 == 0 {
                hex_digit(bytes[i / 2] / 16)
            } else {
                hex_digit(bytes[i / 2] % 16)
            },
    )
}

/// Reading back the hexadecimal digits of bytes gives the bytes.
pub proof fn lemma_hex_round_trip(bytes: Seq<u8>)
    ensures
        is_hex(to_hex(bytes)),
        from_hex(to_hex(bytes)) == bytes,
{
    let text = to_hex(bytes);
    assert forall|i: int| 0 <= i < text.len() implies hex_value(#[trigger] text[i]) is Some by {
        let byte = bytes[i / 2];
        assert(byte / 16 < 16 && byte % 16 < 16);
    }
    assert forall|i: int| 0 <= i < bytes.len() implies from_hex(text)[i] == bytes[i] by {
        let byte = bytes[i];
        assert((2 * i) / 2 == i && (2 * i + 1) / 2 == i);
        assert((2 * i) % 2 == 0 && (2 * i + 1) % 2 == 1);
        assert(hex_value(hex_digit(byte / 16)) == Some((byte / 16) as u8));
        assert(hex_value(hex_digit(byte % 16)) == Some((byte % 16) as u8));
        assert(text[2 * i] == hex_digit(byte / 16));
        assert(text[2 * i + 1] == hex_digit(byte % 16));
        assert((byte / 16) * 16 + byte % 16 == byte);
    }
    assert(from_hex(text) =~= bytes);
}

/// The value of one hexadecimal digit.
fn digit_value(digit: u8) -> (value: Option<u8>)
    ensures
        value == hex_value(digit),
        value matches Some(v) ==> v < 16,
{
    if 0x30 <= digit && digit <= 0x39 {
        Some(digit - 0x30)
    } else if 0x61 <= digit && digit <= 0x66 {
        Some(digit - 0x61 + 10)
    } else if 0x41 <= digit && digit <= 0x46 {
        Some(digit - 0x41 + 10)
    } else {
        None
    }
}

/// Reads pairs of hexadecimal digits as bytes. Text of odd length, or with
/// anything but hexadecimal digits in it, spells nothing.
pub fn decode_hex(text: &[u8]) -> (bytes: Option<Vec<u8>>)
    ensures
        match bytes {
            Some(read) => is_hex(text@) && read@ == from_hex(text@),
            None => !is_hex(text@),
        },
{
    if text.len() % 2 != 0 {
        return None;
    }
    let mut bytes: Vec<u8> = Vec::new();
    let mut at: usize = 0;
    while at < text.len()
        invariant
            text@.len() % 2 == 0,
            at % 2 == 0,
            at <= text@.len(),
            bytes@.len() == at / 2,
            forall|i: int| 0 <= i < at ==> hex_value(#[trigger] text@[i]) is Some,
            forall|i: int| 0 <= i < at / 2 ==> bytes@[i] == from_hex(text@)[i],
        decreases text@.len() - at,
    {
        let high = digit_value(text[at]);
        let low = digit_value(text[at + 1]);
        match (high, low) {
            (Some(h), Some(l)) => {
                bytes.push(h * 16 + l);
            },
            _ => {
                return None;
            },
        }
        at += 2;
    }
    assert(bytes@ =~= from_hex(text@));
    Some(bytes)
}

/// Writes bytes as lower-case hexadecimal digits.
pub fn encode_hex(bytes: &[u8]) -> (text: Vec<u8>)
    ensures
        text@ == to_hex(bytes@),
{
    let mut text: Vec<u8> = Vec::new();
    let mut at: usize = 0;
    while at < bytes.len()
        invariant
            at <= bytes@.len(),
            text@.len() == 2 * at,
            forall|i: int| 0 <= i < 2 * at ==> text@[i] == to_hex(bytes@)[i],
        decreases bytes@.len() - at,
    {
        let byte: u8 = bytes[at];
        let high: u8 = byte / 16;
        let low: u8 = byte % 16;
        text.push(if high < 10 { 0x30 + high } else { 0x61 + high - 10 });
        text.push(if low < 10 { 0x30 + low } else { 0x61 + low - 10 });
        assert((2 * at) / 2 == at && (2 * at + 1) / 2 == at);
        at += 1;
    }
    assert(text@ =~= to_hex(bytes@));
    text
}

/// Hexadecimal digits are plain text.
pub proof fn lemma_hex_is_ascii(bytes: Seq<u8>)
    ensures
        crate::text::is_ascii_bytes(to_hex(bytes)),
{
    let text = to_hex(bytes);
    assert forall|i: int| 0 <= i < text.len() implies #[trigger] text[i] < 128 by {
        let byte = bytes[i / 2];
        assert(byte / 16 < 16 && byte % 16 < 16);
    }
}

} // verus!
