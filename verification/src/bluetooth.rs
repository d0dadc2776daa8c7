//! Bluetooth records: the six bytes of a device address.

use vstd::prelude::*;
use vstd::slice::slice_subrange;
use vstd::string::StringSliceAdditionalSpecFns;
use vstd::utf8::{encode_utf8, valid_utf8};
use crate::bytes::{find_byte, first_index, text_from_bytes, text_of};
use crate::error::TagError;
use crate::hex::{hex_digit, hex_value};

verus! {

/// The number of bytes in a device address.
pub const MAC_BYTES: usize = 6;

/// The byte that separates the parts of a written address.
pub const COLON: u8 = 0x3A;

/// The type of a Bluetooth record.
pub open spec fn bluetooth_type() -> Seq<u8> {
    "application/vnd.bluetooth.ep.oob".spec_bytes()
}

/// The byte that one or two hexadecimal digits denote.
pub open spec fn hex_byte(group: Seq<u8>) -> Option<u8> {
    if group.len() == 1 {
        match hex_value(group[0]) {
            Some(d) => Some(d as u8),
            None => None,
        }
    } else if group.len() == 2 {
        match (hex_value(group[0]), hex_value(group[1])) {
            (Some(high), Some(low)) => Some((high * 16 + low) as u8),
            _ => None,
        }
    } else {
        None
    }
}

/// The bytes denoted by exactly `count` groups of hexadecimal digits that
/// begin at `pos`, are separated by colons and reach to the end of `s`.
pub open spec fn mac_from(s: Seq<u8>, pos: int, count: nat) -> Option<Seq<u8>>
    decreases count,
{
    if count == 0 {
        if pos == s.len() + 1 {
            Some(Seq::empty())
        } else {
            None
        }
    } else if pos < 0 || pos > s.len() {
        None
    } else {
        let end = first_index(s, COLON, pos);
        match (hex_byte(s.subrange(pos, end)), mac_from(s, end + 1, (count - 1) as nat)) {
            (Some(b), Some(rest)) => Some(seq![b] + rest),
            _ => None,
        }
    }
}

/// The address that a text denotes: six groups of one or two hexadecimal
/// digits, separated by colons, and nothing else.
pub open spec fn mac_of(s: Seq<u8>) -> Option<Seq<u8>> {
    mac_from(s, 0, 6)
}

/// The address that a payload stores, if the payload has six bytes.
pub open spec fn mac_of_payload(payload: Seq<u8>) -> Option<Seq<u8>> {
    if payload.len() == MAC_BYTES {
        Some(payload)
    } else {
        None
    }
}

/// The digit, in upper case, of a value below sixteen.
pub open spec fn hex_char(d: int) -> u8 {
    if d < 10 {
        (0x30 + d) as u8
    } else {
        (0x41 + d - 10) as u8
    }
}

/// An address as it is written: two upper-case digits for each byte, with
/// colons between the bytes.
pub open spec fn mac_text(mac: Seq<u8>) -> Seq<u8> {
    Seq::new(
        17,
        |i: int|
            if i % 3 == 2 {
                COLON
            } else if i % 3 == 0 {
                hex_char(mac[i / 3] as int / 16)
            } else {
                hex_char(mac[i / 3] as int % 16)
            },
    )
}

/// Reads the byte that one or two hexadecimal digits denote.
pub fn parse_hex_byte(group: &[u8]) -> (r: Option<u8>)
    ensures
        r == hex_byte(group@),
{
    if group.len() == 1 {
        hex_digit(group[0])
    } else if group.len() == 2 {
        match (hex_digit(group[0]), hex_digit(group[1])) {
            (Some(high), Some(low)) => Some(high * 16 + low),
            _ => None,
        }
    } else {
        None
    }
}

/// The mathematical content of a parsed address.
pub open spec fn mac_view(r: Result<[u8; 6], TagError>) -> Result<Seq<u8>, TagError> {
    match r {
        Ok(mac) => Ok(mac@),
        Err(e) => Err(e),
    }
}

/// What parsing an address yields: the address, or the report that the text
/// is not one.
pub open spec fn mac_result(s: Seq<u8>) -> Result<Seq<u8>, TagError> {
    match mac_of(s) {
        Some(mac) => Ok(mac),
        None => Err(TagError::InvalidRecord),
    }
}

/// Reads a device address from its written form.
pub fn parse_mac_bytes(s: &[u8]) -> (r: Result<[u8; 6], TagError>)
    ensures
        mac_view(r) == mac_result(s@),
{
    let mut out: Vec<u8> = Vec::new();
    let mut pos: usize = 0;
    let mut ended = false;
    let mut k: usize = 0;
    while k < 6
        invariant
            k <= 6,
            out@.len() == k,
            pos <= s@.len(),
            mac_of(s@) == (match mac_from(
                s@,
                if ended {
                    s@.len() as int + 1
                } else {
                    pos as int
                },
                (6 - k) as nat,
            ) {
                Some(rest) => Some(out@ + rest),
                None => None,
            }),
        decreases 6 - k,
    {
        if ended {
            return Err(TagError::InvalidRecord);
        }
        let end = find_byte(s, COLON, pos);
        let b = match parse_hex_byte(slice_subrange(s, pos, end)) {
            Some(b) => b,
            None => {
                return Err(TagError::InvalidRecord);
            },
        };
        proof {
            let rest = mac_from(s@, end + 1, (6 - k - 1) as nat);
            if rest is Some {
                assert(out@ + (seq![b] + rest->Some_0) =~= out@.push(b) + rest->Some_0);
            }
        }
        out.push(b);
        if end == s.len() {
            ended = true;
        } else {
            pos = end + 1;
        }
        k = k + 1;
    }
    if !ended {
        return Err(TagError::InvalidRecord);
    }
    let mac = [out[0], out[1], out[2], out[3], out[4], out[5]];
    assert(mac@ =~= out@ + Seq::<u8>::empty());
    Ok(mac)
}

/// Reads a device address such as `AA:BB:CC:DD:EE:FF`. A text that does not
/// denote exactly six bytes is not an address.
pub fn parse_mac(mac: &str) -> (r: Result<[u8; 6], TagError>)
    ensures
        mac_view(r) == mac_result(mac.spec_bytes()),
{
    parse_mac_bytes(mac.as_bytes())
}

/// The upper-case digit of a value below sixteen.
pub(crate) fn digit_char(d: u8) -> (r: u8)
    requires
        d < 16,
    ensures
        r == hex_char(d as int),
        r < 128,
{
    if d < 10 {
        0x30 + d
    } else {
        0x41 + d - 10
    }
}

/// Bytes below 128 are valid UTF-8, one character each, and the text they
/// stand for has them as its bytes.
pub proof fn lemma_ascii_text(bytes: Seq<u8>)
    requires
        forall|i: int| 0 <= i < bytes.len() ==> bytes[i] < 128,
    ensures
        valid_utf8(bytes),
        encode_utf8(text_of(bytes)) == bytes,
        text_of(bytes).len() == bytes.len(),
{
    let chars = Seq::new(bytes.len(), |i: int| bytes[i] as char);
    assert(vstd::utf8::is_ascii_chars(chars));
    vstd::utf8::is_ascii_chars_encode_utf8(chars);
    assert(encode_utf8(chars) =~= bytes);
    crate::bytes::lemma_text_roundtrip(chars);
    vstd::utf8::encode_utf8_valid_utf8(chars);
}

/// Writes a device address as text.
pub fn format_mac(mac: &[u8; 6]) -> (r: String)
    ensures
        encode_utf8(r@) == mac_text(mac@),
        r@ == text_of(mac_text(mac@)),
{
    let mut bytes: Vec<u8> = Vec::new();
    let mut k: usize = 0;
    while k < 6
        invariant
            k <= 6,
            bytes@.len() == (if k == 0 {
                0int
            } else {
                3 * k - 1
            }),
            forall|i: int| 0 <= i < bytes@.len() ==> bytes@[i] == mac_text(mac@)[i],
            forall|i: int| 0 <= i < bytes@.len() ==> bytes@[i] < 128,
        decreases 6 - k,
    {
        if k > 0 {
            bytes.push(COLON);
        }
        let b: u8 = mac[k];
        bytes.push(digit_char(b / 16));
        bytes.push(digit_char(b % 16));
        k = k + 1;
    }
    assert(bytes@ =~= mac_text(mac@));
    proof {
        lemma_ascii_text(bytes@);
    }
    let r = text_from_bytes(bytes.as_slice());
    r
}

} // verus!
