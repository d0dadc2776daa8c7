//! Text records: a status byte, the language code, the text.

use vstd::prelude::*;
use vstd::string::StringSliceAdditionalSpecFns;
use crate::bytes::{append, copy_range};

verus! {

/// The bit of the status byte that the encoder always sets.
pub const UTF8_FLAG: u8 = 0x80;

/// The bits of the status byte that hold the length of the language code.
pub const LANGUAGE_MASK: u8 = 0x3F;

/// The longest language code, in bytes, that the encoder accepts.
pub const MAX_LANGUAGE_BYTES: usize = 5;

/// The longest text, in bytes, that the encoder accepts.
pub const MAX_TEXT_BYTES: usize = 200;

/// The type of a text record.
pub open spec fn text_type() -> Seq<u8> {
    "T".spec_bytes()
}

/// The payload of the record that stores `text` in `language`.
pub open spec fn text_payload(language: Seq<u8>, text: Seq<u8>) -> Seq<u8> {
    seq![UTF8_FLAG | language.len() as u8] + language + text
}

/// The language code and the text that a payload stores, if the payload is
/// long enough to hold the language code it announces.
pub open spec fn text_of_payload(payload: Seq<u8>) -> Option<(Seq<u8>, Seq<u8>)> {
    if payload.len() < 1 {
        None
    } else if payload.len() < 1 + (payload[0] & LANGUAGE_MASK) {
        None
    } else {
        Some(
            (
                payload.subrange(1, 1 + (payload[0] & LANGUAGE_MASK)),
                payload.skip(1 + (payload[0] & LANGUAGE_MASK)),
            ),
        )
    }
}

/// Builds the payload that stores `text` in `language`.
pub(crate) fn encode_text_payload(language: &[u8], text: &[u8]) -> (payload: Vec<u8>)
    requires
        language@.len() <= MAX_LANGUAGE_BYTES,
    ensures
        payload@ == text_payload(language@, text@),
{
    let mut payload: Vec<u8> = Vec::new();
    payload.push(UTF8_FLAG | (language.len() as u8));
    append(&mut payload, language);
    append(&mut payload, text);
    payload
}

/// The mathematical content of a decoded text payload.
pub open spec fn pair_view(r: Option<(Vec<u8>, Vec<u8>)>) -> Option<(Seq<u8>, Seq<u8>)> {
    match r {
        Some((a, b)) => Some((a@, b@)),
        None => None,
    }
}

/// Takes a text payload apart into language code and text.
pub fn decode_text_payload(payload: &[u8]) -> (r: Option<(Vec<u8>, Vec<u8>)>)
    ensures
        pair_view(r) == text_of_payload(payload@),
{
    if payload.len() < 1 {
        return None;
    }
    let n: usize = (payload[0] & LANGUAGE_MASK) as usize;
    if payload.len() < 1 + n {
        return None;
    }
    let language = copy_range(payload, 1, 1 + n);
    let text = copy_range(payload, 1 + n, payload.len());
    Some((language, text))
}

/// A text that was stored is restored with its language code.
pub proof fn lemma_text_payload_roundtrip(language: Seq<u8>, text: Seq<u8>)
    requires
        language.len() <= LANGUAGE_MASK,
    ensures
        text_of_payload(text_payload(language, text)) == Some((language, text)),
{
    let n = language.len() as u8;
    let payload = text_payload(language, text);
    assert((0x80u8 | n) & 0x3Fu8 == n) by (bit_vector)
        requires
            n <= 0x3Fu8,
    ;
    assert(payload[0] == UTF8_FLAG | n);
    assert(payload.subrange(1, 1 + n) =~= language);
    assert(payload.skip(1 + n) =~= text);
}

} // verus!
