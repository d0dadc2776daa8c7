//! The layout of a short NDEF record: header, type length, payload length,
//! type, payload.

use vstd::prelude::*;
use crate::bytes::{append, copy_range};
use crate::error::TagError;

verus! {

/// The header of a single short record of a well-known type.
pub const HEADER_WELL_KNOWN: u8 = 0xD1;

/// The header of a single short record of a MIME type.
pub const HEADER_MIME: u8 = 0xD2;

/// The header of a single short record of an external type.
pub const HEADER_EXTERNAL: u8 = 0xD4;

/// The type-name format of well-known types.
pub const TNF_WELL_KNOWN: u8 = 0x01;

/// The type-name format of MIME types.
pub const TNF_MIME: u8 = 0x02;

/// The type-name format of external types.
pub const TNF_EXTERNAL: u8 = 0x04;

/// The bits of the header that hold the type-name format.
pub const TNF_MASK: u8 = 0x07;

/// The header bit that marks a short record.
pub const SHORT_RECORD: u8 = 0x10;

/// The header bit that announces an identifier field.
pub const ID_PRESENT: u8 = 0x08;

/// The longest type and the longest payload that a short record can carry.
pub const MAX_FIELD: usize = 255;

/// The bytes of a short record with the given header, type and payload.
pub open spec fn record_bytes(header: u8, rtype: Seq<u8>, payload: Seq<u8>) -> Seq<u8> {
    seq![header, rtype.len() as u8, payload.len() as u8] + rtype + payload
}

/// The parts of a record as the codecs look at them.
pub struct RecordParts {
    pub tnf: u8,
    pub rtype: Seq<u8>,
    pub payload: Seq<u8>,
}

/// A record taken apart.
#[derive(Debug)]
pub struct RawRecord {
    pub tnf: u8,
    pub rtype: Vec<u8>,
    pub payload: Vec<u8>,
}

impl View for RawRecord {
    type V = RecordParts;

    open spec fn view(&self) -> RecordParts {
        RecordParts { tnf: self.tnf, rtype: self.rtype@, payload: self.payload@ }
    }
}

/// The parts of the first record in `bytes`, if `bytes` begins with a
/// complete short record without an identifier field.
pub open spec fn split_record(bytes: Seq<u8>) -> Option<RecordParts> {
    if bytes.len() < 3 {
        None
    } else if bytes[0] & SHORT_RECORD == 0 || bytes[0] & ID_PRESENT != 0 {
        None
    } else if bytes.len() < 3 + bytes[1] + bytes[2] {
        None
    } else {
        Some(
            RecordParts {
                tnf: bytes[0] & TNF_MASK,
                rtype: bytes.subrange(3, 3 + bytes[1]),
                payload: bytes.subrange(3 + bytes[1], 3 + bytes[1] + bytes[2]),
            },
        )
    }
}

/// The mathematical content of an optional record.
pub open spec fn parts_view(r: Option<RawRecord>) -> Option<RecordParts> {
    match r {
        Some(raw) => Some(raw@),
        None => None,
    }
}

/// Whether `header` is one of the three headers that this codec writes.
pub open spec fn known_header(header: u8) -> bool {
    header == HEADER_WELL_KNOWN || header == HEADER_MIME || header == HEADER_EXTERNAL
}

/// Puts a short record together. A type or a payload of more than 255 bytes
/// does not fit.
pub fn build_record(header: u8, rtype: &[u8], payload: &[u8]) -> (r: Result<Vec<u8>, TagError>)
    ensures
        r matches Ok(bytes) ==> bytes@ == record_bytes(header, rtype@, payload@),
        r is Ok <==> rtype@.len() <= MAX_FIELD && payload@.len() <= MAX_FIELD,
        r is Err ==> r == Err::<Vec<u8>, TagError>(TagError::InvalidRecord),
{
    if rtype.len() > MAX_FIELD || payload.len() > MAX_FIELD {
        return Err(TagError::InvalidRecord);
    }
    let mut bytes: Vec<u8> = Vec::new();
    bytes.push(header);
    bytes.push(rtype.len() as u8);
    bytes.push(payload.len() as u8);
    append(&mut bytes, rtype);
    append(&mut bytes, payload);
    assert(bytes@ =~= record_bytes(header, rtype@, payload@));
    Ok(bytes)
}

/// Takes the first record of `bytes` apart.
pub fn parse_record(bytes: &[u8]) -> (r: Option<RawRecord>)
    ensures
        parts_view(r) == split_record(bytes@),
{
    if bytes.len() < 3 {
        return None;
    }
    let header: u8 = bytes[0];
    if header & SHORT_RECORD == 0 || header & ID_PRESENT != 0 {
        return None;
    }
    let type_len: usize = bytes[1] as usize;
    let payload_len: usize = bytes[2] as usize;
    if bytes.len() < 3 + type_len + payload_len {
        return None;
    }
    let rtype = copy_range(bytes, 3, 3 + type_len);
    let payload = copy_range(bytes, 3 + type_len, 3 + type_len + payload_len);
    Some(RawRecord { tnf: header & TNF_MASK, rtype, payload })
}

/// A record that was put together comes apart into what went in.
pub proof fn lemma_split_build(header: u8, rtype: Seq<u8>, payload: Seq<u8>)
    requires
        known_header(header),
        rtype.len() <= MAX_FIELD,
        payload.len() <= MAX_FIELD,
    ensures
        split_record(record_bytes(header, rtype, payload)) == Some(
            RecordParts { tnf: (header & TNF_MASK), rtype, payload },
        ),
        HEADER_WELL_KNOWN & TNF_MASK == TNF_WELL_KNOWN,
        HEADER_MIME & TNF_MASK == TNF_MIME,
        HEADER_EXTERNAL & TNF_MASK == TNF_EXTERNAL,
{
    let bytes = record_bytes(header, rtype, payload);
    assert(0xD1u8 & 0x10u8 != 0 && 0xD1u8 & 0x08u8 == 0 && 0xD1u8 & 0x07u8 == 1) by (bit_vector);
    assert(0xD2u8 & 0x10u8 != 0 && 0xD2u8 & 0x08u8 == 0 && 0xD2u8 & 0x07u8 == 2) by (bit_vector);
    assert(0xD4u8 & 0x10u8 != 0 && 0xD4u8 & 0x08u8 == 0 && 0xD4u8 & 0x07u8 == 4) by (bit_vector);
    assert(bytes[0] == header);
    assert(bytes[1] == rtype.len());
    assert(bytes[2] == payload.len());
    assert(bytes.subrange(3, 3 + bytes[1]) =~= rtype);
    assert(bytes.subrange(3 + bytes[1], 3 + bytes[1] + bytes[2]) =~= payload);
}

} // verus!
