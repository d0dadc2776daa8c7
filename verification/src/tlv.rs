//! The TLV container that holds the NDEF message in the user-data area: a
//! tag byte, a length in one or three bytes, the message, and a terminator.

use vstd::prelude::*;
use crate::bytes::{append, copy_range};
use crate::error::TagError;
use crate::layout::USER_BYTES;

verus! {

/// The tag of a TLV that holds nothing and is skipped.
pub const TLV_NULL: u8 = 0x00;

/// The tag of the TLV that holds the NDEF message.
pub const TLV_NDEF: u8 = 0x03;

/// The tag that ends the TLV stream.
pub const TLV_TERMINATOR: u8 = 0xFE;

/// The first length byte of the three-byte length form.
pub const LONG_FORM: u8 = 0xFF;

/// The longest message that fits into the user-data area: with its tag and
/// its three-byte length it fills 125 pages, and the terminator page is the
/// last of the area.
pub const MAX_MESSAGE_BYTES: usize = 496;

/// The length field for a message of `n` bytes: one byte below 255, and
/// `FF` with two more bytes from there on.
pub open spec fn length_field(n: int) -> Seq<u8> {
    if n < 255 {
        seq![n as u8]
    } else {
        seq![LONG_FORM, (n / 256) as u8, (n % 256) as u8]
    }
}

/// The TLV that holds `message`: tag, length, message.
pub open spec fn tlv_bytes(message: Seq<u8>) -> Seq<u8> {
    seq![TLV_NDEF] + length_field(message.len() as int) + message
}

/// The page that ends the TLV stream: the terminator and three zero bytes.
pub open spec fn terminator_page() -> Seq<u8> {
    seq![TLV_TERMINATOR, 0u8, 0u8, 0u8]
}

/// `bytes` followed by as many zero bytes as fill its last page.
pub open spec fn padded(bytes: Seq<u8>) -> Seq<u8> {
    bytes + Seq::new(((4 - bytes.len() % 4) % 4) as nat, |i: int| 0u8)
}

/// What is written to the user-data area for `message`: the TLV filled up
/// with zeroes to whole pages and the terminator page right after it, or the
/// report that this does not fit.
pub open spec fn framed(message: Seq<u8>) -> Result<Seq<u8>, TagError> {
    if padded(tlv_bytes(message)).len() + 4 > USER_BYTES {
        Err(TagError::CapacityExceeded)
    } else {
        Ok(padded(tlv_bytes(message)) + terminator_page())
    }
}

/// How far a scan of the user-data area has come.
pub enum Scan {
    /// The bytes at hand end before the scan can decide.
    NeedMore,
    /// The scan has decided: a message, no message, or a malformed stream.
    Done(Result<Option<Seq<u8>>, TagError>),
}

/// The message of `n` bytes that begins at `start`, as far as `bytes` let it
/// be decided. A message that would reach past the user-data area is
/// malformed, and an empty one counts as no message.
pub open spec fn take_message(bytes: Seq<u8>, start: int, n: int) -> Scan {
    if start + n > USER_BYTES {
        Scan::Done(Err(TagError::Frame))
    } else if start + n > bytes.len() {
        Scan::NeedMore
    } else if n == 0 {
        Scan::Done(Ok(None))
    } else {
        Scan::Done(Ok(Some(bytes.subrange(start, start + n))))
    }
}

/// The scan of the message TLV whose tag stands at `pos`.
pub open spec fn scan_message(bytes: Seq<u8>, pos: int) -> Scan {
    if pos + 1 >= USER_BYTES {
        Scan::Done(Err(TagError::Frame))
    } else if pos + 1 >= bytes.len() {
        Scan::NeedMore
    } else if bytes[pos + 1] != LONG_FORM {
        take_message(bytes, pos + 2, bytes[pos + 1] as int)
    } else if pos + 3 >= USER_BYTES {
        Scan::Done(Err(TagError::Frame))
    } else if pos + 3 >= bytes.len() {
        Scan::NeedMore
    } else {
        take_message(bytes, pos + 4, bytes[pos + 2] * 256 + bytes[pos + 3])
    }
}

/// The scan of the TLV stream from `pos` on, where `bytes` are the first
/// bytes of the user-data area: null TLVs are skipped, a terminator means
/// that there is no message, a message TLV is read, and any other tag, or
/// the end of the area, means a malformed stream.
pub open spec fn scan_tlv(bytes: Seq<u8>, pos: int) -> Scan
    decreases USER_BYTES - pos,
{
    if pos < 0 || pos >= USER_BYTES {
        Scan::Done(Err(TagError::Frame))
    } else if pos >= bytes.len() {
        Scan::NeedMore
    } else if bytes[pos] == TLV_NULL {
        scan_tlv(bytes, pos + 1)
    } else if bytes[pos] == TLV_TERMINATOR {
        Scan::Done(Ok(None))
    } else if bytes[pos] == TLV_NDEF {
        scan_message(bytes, pos)
    } else {
        Scan::Done(Err(TagError::Frame))
    }
}

/// How far a scan has come, with the message in hand.
#[derive(Debug)]
pub enum ScanOutcome {
    NeedMore,
    Done(Result<Option<Vec<u8>>, TagError>),
}

impl View for ScanOutcome {
    type V = Scan;

    open spec fn view(&self) -> Scan {
        match self {
            ScanOutcome::NeedMore => Scan::NeedMore,
            ScanOutcome::Done(Ok(Some(message))) => Scan::Done(Ok(Some(message@))),
            ScanOutcome::Done(Ok(None)) => Scan::Done(Ok(None)),
            ScanOutcome::Done(Err(e)) => Scan::Done(Err(*e)),
        }
    }
}

/// The mathematical content of a framing result.
pub open spec fn framed_view(r: Result<Vec<u8>, TagError>) -> Result<Seq<u8>, TagError> {
    match r {
        Ok(bytes) => Ok(bytes@),
        Err(e) => Err(e),
    }
}

/// Builds what is written to the user-data area for `message`. The result
/// is a whole number of pages, at most the 126 of the area.
pub fn build_tlv(message: &[u8]) -> (r: Result<Vec<u8>, TagError>)
    ensures
        framed_view(r) == framed(message@),
        r is Ok <==> message@.len() <= MAX_MESSAGE_BYTES,
        r matches Ok(bytes) ==> bytes@.len() % 4 == 0 && 8 <= bytes@.len() <= USER_BYTES,
{
    let n: usize = message.len();
    if n > MAX_MESSAGE_BYTES {
        return Err(TagError::CapacityExceeded);
    }
    let mut out: Vec<u8> = Vec::new();
    out.push(TLV_NDEF);
    if n < 255 {
        out.push(n as u8);
    } else {
        out.push(LONG_FORM);
        out.push((n / 256) as u8);
        out.push((n % 256) as u8);
    }
    assert(out@ =~= seq![TLV_NDEF] + length_field(n as int));
    append(&mut out, message);
    assert(out@ =~= tlv_bytes(message@));
    let ghost stream = out@;
    let pad: usize = (4 - out.len() % 4) % 4;
    let mut i: usize = 0;
    while i < pad
        invariant
            i <= pad < 4,
            stream.len() <= USER_BYTES - 4,
            out@ =~= stream + Seq::new(i as nat, |j: int| 0u8),
        decreases pad - i,
    {
        out.push(0u8);
        i = i + 1;
    }
    assert(out@ =~= padded(stream));
    out.push(TLV_TERMINATOR);
    out.push(0u8);
    out.push(0u8);
    out.push(0u8);
    assert(out@ =~= padded(stream) + terminator_page());
    Ok(out)
}

/// Scans the first bytes of the user-data area for the NDEF message.
pub fn scan(bytes: &[u8]) -> (r: ScanOutcome)
    ensures
        r@ == scan_tlv(bytes@, 0),
{
    let mut pos: usize = 0;
    while pos < USER_BYTES && pos < bytes.len() && bytes[pos] == TLV_NULL
        invariant
            pos <= USER_BYTES,
            scan_tlv(bytes@, 0) == scan_tlv(bytes@, pos as int),
        decreases USER_BYTES - pos,
    {
        pos = pos + 1;
    }
    if pos >= USER_BYTES {
        return ScanOutcome::Done(Err(TagError::Frame));
    }
    if pos >= bytes.len() {
        return ScanOutcome::NeedMore;
    }
    if bytes[pos] == TLV_TERMINATOR {
        return ScanOutcome::Done(Ok(None));
    }
    if bytes[pos] != TLV_NDEF {
        return ScanOutcome::Done(Err(TagError::Frame));
    }
    if pos + 1 >= USER_BYTES {
        return ScanOutcome::Done(Err(TagError::Frame));
    }
    if pos + 1 >= bytes.len() {
        return ScanOutcome::NeedMore;
    }
    let start: usize;
    let n: usize;
    if bytes[pos + 1] != LONG_FORM {
        start = pos + 2;
        n = bytes[pos + 1] as usize;
    } else {
        if pos + 3 >= USER_BYTES {
            return ScanOutcome::Done(Err(TagError::Frame));
        }
        if pos + 3 >= bytes.len() {
            return ScanOutcome::NeedMore;
        }
        start = pos + 4;
        n = (bytes[pos + 2] as usize) * 256 + (bytes[pos + 3] as usize);
    }
    if start + n > USER_BYTES {
        ScanOutcome::Done(Err(TagError::Frame))
    } else if start + n > bytes.len() {
        ScanOutcome::NeedMore
    } else if n == 0 {
        ScanOutcome::Done(Ok(None))
    } else {
        ScanOutcome::Done(Ok(Some(copy_range(bytes, start, start + n))))
    }
}

/// A message is framed with the one-byte length below 255 bytes and with the
/// three-byte length from there on; zeroes fill its last page, and the
/// terminator page follows at once. It fits exactly when it has at most 496
/// bytes.
pub proof fn law_frame_form(message: Seq<u8>)
    ensures
        message.len() < 255 ==> tlv_bytes(message) == seq![TLV_NDEF, message.len() as u8]
            + message,
        message.len() >= 255 ==> tlv_bytes(message) == seq![
            TLV_NDEF,
            LONG_FORM,
            (message.len() / 256) as u8,
            (message.len() % 256) as u8,
        ] + message,
        framed(message) is Ok <==> message.len() <= MAX_MESSAGE_BYTES,
        framed(message) is Err ==> framed(message) == Err::<Seq<u8>, TagError>(
            TagError::CapacityExceeded,
        ),
        framed(message) matches Ok(data) ==> {
            &&& data.len() % 4 == 0
            &&& 8 <= data.len() <= USER_BYTES
            &&& data.len() - 8 < tlv_bytes(message).len() <= data.len() - 4
            &&& data.take(tlv_bytes(message).len() as int) == tlv_bytes(message)
            &&& forall|i: int| tlv_bytes(message).len() <= i < data.len() - 4 ==> data[i] == 0
            &&& data.skip(data.len() - 4) == terminator_page()
        },
{
    let n = message.len() as int;
    if n < 255 {
        assert(seq![TLV_NDEF] + length_field(n) =~= seq![TLV_NDEF, n as u8]);
    } else {
        assert(seq![TLV_NDEF] + length_field(n) =~= seq![
            TLV_NDEF,
            LONG_FORM,
            (n / 256) as u8,
            (n % 256) as u8,
        ]);
    }
    let stream = tlv_bytes(message);
    let body = padded(stream);
    let data = body + terminator_page();
    assert(data.take(stream.len() as int) =~= stream);
    assert(data.skip(data.len() - 4) =~= terminator_page());
}

/// Once a scan has decided, more bytes do not change what it decided.
pub proof fn law_scan_stable(bytes: Seq<u8>, more: Seq<u8>, pos: int)
    requires
        0 <= pos,
        scan_tlv(bytes, pos) is Done,
    ensures
        scan_tlv(bytes + more, pos) == scan_tlv(bytes, pos),
    decreases USER_BYTES - pos,
{
    let all = bytes + more;
    if pos < USER_BYTES && pos < bytes.len() {
        assert(all[pos] == bytes[pos]);
        if bytes[pos] == TLV_NULL {
            law_scan_stable(bytes, more, pos + 1);
        } else if bytes[pos] == TLV_NDEF {
            if pos + 1 < USER_BYTES && pos + 1 < bytes.len() {
                assert(all[pos + 1] == bytes[pos + 1]);
                if bytes[pos + 1] != LONG_FORM {
                    let n = bytes[pos + 1] as int;
                    if pos + 2 + n <= bytes.len() {
                        assert(all.subrange(pos + 2, pos + 2 + n) =~= bytes.subrange(
                            pos + 2,
                            pos + 2 + n,
                        ));
                    }
                } else if pos + 3 < USER_BYTES && pos + 3 < bytes.len() {
                    assert(all[pos + 2] == bytes[pos + 2]);
                    assert(all[pos + 3] == bytes[pos + 3]);
                    let n = bytes[pos + 2] * 256 + bytes[pos + 3];
                    if pos + 4 + n <= bytes.len() {
                        assert(all.subrange(pos + 4, pos + 4 + n) =~= bytes.subrange(
                            pos + 4,
                            pos + 4 + n,
                        ));
                    }
                }
            }
        }
    }
}

/// Scanning the TLV of a message, whatever follows it, finds that message;
/// an empty message is found as no message.
pub proof fn law_scan_framed(message: Seq<u8>, more: Seq<u8>)
    requires
        message.len() <= MAX_MESSAGE_BYTES,
    ensures
        scan_tlv(tlv_bytes(message) + more, 0) == Scan::Done(
            if message.len() == 0 {
                Ok(None)
            } else {
                Ok(Some(message))
            },
        ),
{
    let n = message.len() as int;
    let stream = tlv_bytes(message);
    let all = stream + more;
    law_frame_form(message);
    assert(all[0] == stream[0]);
    assert(all[1] == stream[1]);
    if n < 255 {
        assert(all.subrange(2, 2 + n) =~= message);
    } else {
        assert(all[2] == stream[2]);
        assert(all[3] == stream[3]);
        assert(stream[2] == (n / 256) as u8);
        assert(stream[3] == (n % 256) as u8);
        assert(all.subrange(4, 4 + n) =~= message);
    }
}

} // verus!
