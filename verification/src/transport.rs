//! The APDU transport: one command frame out, one response back, and the
//! status-word protocol that separates a payload from a refusal.

use vstd::prelude::*;
use crate::error::TransportError;

verus! {

/// A connected tag handle. `transmit` sends one command frame and hands back
/// the raw response with its two trailing status bytes, or the driver's
/// error code when the frame could not be exchanged at all.
pub trait NfcCard {
    fn transmit(&mut self, apdu: &[u8]) -> Result<Vec<u8>, i64>;
}

/// One round trip as the handle saw it: the frame sent and what came back.
pub struct Exchange {
    pub command: Seq<u8>,
    pub raw: Result<Seq<u8>, i64>,
}

/// The first status byte of a successful response.
pub const SW1_OK: u8 = 0x90;

/// The second status byte of a successful response.
pub const SW2_OK: u8 = 0x00;

/// The first status byte with which the tag refuses an operation that its
/// protection does not permit.
pub const SW1_DENIED: u8 = 0x63;

/// What a raw response means: the payload without its status bytes when the
/// status is `90 00`, and the reason otherwise.
pub open spec fn interpret(raw: Result<Seq<u8>, i64>) -> Result<Seq<u8>, TransportError> {
    match raw {
        Err(code) => Err(TransportError::Channel { code }),
        Ok(bytes) => {
            if bytes.len() < 2 {
                Err(TransportError::MalformedResponse)
            } else if bytes[bytes.len() - 2] == SW1_OK && bytes[bytes.len() - 1] == SW2_OK {
                Ok(bytes.take(bytes.len() - 2))
            } else {
                Err(TransportError::Status {
                    sw1: bytes[bytes.len() - 2],
                    sw2: bytes[bytes.len() - 1],
                })
            }
        },
    }
}

/// The mathematical content of a byte-vector result.
pub open spec fn bytes_view<E>(r: Result<Vec<u8>, E>) -> Result<Seq<u8>, E> {
    match r {
        Ok(v) => Ok(v@),
        Err(e) => Err(e),
    }
}

/// The interpreted answer of one exchange.
pub open spec fn reply(e: Exchange) -> Result<Seq<u8>, TransportError> {
    interpret(e.raw)
}

/// Applies the status-word protocol to a raw response.
pub fn interpret_response(raw: Result<Vec<u8>, i64>) -> (r: Result<Vec<u8>, TransportError>)
    ensures
        bytes_view(r) == interpret(bytes_view(raw)),
{
    match raw {
        Err(code) => Err(TransportError::Channel { code }),
        Ok(bytes) => {
            let n: usize = bytes.len();
            if n < 2 {
                Err(TransportError::MalformedResponse)
            } else {
                let sw1: u8 = bytes[n - 2];
                let sw2: u8 = bytes[n - 1];
                if sw1 == SW1_OK && sw2 == SW2_OK {
                    let mut payload = bytes;
                    payload.truncate(n - 2);
                    Ok(payload)
                } else {
                    Err(TransportError::Status { sw1, sw2 })
                }
            }
        },
    }
}

/// Whether `after` continues `before` without changing what was there.
pub open spec fn extends(before: Seq<Exchange>, after: Seq<Exchange>) -> bool {
    before.len() <= after.len() && after.take(before.len() as int) == before
}

/// The exchanges of `after` that follow those of `before`.
pub open spec fn appended(before: Seq<Exchange>, after: Seq<Exchange>) -> Seq<Exchange> {
    after.skip(before.len() as int)
}

/// Owns a tag handle and presents it as the transport: every frame goes
/// through [`LibnfcCardWrapper::transmit`], which applies the status-word
/// protocol and keeps a ghost record of each exchange.
pub struct LibnfcCardWrapper<R: NfcCard> {
    reader: R,
    log: Ghost<Seq<Exchange>>,
}

impl<R: NfcCard> LibnfcCardWrapper<R> {
    /// Every exchange made through this transport so far, oldest first.
    pub closed spec fn log(&self) -> Seq<Exchange> {
        self.log@
    }

    /// The handle that this transport owns.
    pub closed spec fn reader(&self) -> R {
        self.reader
    }

    /// Takes ownership of a connected handle. Nothing has been exchanged yet.
    pub fn new(reader: R) -> (card: Self)
        ensures
            card.log() == Seq::<Exchange>::empty(),
            card.reader() == reader,
    {
        LibnfcCardWrapper { reader, log: Ghost(Seq::empty()) }
    }

    /// Gives the handle back.
    pub fn into_inner(self) -> (reader: R)
        ensures
            reader == self.reader(),
    {
        self.reader
    }

    /// Sends `apdu` and interprets the response: exactly one exchange is
    /// added to the record, its command is `apdu`, and the result is what the
    /// status-word protocol makes of the raw answer.
    pub fn transmit(&mut self, apdu: &[u8]) -> (r: Result<Vec<u8>, TransportError>)
        ensures
            final(self).log().len() == old(self).log().len() + 1,
            final(self).log() == old(self).log().push(final(self).log().last()),
            final(self).log().last().command == apdu@,
            bytes_view(r) == reply(final(self).log().last()),
    {
        let raw = self.reader.transmit(apdu);
        proof {
            let e = Exchange { command: apdu@, raw: bytes_view(raw) };
            self.log@ = self.log@.push(e);
        }
        interpret_response(raw)
    }
}

} // verus!
