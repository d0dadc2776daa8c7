//! The page store: reading and writing single four-byte pages.

use vstd::prelude::*;
use crate::command::{read_apdu, read_command, write_apdu, write_command};
use crate::error::{TagError, TransportError};
use crate::layout::ConfigLayout;
use crate::transport::{
    appended, extends, reply, Exchange, LibnfcCardWrapper, NfcCard, SW1_DENIED,
};

verus! {

/// The protocol of the tag family, for one assignment of the configuration
/// pages. It holds no state of the tag: every operation takes the transport
/// it is to use.
#[derive(Clone, Copy, Debug)]
pub struct Ntag216 {
    pub layout: ConfigLayout,
}

/// The mathematical content of a page-read result.
pub open spec fn page_view(r: Result<[u8; 4], TagError>) -> Result<Seq<u8>, TagError> {
    match r {
        Ok(p) => Ok(p@),
        Err(e) => Err(e),
    }
}

/// What the answer to a read request means: four bytes are the page, fewer
/// are a short read, and more are not an answer to this request.
pub open spec fn page_of(answer: Result<Seq<u8>, TransportError>) -> Result<Seq<u8>, TagError> {
    match answer {
        Err(e) => Err(TagError::Read(e)),
        Ok(bytes) => {
            if bytes.len() == 4 {
                Ok(bytes)
            } else if bytes.len() < 4 {
                Err(TagError::ShortRead)
            } else {
                Err(TagError::Read(TransportError::MalformedResponse))
            }
        },
    }
}

/// What the answer to a write request means. A refusal with the
/// permission-denied status counts as a missing password unless the caller
/// had authenticated.
pub open spec fn write_outcome(
    answer: Result<Seq<u8>, TransportError>,
    authenticated: bool,
) -> Result<(), TagError> {
    match answer {
        Ok(_) => Ok(()),
        Err(TransportError::Status { sw1, sw2 }) => {
            if sw1 == SW1_DENIED && !authenticated {
                Err(TagError::PasswordRequired)
            } else {
                Err(TagError::Write(TransportError::Status { sw1, sw2 }))
            }
        },
        Err(e) => Err(TagError::Write(e)),
    }
}

/// `trace` is one read of `page`, and `result` is what its answer means.
pub open spec fn read_trace(page: u8, trace: Seq<Exchange>, result: Result<Seq<u8>, TagError>) -> bool {
    &&& trace.len() == 1
    &&& trace[0].command == read_command(page)
    &&& result == page_of(reply(trace[0]))
}

/// `trace` is one write of `data` to `page`, and `result` is what its answer
/// means.
pub open spec fn write_trace(
    page: u8,
    data: Seq<u8>,
    authenticated: bool,
    trace: Seq<Exchange>,
    result: Result<(), TagError>,
) -> bool {
    &&& trace.len() == 1
    &&& trace[0].command == write_command(page, data)
    &&& result == write_outcome(reply(trace[0]), authenticated)
}

/// The mathematical content of a result that holds several pages.
pub open spec fn pages_view(r: Result<Vec<[u8; 4]>, TagError>) -> Result<Seq<Seq<u8>>, TagError> {
    match r {
        Ok(v) => Ok(Seq::new(v@.len(), |i: int| v@[i]@)),
        Err(e) => Err(e),
    }
}

/// `trace` reads the pages of `pages` in order and stops after the first
/// that fails.
pub open spec fn reads_run(pages: Seq<u8>, trace: Seq<Exchange>) -> bool {
    &&& trace.len() <= pages.len()
    &&& forall|i: int|
        0 <= i < trace.len() ==> (#[trigger] trace[i]).command == read_command(pages[i])
    &&& forall|i: int| 0 <= i < trace.len() - 1 ==> page_of(reply(#[trigger] trace[i])) is Ok
    &&& trace.len() < pages.len() ==> trace.len() > 0 && page_of(reply(trace.last())) is Err
}

/// What the reads of `trace` delivered: every page, or the first failure.
pub open spec fn reads_result(trace: Seq<Exchange>) -> Result<Seq<Seq<u8>>, TagError> {
    if trace.len() > 0 && page_of(reply(trace.last())) is Err {
        Err(page_of(reply(trace.last()))->Err_0)
    } else {
        Ok(Seq::new(trace.len(), |i: int| page_of(reply(trace[i]))->Ok_0))
    }
}

/// `trace` writes `data[i]` to `pages[i]` in order and stops after the first
/// write that fails.
pub open spec fn writes_run(
    pages: Seq<u8>,
    data: Seq<Seq<u8>>,
    authenticated: bool,
    trace: Seq<Exchange>,
) -> bool {
    &&& trace.len() <= pages.len()
    &&& forall|i: int|
        0 <= i < trace.len() ==> (#[trigger] trace[i]).command == write_command(
            pages[i],
            data[i],
        )
    &&& forall|i: int|
        0 <= i < trace.len() - 1 ==> write_outcome(reply(#[trigger] trace[i]), authenticated) is Ok
    &&& trace.len() < pages.len() ==> trace.len() > 0 && write_outcome(
        reply(trace.last()),
        authenticated,
    ) is Err
}

/// How the writes of `trace` ended: with the failure of the last, if it
/// failed.
pub open spec fn writes_result(authenticated: bool, trace: Seq<Exchange>) -> Result<(), TagError> {
    if trace.len() > 0 {
        write_outcome(reply(trace.last()), authenticated)
    } else {
        Ok(())
    }
}

/// The mathematical content of a list of pages.
pub open spec fn page_list(data: Seq<[u8; 4]>) -> Seq<Seq<u8>> {
    Seq::new(data.len(), |i: int| data[i]@)
}

/// The record grew by exactly `trace`.
pub open spec fn grew_by(before: Seq<Exchange>, after: Seq<Exchange>, trace: Seq<Exchange>) -> bool {
    after == before + trace
}

/// A record that grew by `trace` extends the old one, and `trace` is what was
/// appended.
pub proof fn lemma_grew_by(before: Seq<Exchange>, after: Seq<Exchange>, trace: Seq<Exchange>)
    requires
        grew_by(before, after, trace),
    ensures
        extends(before, after),
        appended(before, after) == trace,
{
    assert(after.take(before.len() as int) =~= before);
    assert(appended(before, after) =~= trace);
}

/// A record that extends another grew by what was appended.
pub proof fn lemma_extends_grew(before: Seq<Exchange>, after: Seq<Exchange>)
    requires
        extends(before, after),
    ensures
        grew_by(before, after, appended(before, after)),
{
    assert(after =~= after.take(before.len() as int) + after.skip(before.len() as int));
}

/// Growth composes: first by `first`, then by `second`.
pub proof fn lemma_grew_twice(
    before: Seq<Exchange>,
    mid: Seq<Exchange>,
    after: Seq<Exchange>,
    second: Seq<Exchange>,
)
    requires
        extends(before, mid),
        grew_by(mid, after, second),
    ensures
        extends(before, after),
        appended(before, after) == appended(before, mid) + second,
{
    lemma_extends_grew(before, mid);
    let first = appended(before, mid);
    assert(after =~= before + (first + second));
    lemma_grew_by(before, after, first + second);
}

impl Ntag216 {
    /// The protocol for the given assignment of the configuration pages.
    pub fn new(layout: ConfigLayout) -> (tag: Ntag216)
        ensures
            tag.layout == layout,
    {
        Ntag216 { layout }
    }

    /// Reads the four bytes of page `block` with a single request.
    pub fn read_block<R: NfcCard>(&self, card: &mut LibnfcCardWrapper<R>, block: u8) -> (r: Result<
        [u8; 4],
        TagError,
    >)
        ensures
            extends(old(card).log(), final(card).log()),
            read_trace(block, appended(old(card).log(), final(card).log()), page_view(r)),
    {
        let apdu = read_apdu(block);
        let answer = card.transmit(apdu.as_slice());
        proof {
            let e = card.log().last();
            assert(card.log() =~= old(card).log() + seq![e]);
            lemma_grew_by(old(card).log(), card.log(), seq![e]);
        }
        match answer {
            Err(e) => Err(TagError::Read(e)),
            Ok(bytes) => {
                if bytes.len() == 4 {
                    let page = [bytes[0], bytes[1], bytes[2], bytes[3]];
                    assert(page@ =~= bytes@);
                    Ok(page)
                } else if bytes.len() < 4 {
                    Err(TagError::ShortRead)
                } else {
                    Err(TagError::Read(TransportError::MalformedResponse))
                }
            },
        }
    }

    /// Writes `data` to page `block` with a single request. `password` only
    /// tells whether the caller has authenticated: the request is the same
    /// either way, and a permission-denied refusal is reported as
    /// [`TagError::PasswordRequired`] when it is `None`.
    pub fn write_block_with_password<R: NfcCard>(
        &self,
        card: &mut LibnfcCardWrapper<R>,
        block: u8,
        data: &[u8; 4],
        password: Option<&[u8; 4]>,
    ) -> (r: Result<(), TagError>)
        ensures
            extends(old(card).log(), final(card).log()),
            write_trace(
                block,
                data@,
                password is Some,
                appended(old(card).log(), final(card).log()),
                r,
            ),
    {
        let apdu = write_apdu(block, data);
        let answer = card.transmit(apdu.as_slice());
        proof {
            let e = card.log().last();
            assert(card.log() =~= old(card).log() + seq![e]);
            lemma_grew_by(old(card).log(), card.log(), seq![e]);
        }
        match answer {
            Ok(_) => Ok(()),
            Err(TransportError::Status { sw1, sw2 }) => {
                if sw1 == SW1_DENIED && password.is_none() {
                    Err(TagError::PasswordRequired)
                } else {
                    Err(TagError::Write(TransportError::Status { sw1, sw2 }))
                }
            },
            Err(e) => Err(TagError::Write(e)),
        }
    }

    /// Reads the pages listed in `pages`, in that order, one request each,
    /// and gives up at the first that fails.
    pub fn read_pages<R: NfcCard>(&self, card: &mut LibnfcCardWrapper<R>, pages: &[u8]) -> (r:
        Result<Vec<[u8; 4]>, TagError>)
        ensures
            extends(old(card).log(), final(card).log()),
            reads_run(pages@, appended(old(card).log(), final(card).log())),
            pages_view(r) == reads_result(appended(old(card).log(), final(card).log())),
            r is Ok ==> appended(old(card).log(), final(card).log()).len() == pages@.len(),
            r matches Ok(v) ==> v@.len() == pages@.len(),
    {
        let ghost log0 = card.log();
        let mut out: Vec<[u8; 4]> = Vec::new();
        let mut i: usize = 0;
        proof {
            lemma_grew_by(log0, card.log(), Seq::empty());
        }
        while i < pages.len()
            invariant
                log0 == old(card).log(),
                i <= pages@.len(),
                extends(log0, card.log()),
                appended(log0, card.log()).len() == i,
                out@.len() == i,
                forall|j: int|
                    0 <= j < i ==> (#[trigger] appended(log0, card.log())[j]).command
                        == read_command(pages@[j]),
                forall|j: int|
                    0 <= j < i ==> page_of(reply(#[trigger] appended(log0, card.log())[j])) == Ok::<
                        Seq<u8>,
                        TagError,
                    >(out@[j]@),
            decreases pages@.len() - i,
        {
            let ghost mid = card.log();
            let got = self.read_block(card, pages[i]);
            proof {
                let t = appended(mid, card.log());
                crate::pages::lemma_extends_grew(mid, card.log());
                lemma_grew_twice(log0, mid, card.log(), t);
                assert(appended(log0, card.log()) =~= appended(log0, mid).push(t[0]));
            }
            match got {
                Ok(page) => {
                    out.push(page);
                },
                Err(e) => {
                    return Err(e);
                },
            }
            i = i + 1;
        }
        proof {
            let t = appended(log0, card.log());
            assert(pages_view(Ok(out))->Ok_0 =~= reads_result(t)->Ok_0);
        }
        Ok(out)
    }

    /// Writes `data[i]` to page `pages[i]` for each `i`, in order, one
    /// request each, and gives up at the first write that fails.
    pub(crate) fn write_pages<R: NfcCard>(
        &self,
        card: &mut LibnfcCardWrapper<R>,
        pages: &[u8],
        data: &[[u8; 4]],
        authenticated: bool,
    ) -> (r: Result<(), TagError>)
        requires
            pages@.len() == data@.len(),
        ensures
            extends(old(card).log(), final(card).log()),
            writes_run(
                pages@,
                page_list(data@),
                authenticated,
                appended(old(card).log(), final(card).log()),
            ),
            r == writes_result(authenticated, appended(old(card).log(), final(card).log())),
            r is Ok ==> appended(old(card).log(), final(card).log()).len() == pages@.len(),
    {
        let ghost log0 = card.log();
        let mut i: usize = 0;
        let password: [u8; 4] = [0u8, 0u8, 0u8, 0u8];
        proof {
            lemma_grew_by(log0, card.log(), Seq::empty());
        }
        while i < pages.len()
            invariant
                log0 == old(card).log(),
                pages@.len() == data@.len(),
                i <= pages@.len(),
                extends(log0, card.log()),
                appended(log0, card.log()).len() == i,
                forall|j: int|
                    0 <= j < i ==> (#[trigger] appended(log0, card.log())[j]).command
                        == write_command(pages@[j], page_list(data@)[j]),
                forall|j: int|
                    0 <= j < i ==> write_outcome(
                        reply(#[trigger] appended(log0, card.log())[j]),
                        authenticated,
                    ) is Ok,
            decreases pages@.len() - i,
        {
            let ghost mid = card.log();
            let done = if authenticated {
                self.write_block_with_password(card, pages[i], &data[i], Some(&password))
            } else {
                self.write_block_with_password(card, pages[i], &data[i], None)
            };
            proof {
                let t = appended(mid, card.log());
                crate::pages::lemma_extends_grew(mid, card.log());
                lemma_grew_twice(log0, mid, card.log(), t);
                assert(appended(log0, card.log()) =~= appended(log0, mid).push(t[0]));
            }
            match done {
                Ok(()) => {},
                Err(e) => {
                    return Err(e);
                },
            }
            i = i + 1;
        }
        Ok(())
    }

    /// Writes `data` to page `block` without having authenticated.
    pub fn write_block<R: NfcCard>(
        &self,
        card: &mut LibnfcCardWrapper<R>,
        block: u8,
        data: &[u8; 4],
    ) -> (r: Result<(), TagError>)
        ensures
            extends(old(card).log(), final(card).log()),
            write_trace(block, data@, false, appended(old(card).log(), final(card).log()), r),
    {
        self.write_block_with_password(card, block, data, None)
    }
}

} // verus!
