//! The framer: locating the NDEF message in the pages of the tag, and writing
//! one with every page read back.

use vstd::prelude::*;
use crate::access::{
    after_auth, auth_first, auth_first_result, has_magic, lemma_auth_alone, lemma_auth_then,
    password_view,
};
use crate::bytes::append;
use crate::command::{read_command, write_command};
use crate::error::TagError;
use crate::layout::{CC_MAGIC, CC_PAGE, FIRST_USER_PAGE, USER_BYTES};
use crate::pages::{
    lemma_extends_grew, lemma_grew_by, lemma_grew_twice, page_of, write_outcome, Ntag216,
};
use crate::tlv::{build_tlv, framed, scan, scan_tlv, Scan, ScanOutcome};
use crate::transport::{appended, extends, reply, Exchange, LibnfcCardWrapper, NfcCard};

verus! {

/// The number of pages in the user-data area.
pub const USER_PAGES: usize = 126;

/// The capability container that is written where a tag has none: the magic
/// value, version 1.0, the size of the user-data area in units of eight
/// bytes, and free access.
pub open spec fn cc_default() -> Seq<u8> {
    seq![CC_MAGIC, 0x10u8, 0x3Fu8, 0x00u8]
}

/// The four bytes of `data` that go to the page at position `i`.
pub open spec fn chunk(data: Seq<u8>, i: int) -> Seq<u8> {
    data.subrange(4 * i, 4 * i + 4)
}

/// The bytes that the first `k` reads of `pages` delivered, page after page.
pub open spec fn area_of(pages: Seq<Exchange>, k: int) -> Seq<u8>
    decreases k,
{
    if k <= 0 {
        Seq::empty()
    } else {
        area_of(pages, k - 1) + page_of(reply(pages[k - 1]))->Ok_0
    }
}

/// The mathematical content of a message that was read.
pub open spec fn message_view(r: Result<Option<Vec<u8>>, TagError>) -> Result<
    Option<Seq<u8>>,
    TagError,
> {
    match r {
        Ok(Some(message)) => Ok(Some(message@)),
        Ok(None) => Ok(None),
        Err(e) => Err(e),
    }
}

/// `pages` reads the user-data area from its first page on, one page after
/// the other, for as long as the scan of what has been read needs more; the
/// last read either fails or lets the scan decide on `result`.
pub open spec fn scan_trace(pages: Seq<Exchange>, result: Result<Option<Seq<u8>>, TagError>) -> bool {
    let n = pages.len() as int;
    &&& 1 <= n <= USER_PAGES
    &&& forall|j: int|
        0 <= j < n ==> (#[trigger] pages[j]).command == read_command((FIRST_USER_PAGE + j) as u8)
    &&& forall|j: int|
        0 <= j < n - 1 ==> page_of(reply(#[trigger] pages[j])) is Ok && scan_tlv(
            area_of(pages, j + 1),
            0,
        ) is NeedMore
    &&& match page_of(reply(pages[n - 1])) {
        Err(e) => result == Err::<Option<Seq<u8>>, TagError>(e),
        Ok(_) => scan_tlv(area_of(pages, n), 0) == Scan::Done(result),
    }
}

/// `trace` reads the NDEF message: first the capability container, and, if
/// it has the magic value, the user-data area as [`scan_trace`] describes.
/// A capability container without the magic value means that there is no
/// message, which is not an error.
pub open spec fn read_message_trace(
    trace: Seq<Exchange>,
    result: Result<Option<Seq<u8>>, TagError>,
) -> bool {
    &&& trace.len() >= 1
    &&& trace[0].command == read_command(CC_PAGE)
    &&& match page_of(reply(trace[0])) {
        Err(e) => trace.len() == 1 && result == Err::<Option<Seq<u8>>, TagError>(e),
        Ok(cc) => if has_magic(cc) {
            scan_trace(trace.skip(1), result)
        } else {
            trace.len() == 1 && result == Ok::<Option<Seq<u8>>, TagError>(None)
        },
    }
}

/// The command of step `j` of a verified write: the steps with even numbers
/// write a page, and each following step reads that page back.
pub open spec fn step_command(first: u8, data: Seq<u8>, j: int) -> Seq<u8> {
    if j % 2 == 0 {
        write_command((first + j / 2) as u8, chunk(data, j / 2))
    } else {
        read_command((first + j / 2) as u8)
    }
}

/// How step `j` of a verified write ended: a write as the page store reports
/// it, and a read-back with the failure of the read, with
/// [`TagError::VerifyFailed`] for the page if it does not hold what was
/// written, and with success if it does.
pub open spec fn step_result(
    first: u8,
    data: Seq<u8>,
    authenticated: bool,
    trace: Seq<Exchange>,
    j: int,
) -> Result<(), TagError> {
    if j % 2 == 0 {
        write_outcome(reply(trace[j]), authenticated)
    } else {
        match page_of(reply(trace[j])) {
            Err(e) => Err(e),
            Ok(page) => if page == chunk(data, j / 2) {
                Ok(())
            } else {
                Err(TagError::VerifyFailed { page: (first + j / 2) as u8 })
            },
        }
    }
}

/// `trace` writes `data` page by page from page `first` on and reads every
/// page back right after writing it. The first step that does not succeed
/// is the last step, and its failure is the result; nothing is written after
/// it.
pub open spec fn verified_writes(
    first: u8,
    data: Seq<u8>,
    authenticated: bool,
    trace: Seq<Exchange>,
    result: Result<(), TagError>,
) -> bool {
    let m = trace.len() as int;
    &&& m <= 2 * (data.len() / 4)
    &&& forall|j: int| 0 <= j < m ==> (#[trigger] trace[j]).command == step_command(first, data, j)
    &&& forall|j: int|
        0 <= j < m - 1 ==> #[trigger] step_result(first, data, authenticated, trace, j) is Ok
    &&& result == (if m == 0 {
        Ok(())
    } else {
        step_result(first, data, authenticated, trace, m - 1)
    })
    &&& m < 2 * (data.len() / 4) ==> result is Err
}

/// What follows the look at the capability container when a message is
/// written: the container itself where it lacks the magic value, whatever
/// comes of that write, and then the pages of the message.
pub open spec fn write_pages_trace(
    cc: Seq<u8>,
    data: Seq<u8>,
    authenticated: bool,
    rest: Seq<Exchange>,
    result: Result<(), TagError>,
) -> bool {
    if has_magic(cc) {
        verified_writes(FIRST_USER_PAGE, data, authenticated, rest, result)
    } else {
        &&& rest.len() >= 1
        &&& rest[0].command == write_command(CC_PAGE, cc_default())
        &&& verified_writes(FIRST_USER_PAGE, data, authenticated, rest.skip(1), result)
    }
}

/// `trace` writes `message`. A message that does not fit is refused before
/// anything is sent. Otherwise the capability container is read, and written
/// if it lacks the magic value; then the framed message is written as
/// [`verified_writes`] describes.
pub open spec fn write_message_trace(
    message: Seq<u8>,
    authenticated: bool,
    trace: Seq<Exchange>,
    result: Result<(), TagError>,
) -> bool {
    match framed(message) {
        Err(e) => trace.len() == 0 && result == Err::<(), TagError>(e),
        Ok(data) => {
            &&& trace.len() >= 1
            &&& trace[0].command == read_command(CC_PAGE)
            &&& match page_of(reply(trace[0])) {
                Err(e) => trace.len() == 1 && result == Err::<(), TagError>(e),
                Ok(cc) => write_pages_trace(cc, data, authenticated, trace.skip(1), result),
            }
        },
    }
}

/// `trace` writes `message` after authenticating with the password, if one
/// is given. A message that does not fit is refused before anything is sent,
/// and a failed authentication is the result.
pub open spec fn write_message_with_password_trace(
    pwd_page: u8,
    message: Seq<u8>,
    password: Option<Seq<u8>>,
    trace: Seq<Exchange>,
    result: Result<(), TagError>,
) -> bool {
    match password {
        None => write_message_trace(message, false, trace, result),
        Some(pwd) => if framed(message) is Err {
            trace.len() == 0 && result == Err::<(), TagError>(framed(message)->Err_0)
        } else {
            &&& auth_first(pwd_page, pwd, trace)
            &&& match auth_first_result(trace) {
                Err(e) => after_auth(trace).len() == 0 && result == Err::<(), TagError>(e),
                Ok(_) => write_message_trace(message, true, after_auth(trace), result),
            }
        },
    }
}

/// A scan of the whole user-data area always decides.
pub proof fn lemma_scan_full(bytes: Seq<u8>, pos: int)
    requires
        bytes.len() >= USER_BYTES,
        0 <= pos,
    ensures
        scan_tlv(bytes, pos) is Done,
    decreases USER_BYTES - pos,
{
    if pos < USER_BYTES && bytes[pos] == crate::tlv::TLV_NULL {
        lemma_scan_full(bytes, pos + 1);
    }
}

/// The bytes that reads delivered do not depend on what was exchanged after
/// them.
pub proof fn lemma_area_push(pages: Seq<Exchange>, e: Exchange, k: int)
    requires
        0 <= k <= pages.len(),
    ensures
        area_of(pages.push(e), k) == area_of(pages, k),
    decreases k,
{
    if k > 0 {
        lemma_area_push(pages, e, k - 1);
    }
}

impl Ntag216 {
    /// Writes `data` page by page from page `first` on, and reads every page
    /// back right after writing it. The first failure ends the writing: a
    /// failed write or read, or a page that does not hold what was written.
    pub(crate) fn write_verified<R: NfcCard>(
        &self,
        card: &mut LibnfcCardWrapper<R>,
        first: u8,
        data: &[u8],
        authenticated: bool,
    ) -> (r: Result<(), TagError>)
        requires
            data@.len() % 4 == 0,
            first + data@.len() / 4 <= 256,
        ensures
            extends(old(card).log(), final(card).log()),
            verified_writes(
                first,
                data@,
                authenticated,
                appended(old(card).log(), final(card).log()),
                r,
            ),
    {
        let ghost log0 = card.log();
        let n: usize = data.len() / 4;
        let key: [u8; 4] = [0u8, 0u8, 0u8, 0u8];
        let mut i: usize = 0;
        proof {
            lemma_grew_by(log0, card.log(), Seq::empty());
        }
        while i < n
            invariant
                log0 == old(card).log(),
                n == data@.len() / 4,
                data@.len() % 4 == 0,
                first + n <= 256,
                i <= n,
                extends(log0, card.log()),
                appended(log0, card.log()).len() == 2 * i,
                forall|j: int|
                    0 <= j < 2 * i ==> (#[trigger] appended(log0, card.log())[j]).command
                        == step_command(first, data@, j),
                forall|j: int|
                    0 <= j < 2 * i ==> #[trigger] step_result(
                        first,
                        data@,
                        authenticated,
                        appended(log0, card.log()),
                        j,
                    ) is Ok,
            decreases n - i,
        {
            let page: u8 = (first as usize + i) as u8;
            let bytes: [u8; 4] = [data[4 * i], data[4 * i + 1], data[4 * i + 2], data[4 * i + 3]];
            assert(bytes@ =~= chunk(data@, i as int));
            let ghost log1 = card.log();
            let ghost t1 = appended(log0, log1);
            let written = if authenticated {
                self.write_block_with_password(card, page, &bytes, Some(&key))
            } else {
                self.write_block_with_password(card, page, &bytes, None)
            };
            let ghost log2 = card.log();
            let ghost t2 = appended(log0, log2);
            proof {
                let t = appended(log1, log2);
                lemma_extends_grew(log1, log2);
                lemma_grew_twice(log0, log1, log2, t);
                assert(t2 =~= t1.push(t[0]));
                assert forall|j: int| 0 <= j < 2 * i implies #[trigger] step_result(
                    first,
                    data@,
                    authenticated,
                    t2,
                    j,
                ) is Ok by {
                    assert(t2[j] == t1[j]);
                    assert(step_result(first, data@, authenticated, t1, j) is Ok);
                }
                assert(step_command(first, data@, 2 * i) == write_command(page, bytes@));
            }
            match written {
                Err(e) => {
                    return Err(e);
                },
                Ok(()) => {},
            }
            let seen = self.read_block(card, page);
            let ghost log3 = card.log();
            let ghost t3 = appended(log0, log3);
            proof {
                let t = appended(log2, log3);
                lemma_extends_grew(log2, log3);
                lemma_grew_twice(log0, log2, log3, t);
                assert(t3 =~= t2.push(t[0]));
                assert forall|j: int| 0 <= j < 2 * i + 1 implies #[trigger] step_result(
                    first,
                    data@,
                    authenticated,
                    t3,
                    j,
                ) is Ok by {
                    assert(t3[j] == t2[j]);
                    if j < 2 * i {
                        assert(step_result(first, data@, authenticated, t2, j) is Ok);
                    }
                }
                assert(step_command(first, data@, 2 * i + 1) == read_command(page));
            }
            match seen {
                Err(e) => {
                    return Err(e);
                },
                Ok(got) => {
                    if got[0] != bytes[0] || got[1] != bytes[1] || got[2] != bytes[2] || got[3]
                        != bytes[3] {
                        assert(got@ != bytes@);
                        return Err(TagError::VerifyFailed { page });
                    }
                    assert(got@ =~= bytes@);
                },
            }
            i = i + 1;
        }
        Ok(())
    }

    /// Reads the NDEF message as raw record bytes. A tag whose capability
    /// container lacks the magic value has no message, and neither has one
    /// whose TLV stream ends before a message or holds an empty one.
    pub fn read_ndef_raw<R: NfcCard>(&self, card: &mut LibnfcCardWrapper<R>) -> (r: Result<
        Option<Vec<u8>>,
        TagError,
    >)
        ensures
            extends(old(card).log(), final(card).log()),
            read_message_trace(appended(old(card).log(), final(card).log()), message_view(r)),
    {
        let ghost log0 = card.log();
        let cc = self.read_block(card, CC_PAGE)?;
        if cc[0] != CC_MAGIC {
            return Ok(None);
        }
        let ghost log1 = card.log();
        let mut area: Vec<u8> = Vec::new();
        let mut i: usize = 0;
        proof {
            lemma_grew_by(log1, card.log(), Seq::empty());
        }
        while i < USER_PAGES
            invariant
                log0 == old(card).log(),
                extends(log0, log1),
                appended(log0, log1).len() == 1,
                appended(log0, log1)[0].command == read_command(CC_PAGE),
                page_of(reply(appended(log0, log1)[0])) == Ok::<Seq<u8>, TagError>(cc@),
                has_magic(cc@),
                i <= USER_PAGES,
                extends(log1, card.log()),
                appended(log1, card.log()).len() == i,
                area@.len() == 4 * i,
                area@ == area_of(appended(log1, card.log()), i as int),
                forall|j: int|
                    0 <= j < i ==> (#[trigger] appended(log1, card.log())[j]).command
                        == read_command((FIRST_USER_PAGE + j) as u8),
                forall|j: int|
                    0 <= j < i ==> page_of(reply(#[trigger] appended(log1, card.log())[j])) is Ok
                        && scan_tlv(area_of(appended(log1, card.log()), j + 1), 0) is NeedMore,
            decreases USER_PAGES - i,
        {
            let ghost mid = card.log();
            let ghost before = appended(log1, mid);
            let page: u8 = (FIRST_USER_PAGE as usize + i) as u8;
            let got = self.read_block(card, page);
            let ghost now = appended(log1, card.log());
            proof {
                let t = appended(mid, card.log());
                lemma_extends_grew(mid, card.log());
                lemma_grew_twice(log1, mid, card.log(), t);
                assert(now =~= before.push(t[0]));
                assert forall|j: int| 0 <= j < i implies page_of(reply(#[trigger] now[j])) is Ok
                    && scan_tlv(area_of(now, j + 1), 0) is NeedMore by {
                    assert(now[j] == before[j]);
                    lemma_area_push(before, t[0], j + 1);
                }
                lemma_area_push(before, t[0], i as int);
                lemma_extends_grew(log1, card.log());
                lemma_grew_twice(log0, log1, card.log(), now);
                assert((appended(log0, log1) + now).skip(1) =~= now);
            }
            let bytes = match got {
                Err(e) => {
                    return Err(e);
                },
                Ok(bytes) => bytes,
            };
            append(&mut area, bytes.as_slice());
            match scan(area.as_slice()) {
                ScanOutcome::Done(result) => {
                    return result;
                },
                ScanOutcome::NeedMore => {},
            }
            i = i + 1;
        }
        proof {
            lemma_scan_full(area@, 0);
        }
        Err(TagError::Frame)
    }

    /// Writes `message` as the NDEF message of the tag, reading every page
    /// back after writing it. `authenticated` tells whether the caller has
    /// authenticated, which only decides how a refusal is reported.
    pub fn write_message<R: NfcCard>(
        &self,
        card: &mut LibnfcCardWrapper<R>,
        message: &[u8],
        authenticated: bool,
    ) -> (r: Result<(), TagError>)
        ensures
            extends(old(card).log(), final(card).log()),
            write_message_trace(
                message@,
                authenticated,
                appended(old(card).log(), final(card).log()),
                r,
            ),
    {
        let ghost log0 = card.log();
        let data = match build_tlv(message) {
            Err(e) => {
                proof {
                    lemma_grew_by(log0, card.log(), Seq::empty());
                }
                return Err(e);
            },
            Ok(data) => data,
        };
        let cc = self.read_block(card, CC_PAGE)?;
        let ghost log1 = card.log();
        if cc[0] != CC_MAGIC {
            let fresh: [u8; 4] = [CC_MAGIC, 0x10u8, 0x3Fu8, 0x00u8];
            assert(fresh@ =~= cc_default());
            let _ = self.write_block(card, CC_PAGE, &fresh);
        }
        let ghost log2 = card.log();
        let r = self.write_verified(card, FIRST_USER_PAGE, data.as_slice(), authenticated);
        proof {
            let t1 = appended(log0, log1);
            let t3 = appended(log2, card.log());
            lemma_extends_grew(log2, card.log());
            if has_magic(cc@) {
                assert(log2 == log1);
                lemma_grew_twice(log0, log1, card.log(), t3);
                assert((t1 + t3).skip(1) =~= t3);
            } else {
                let t2 = appended(log1, log2);
                lemma_extends_grew(log1, log2);
                lemma_grew_twice(log0, log1, log2, t2);
                lemma_grew_twice(log0, log2, card.log(), t3);
                let rest = (t1 + t2 + t3).skip(1);
                assert(rest =~= t2 + t3);
                assert(rest[0] == t2[0]);
                assert(rest.skip(1) =~= t3);
            }
        }
        r
    }

    /// Writes `message` as the NDEF message of the tag without having
    /// authenticated.
    pub fn write_ndef_message<R: NfcCard>(
        &self,
        card: &mut LibnfcCardWrapper<R>,
        ndef_message: &[u8],
    ) -> (r: Result<(), TagError>)
        ensures
            extends(old(card).log(), final(card).log()),
            write_message_trace(
                ndef_message@,
                false,
                appended(old(card).log(), final(card).log()),
                r,
            ),
    {
        self.write_message(card, ndef_message, false)
    }

    /// Writes `message` as the NDEF message of the tag, after authenticating
    /// with `password` if one is given. A message that does not fit is
    /// refused before anything is sent.
    pub fn write_ndef_message_with_password<R: NfcCard>(
        &self,
        card: &mut LibnfcCardWrapper<R>,
        ndef_message: &[u8],
        password: Option<&[u8; 4]>,
    ) -> (r: Result<(), TagError>)
        ensures
            extends(old(card).log(), final(card).log()),
            write_message_with_password_trace(
                self.layout.pwd,
                ndef_message@,
                password_view(password),
                appended(old(card).log(), final(card).log()),
                r,
            ),
    {
        let ghost log0 = card.log();
        match password {
            None => self.write_message(card, ndef_message, false),
            Some(pwd) => {
                if ndef_message.len() > crate::tlv::MAX_MESSAGE_BYTES {
                    proof {
                        crate::tlv::law_frame_form(ndef_message@);
                        lemma_grew_by(log0, card.log(), Seq::empty());
                    }
                    return Err(TagError::CapacityExceeded);
                }
                proof {
                    crate::tlv::law_frame_form(ndef_message@);
                }
                match self.authenticate_password(card, pwd) {
                    Err(e) => {
                        proof {
                            lemma_auth_alone(appended(log0, card.log()));
                        }
                        return Err(e);
                    },
                    Ok(_) => {},
                }
                let ghost mid = card.log();
                let r = self.write_message(card, ndef_message, true);
                proof {
                    let t = appended(mid, card.log());
                    lemma_extends_grew(mid, card.log());
                    lemma_grew_twice(log0, mid, card.log(), t);
                    lemma_auth_then(appended(log0, mid), t);
                }
                r
            },
        }
    }
}

} // verus!
