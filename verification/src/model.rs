//! A tag as plain memory, and what the traces of the operations mean on it.
//!
//! The operations are specified by the exchanges they make. What they do to
//! a tag follows only once it is said how the tag answers. The model here is
//! the simplest tag there is: 135 pages that can be read and written, with
//! no protection. The laws of the crate that speak of a tag are stated
//! against it.

use vstd::prelude::*;
use crate::access::{
    cleared_data, password_data, password_pages, protect_bit, protected_trace,
    configured_trace, remove_password_trace, set_password_trace,
};
use crate::command::{read_command, write_command};
use crate::error::TagError;
use crate::layout::ConfigLayout;
use crate::pages::{page_of, write_outcome, writes_result, writes_run};
use crate::transport::{reply, Exchange};

verus! {

/// The number of pages of the tag.
pub const PAGES: usize = 135;

/// The memory of a tag: its pages in order.
pub type TagModel = Seq<Seq<u8>>;

/// A memory of 135 pages of four bytes.
pub open spec fn model_wf(m: TagModel) -> bool {
    m.len() == PAGES && forall|p: int| 0 <= p < PAGES ==> (#[trigger] m[p]).len() == 4
}

/// Whether `cmd` asks to read a page that exists.
pub open spec fn is_read(cmd: Seq<u8>) -> bool {
    cmd.len() == 5 && cmd[0] == 0xFF && cmd[1] == 0xB0 && cmd[2] == 0x00 && cmd[3] < PAGES
        && cmd[4] == 0x04
}

/// Whether `cmd` asks to write a page that exists.
pub open spec fn is_write(cmd: Seq<u8>) -> bool {
    cmd.len() == 9 && cmd[0] == 0xFF && cmd[1] == 0xD6 && cmd[2] == 0x00 && cmd[3] < PAGES
        && cmd[4] == 0x04
}

/// The raw response of the memory to `cmd`: the page and the success status
/// for a read, the success status for a write, and a refusal for anything
/// else.
pub open spec fn answer(m: TagModel, cmd: Seq<u8>) -> Seq<u8> {
    if is_read(cmd) {
        m[cmd[3] as int] + seq![0x90u8, 0x00u8]
    } else if is_write(cmd) {
        seq![0x90u8, 0x00u8]
    } else {
        seq![0x6Au8, 0x81u8]
    }
}

/// The memory after `cmd`: a write replaces its page, and nothing else
/// changes anything.
pub open spec fn next(m: TagModel, cmd: Seq<u8>) -> TagModel {
    if is_write(cmd) {
        m.update(cmd[3] as int, cmd.skip(5))
    } else {
        m
    }
}

/// The memory after the exchanges of `trace`.
pub open spec fn after(m: TagModel, trace: Seq<Exchange>) -> TagModel
    decreases trace.len(),
{
    if trace.len() == 0 {
        m
    } else {
        next(after(m, trace.drop_last()), trace.last().command)
    }
}

/// Whether every response in `trace` is the one that the memory gives,
/// beginning with the memory `m`.
pub open spec fn obeys(m: TagModel, trace: Seq<Exchange>) -> bool
    decreases trace.len(),
{
    trace.len() == 0 || (obeys(m, trace.drop_last()) && trace.last().raw == Ok::<Seq<u8>, i64>(
        answer(after(m, trace.drop_last()), trace.last().command),
    ))
}

/// A well-formed memory stays well-formed.
pub proof fn lemma_after_wf(m: TagModel, trace: Seq<Exchange>)
    requires
        model_wf(m),
    ensures
        model_wf(after(m, trace)),
    decreases trace.len(),
{
    if trace.len() > 0 {
        lemma_after_wf(m, trace.drop_last());
        let before = after(m, trace.drop_last());
        let cmd = trace.last().command;
        if is_write(cmd) {
            assert(cmd.skip(5).len() == 4);
            assert forall|p: int| 0 <= p < PAGES implies (#[trigger] next(before, cmd)[p]).len()
                == 4 by {
                if p != cmd[3] as int {
                    assert(next(before, cmd)[p] == before[p]);
                }
            }
        }
    }
}

/// A trace that the memory obeys falls into a first part that it obeys and
/// a rest that the memory after the first part obeys.
pub proof fn lemma_obeys_split(m: TagModel, trace: Seq<Exchange>, k: int)
    requires
        obeys(m, trace),
        0 <= k <= trace.len(),
    ensures
        obeys(m, trace.take(k)),
        obeys(after(m, trace.take(k)), trace.skip(k)),
        after(after(m, trace.take(k)), trace.skip(k)) == after(m, trace),
    decreases trace.len(),
{
    if k == trace.len() {
        assert(trace.take(k) =~= trace);
        assert(trace.skip(k).len() == 0);
    } else {
        let shorter = trace.drop_last();
        lemma_obeys_split(m, shorter, k);
        assert(shorter.take(k) =~= trace.take(k));
        assert(trace.skip(k).drop_last() =~= shorter.skip(k));
        assert(trace.skip(k).last() == trace.last());
    }
}

/// What an obeyed read delivers: the page as the memory holds it, and the
/// memory is not changed.
pub proof fn lemma_read(m: TagModel, e: Exchange, page: u8)
    requires
        model_wf(m),
        page < PAGES,
        e.command == read_command(page),
        e.raw == Ok::<Seq<u8>, i64>(answer(m, e.command)),
    ensures
        page_of(reply(e)) == Ok::<Seq<u8>, TagError>(m[page as int]),
        next(m, e.command) == m,
{
    let cmd = read_command(page);
    assert(is_read(cmd));
    let raw = m[page as int] + seq![0x90u8, 0x00u8];
    assert(raw.len() == 6);
    assert(raw[4] == 0x90 && raw[5] == 0x00);
    assert(raw.take(4) =~= m[page as int]);
}

/// What an obeyed write does: it succeeds and replaces its page.
pub proof fn lemma_write(m: TagModel, e: Exchange, page: u8, data: Seq<u8>, authenticated: bool)
    requires
        model_wf(m),
        page < PAGES,
        data.len() == 4,
        e.command == write_command(page, data),
        e.raw == Ok::<Seq<u8>, i64>(answer(m, e.command)),
    ensures
        write_outcome(reply(e), authenticated) == Ok::<(), TagError>(()),
        next(m, e.command) == m.update(page as int, data),
{
    let cmd = write_command(page, data);
    assert(is_write(cmd));
    assert(!is_read(cmd));
    assert(cmd.skip(5) =~= data);
    let raw = seq![0x90u8, 0x00u8];
    assert(raw.take(0) =~= Seq::<u8>::empty());
}

/// The memory after a trace of one exchange.
pub proof fn lemma_single(m: TagModel, trace: Seq<Exchange>)
    requires
        trace.len() == 1,
    ensures
        after(m, trace) == next(m, trace[0].command),
        obeys(m, trace) <==> trace[0].raw == Ok::<Seq<u8>, i64>(answer(m, trace[0].command)),
{
    assert(trace.drop_last().len() == 0);
    assert(after(m, trace.drop_last()) == m);
    assert(obeys(m, trace.drop_last()));
}

/// A run of obeyed writes that ended well has written every page: the last
/// write to a page decides what the page holds.
pub proof fn lemma_writes(
    m: TagModel,
    pages: Seq<u8>,
    data: Seq<Seq<u8>>,
    authenticated: bool,
    trace: Seq<Exchange>,
    n: int,
)
    requires
        model_wf(m),
        obeys(m, trace),
        pages.len() == data.len(),
        forall|i: int| 0 <= i < pages.len() ==> #[trigger] pages[i] < PAGES,
        forall|i: int| 0 <= i < data.len() ==> (#[trigger] data[i]).len() == 4,
        writes_run(pages, data, authenticated, trace),
        0 <= n <= trace.len(),
    ensures
        model_wf(after(m, trace.take(n))),
        forall|i: int|
            0 <= i < n ==> write_outcome(reply(#[trigger] trace[i]), authenticated) is Ok,
        n > 0 ==> after(m, trace.take(n)) == after(m, trace.take(n - 1)).update(
            pages[n - 1] as int,
            data[n - 1],
        ),
    decreases n,
{
    lemma_after_wf(m, trace.take(n));
    if n > 0 {
        lemma_writes(m, pages, data, authenticated, trace, n - 1);
        lemma_obeys_split(m, trace, n);
        let upto = trace.take(n);
        assert(upto.drop_last() =~= trace.take(n - 1));
        assert(upto.last() == trace[n - 1]);
        lemma_after_wf(m, trace.take(n - 1));
        lemma_write(
            after(m, trace.take(n - 1)),
            trace[n - 1],
            pages[n - 1],
            data[n - 1],
            authenticated,
        );
    }
}

/// Protection shows as switched on right after a password has been set:
/// whenever setting a password succeeds on a tag that answers as plain
/// memory, asking the same tag next whether it is protected gives yes.
pub proof fn law_protected_after_set_password(
    layout: ConfigLayout,
    m: TagModel,
    password: Seq<u8>,
    pack: Seq<u8>,
    auth_limit: u8,
    setting: Seq<Exchange>,
    asking: Seq<Exchange>,
    answer: Result<bool, TagError>,
)
    requires
        layout.wf(),
        model_wf(m),
        password.len() == 4,
        pack.len() == 2,
        set_password_trace(layout, password, pack, auth_limit, setting, Ok(())),
        obeys(m, setting),
        protected_trace(layout.access, asking, answer),
        obeys(after(m, setting), asking),
    ensures
        answer == Ok::<bool, TagError>(true),
{
    // the look at the lock page leaves a well-formed memory
    lemma_obeys_split(m, setting, 1);
    lemma_after_wf(m, setting.take(1));
    lemma_configured(
        layout,
        after(m, setting.take(1)),
        password,
        pack,
        auth_limit,
        setting.skip(1),
        asking,
        answer,
    );
}

/// What [`law_protected_after_set_password`] says, for the part of setting
/// a password that follows the look at the lock page.
pub proof fn lemma_configured(
    layout: ConfigLayout,
    m: TagModel,
    password: Seq<u8>,
    pack: Seq<u8>,
    auth_limit: u8,
    setting: Seq<Exchange>,
    asking: Seq<Exchange>,
    answer: Result<bool, TagError>,
)
    requires
        layout.wf(),
        model_wf(m),
        password.len() == 4,
        pack.len() == 2,
        configured_trace(layout, password, pack, auth_limit, setting, Ok(())),
        obeys(m, setting),
        protected_trace(layout.access, asking, answer),
        obeys(after(m, setting), asking),
    ensures
        answer == Ok::<bool, TagError>(true),
{
    let pages = password_pages(layout);
    let data = password_data(password, pack, auth_limit);
    assert(setting.len() == 5);
    let writes = setting.take(4);
    lemma_obeys_split(m, setting, 4);
    assert(writes.take(4) =~= writes);
    assert(writes.take(3) =~= setting.take(3));
    lemma_writes(m, pages, data, false, writes, 4);
    lemma_after_wf(m, writes.take(3));
    let m4 = after(m, writes);
    assert(pages[3] == layout.access);
    assert(m4[layout.access as int] == data[3]);
    // the confirming read changes nothing
    let last = setting.skip(4);
    lemma_single(m4, last);
    lemma_read(m4, last[0], layout.access);
    let m5 = after(m, setting);
    assert(m5 == m4);
    // the question is answered from the same page
    lemma_single(m5, asking);
    lemma_read(m5, asking[0], layout.access);
    assert(0x80u8 & 0x80u8 != 0) by (bit_vector);
    assert(protect_bit(data[3]));
}

/// Protection shows as switched off right after the password has been
/// cleared: whenever clearing succeeds on a tag that answers as plain
/// memory, asking the same tag next whether it is protected gives no.
pub proof fn law_unprotected_after_remove_password(
    layout: ConfigLayout,
    m: TagModel,
    clearing: Seq<Exchange>,
    asking: Seq<Exchange>,
    answer: Result<bool, TagError>,
)
    requires
        layout.wf(),
        model_wf(m),
        remove_password_trace(layout, clearing, Ok(())),
        obeys(m, clearing),
        protected_trace(layout.access, asking, answer),
        obeys(after(m, clearing), asking),
    ensures
        answer == Ok::<bool, TagError>(false),
{
    let pages = password_pages(layout);
    let data = cleared_data();
    if clearing.len() < 4 {
        // a run that stops early has failed
        assert(writes_result(false, clearing) is Err);
    }
    assert(clearing.len() == 4);
    assert(clearing.take(4) =~= clearing);
    lemma_writes(m, pages, data, false, clearing, 4);
    lemma_after_wf(m, clearing.take(3));
    let m4 = after(m, clearing);
    assert(pages[3] == layout.access);
    assert(m4[layout.access as int] == data[3]);
    lemma_single(m4, asking);
    lemma_read(m4, asking[0], layout.access);
    assert(0u8 & 0x80u8 == 0) by (bit_vector);
    assert(!protect_bit(data[3]));
}

} // verus!
