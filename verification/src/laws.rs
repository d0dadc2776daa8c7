//! What holds of the operations taken together: a failed verification stops
//! the writing at its page, a tag without the magic value has no message,
//! and what was written is what is read.

use vstd::prelude::*;
use crate::access::{auth_len, has_magic};
use crate::command::read_command;
use crate::error::TagError;
use crate::framer::{
    area_of, cc_default, chunk, read_message_trace, scan_trace, step_command, step_result,
    verified_writes, write_message_trace, USER_PAGES,
};
use crate::layout::{ConfigLayout, CC_PAGE, FIRST_USER_PAGE, USER_BYTES};
use crate::model::{
    after, answer, is_write, lemma_after_wf, lemma_obeys_split, lemma_read, lemma_write, model_wf,
    next, obeys, TagModel, PAGES,
};
use crate::ndef::record_bytes;
use crate::pages::{page_of, write_outcome};
use crate::record::{canonical, decode_spec, encode_spec, law_record_roundtrip, RecordModel};
use crate::session::{
    authenticated_trace, guarded_trace, integrity, read_back, read_record_trace, record_of,
    stored_at, stored_somewhere, stored_trace, write_record_trace, written_at,
};
use crate::tlv::{
    framed, law_frame_form, law_scan_framed, law_scan_stable, scan_tlv, tlv_bytes, Scan,
    MAX_MESSAGE_BYTES,
};
use crate::transport::{reply, Exchange};

verus! {

/// A page that reads back differently from what was written ends the
/// writing there and then: the read-back is the last exchange, so that no
/// further page is written, and the result names exactly that page.
pub proof fn law_verify_failed_stops(
    first: u8,
    data: Seq<u8>,
    authenticated: bool,
    trace: Seq<Exchange>,
    result: Result<(), TagError>,
    j: int,
)
    requires
        verified_writes(first, data, authenticated, trace, result),
        0 <= j < trace.len(),
        j % 2 == 1,
        page_of(reply(trace[j])) is Ok,
        page_of(reply(trace[j]))->Ok_0 != chunk(data, j / 2),
    ensures
        trace.len() == j + 1,
        result == Err::<(), TagError>(TagError::VerifyFailed { page: (first + j / 2) as u8 }),
{
    if j < trace.len() - 1 {
        assert(step_result(first, data, authenticated, trace, j) is Ok);
    }
}

/// A writing that ends with a failed verification ends with the read-back
/// of the page it names, and that page did not hold what was written to it.
pub proof fn law_verify_failed_page(
    first: u8,
    data: Seq<u8>,
    authenticated: bool,
    trace: Seq<Exchange>,
    page: u8,
)
    requires
        first + data.len() / 4 <= 256,
        verified_writes(
            first,
            data,
            authenticated,
            trace,
            Err(TagError::VerifyFailed { page }),
        ),
    ensures
        trace.len() > 0,
        trace.len() % 2 == 0,
        page == first + (trace.len() - 1) / 2,
        trace.last().command == read_command(page),
        page_of(reply(trace.last())) is Ok,
        page_of(reply(trace.last()))->Ok_0 != chunk(data, (trace.len() - 1) / 2),
{
    let m = trace.len() as int;
    assert(m > 0);
    let last = step_result(first, data, authenticated, trace, m - 1);
    if (m - 1) % 2 == 0 {
        // a write never fails for want of verification
        assert(last == write_outcome(reply(trace[m - 1]), authenticated));
    }
    assert(trace[m - 1].command == step_command(first, data, m - 1));
}

/// A tag whose capability container lacks the magic value has no message:
/// the read ends after that one page and reports that nothing is there,
/// which is not an error.
pub proof fn law_no_magic_no_message(
    trace: Seq<Exchange>,
    result: Result<Option<RecordModel>, TagError>,
)
    requires
        read_record_trace(trace, result),
        page_of(reply(trace[0])) is Ok,
        !has_magic(page_of(reply(trace[0]))->Ok_0),
    ensures
        trace.len() == 1,
        result == Ok::<Option<RecordModel>, TagError>(None),
{
}

/// The bytes of the user-data area of a memory.
pub open spec fn user_area(m: TagModel) -> Seq<u8> {
    Seq::new(USER_BYTES as nat, |j: int| m[FIRST_USER_PAGE + j / 4][j % 4])
}

/// Whether the user-data area of `m` begins with `data`, page by page.
pub open spec fn holds(m: TagModel, data: Seq<u8>) -> bool {
    forall|i: int| 0 <= i < data.len() / 4 ==> #[trigger] m[FIRST_USER_PAGE + i] == chunk(data, i)
}

/// Whether `m` is a tag on which `message` has been written: the capability
/// container has the magic value, and the user-data area begins with the
/// framed message.
pub open spec fn stored_in(m: TagModel, message: Seq<u8>) -> bool {
    &&& model_wf(m)
    &&& has_magic(m[CC_PAGE as int])
    &&& framed(message) is Ok
    &&& holds(m, framed(message)->Ok_0)
}

/// A trace without a write leaves the memory as it was.
pub proof fn lemma_reads_only(m: TagModel, trace: Seq<Exchange>)
    requires
        forall|j: int| 0 <= j < trace.len() ==> !is_write((#[trigger] trace[j]).command),
    ensures
        after(m, trace) == m,
    decreases trace.len(),
{
    if trace.len() > 0 {
        let shorter = trace.drop_last();
        assert forall|j: int| 0 <= j < shorter.len() implies !is_write(
            (#[trigger] shorter[j]).command,
        ) by {
            assert(shorter[j] == trace[j]);
        }
        lemma_reads_only(m, shorter);
        assert(trace.last() == trace[trace.len() - 1]);
    }
}

/// Reading the message leaves the memory as it was.
pub proof fn lemma_read_message_keeps(
    m: TagModel,
    trace: Seq<Exchange>,
    seen: Result<Option<Seq<u8>>, TagError>,
)
    requires
        read_message_trace(trace, seen),
    ensures
        after(m, trace) == m,
{
    assert forall|j: int| 0 <= j < trace.len() implies !is_write((#[trigger] trace[j]).command) by {
        if j == 0 {
            assert(trace[0].command.len() == 5);
        } else {
            let pages = trace.skip(1);
            assert(trace.len() > 1);
            assert(pages[j - 1] == trace[j]);
            assert(pages[j - 1].command == read_command((FIRST_USER_PAGE + (j - 1)) as u8));
            assert(trace[j].command.len() == 5);
        }
    }
    lemma_reads_only(m, trace);
}

/// The exchange at position `j` of an obeyed trace is answered by the memory
/// as it is after the exchanges before it.
pub proof fn lemma_obeys_at(m: TagModel, trace: Seq<Exchange>, j: int)
    requires
        obeys(m, trace),
        0 <= j < trace.len(),
    ensures
        trace[j].raw == Ok::<Seq<u8>, i64>(answer(after(m, trace.take(j)), trace[j].command)),
        after(m, trace.take(j + 1)) == next(after(m, trace.take(j)), trace[j].command),
{
    lemma_obeys_split(m, trace, j + 1);
    let upto = trace.take(j + 1);
    assert(upto.drop_last() =~= trace.take(j));
    assert(upto.last() == trace[j]);
}

/// The memory after the first pages of a verified writing: the pages
/// written hold what was written, and every other page is as it was.
pub proof fn lemma_verified_pages(
    m: TagModel,
    first: u8,
    data: Seq<u8>,
    authenticated: bool,
    trace: Seq<Exchange>,
    result: Result<(), TagError>,
    n: int,
)
    requires
        model_wf(m),
        obeys(m, trace),
        first + data.len() / 4 <= PAGES,
        verified_writes(first, data, authenticated, trace, result),
        0 <= n,
        2 * n <= trace.len(),
    ensures
        model_wf(after(m, trace.take(2 * n))),
        forall|i: int| 0 <= i < n ==> #[trigger] after(m, trace.take(2 * n))[first + i] == chunk(data, i),
        forall|p: int|
            0 <= p < PAGES && !(first <= p < first + n) ==> #[trigger] after(
                m,
                trace.take(2 * n),
            )[p] == m[p],
    decreases n,
{
    if n == 0 {
        assert(trace.take(0).len() == 0);
    } else {
        lemma_verified_pages(m, first, data, authenticated, trace, result, n - 1);
        let m0 = after(m, trace.take(2 * n - 2));
        let page: u8 = (first + n - 1) as u8;
        let bytes = chunk(data, n - 1);
        // the write
        lemma_obeys_at(m, trace, 2 * n - 2);
        assert(trace[2 * n - 2].command == step_command(first, data, 2 * n - 2));
        lemma_write(m0, trace[2 * n - 2], page, bytes, authenticated);
        let m1 = after(m, trace.take(2 * n - 1));
        assert(m1 == m0.update(page as int, bytes));
        lemma_after_wf(m, trace.take(2 * n - 1));
        // the read-back
        lemma_obeys_at(m, trace, 2 * n - 1);
        assert(trace[2 * n - 1].command == step_command(first, data, 2 * n - 1));
        lemma_read(m1, trace[2 * n - 1], page);
        let m2 = after(m, trace.take(2 * n));
        assert(m2 == m1);
        assert forall|i: int| 0 <= i < n implies #[trigger] m2[first + i] == chunk(data, i) by {
            if i < n - 1 {
                assert(m0[first + i] == chunk(data, i));
            }
        }
        assert forall|p: int| 0 <= p < PAGES && !(first <= p < first + n) implies #[trigger] m2[p]
            == m[p] by {
            assert(m0[p] == m[p]);
        }
    }
}

/// A verified writing that ended well has written every page of the data,
/// and has left every other page as it was.
pub proof fn lemma_verified_all(
    m: TagModel,
    data: Seq<u8>,
    authenticated: bool,
    trace: Seq<Exchange>,
)
    requires
        model_wf(m),
        obeys(m, trace),
        data.len() <= USER_BYTES,
        verified_writes(FIRST_USER_PAGE, data, authenticated, trace, Ok(())),
    ensures
        model_wf(after(m, trace)),
        holds(after(m, trace), data),
        after(m, trace)[CC_PAGE as int] == m[CC_PAGE as int],
{
    let n = (data.len() / 4) as int;
    assert(trace.len() == 2 * n);
    assert(trace.take(2 * n) =~= trace);
    lemma_verified_pages(m, FIRST_USER_PAGE, data, authenticated, trace, Ok(()), n);
}

/// Writing a message to a memory stores it there.
pub proof fn lemma_message_written(
    m: TagModel,
    message: Seq<u8>,
    authenticated: bool,
    trace: Seq<Exchange>,
)
    requires
        model_wf(m),
        obeys(m, trace),
        write_message_trace(message, authenticated, trace, Ok(())),
    ensures
        stored_in(after(m, trace), message),
{
    law_frame_form(message);
    let data = framed(message)->Ok_0;
    // the look at the capability container
    lemma_obeys_at(m, trace, 0);
    assert(trace.take(0).len() == 0);
    lemma_read(m, trace[0], CC_PAGE);
    let cc = m[CC_PAGE as int];
    lemma_obeys_split(m, trace, 1);
    let m1 = after(m, trace.take(1));
    assert(m1 == m);
    let rest = trace.skip(1);
    if has_magic(cc) {
        lemma_verified_all(m, data, authenticated, rest);
    } else {
        // the container is written first
        lemma_obeys_at(m, rest, 0);
        assert(rest.take(0).len() == 0);
        lemma_write(m, rest[0], CC_PAGE, cc_default(), false);
        lemma_obeys_split(m, rest, 1);
        let m2 = after(m, rest.take(1));
        assert(m2 == m.update(CC_PAGE as int, cc_default()));
        lemma_after_wf(m, rest.take(1));
        lemma_verified_all(m2, data, authenticated, rest.skip(1));
    }
}

/// What the first reads of the user-data area deliver from a memory: its
/// bytes, as far as they were read.
pub proof fn lemma_area_read(m: TagModel, pages: Seq<Exchange>, k: int)
    requires
        model_wf(m),
        obeys(m, pages),
        0 <= k <= pages.len(),
        pages.len() <= USER_PAGES,
        forall|j: int|
            0 <= j < pages.len() ==> (#[trigger] pages[j]).command == read_command(
                (FIRST_USER_PAGE + j) as u8,
            ),
    ensures
        after(m, pages.take(k)) == m,
        area_of(pages, k) == user_area(m).take(4 * k),
        forall|j: int|
            0 <= j < k ==> page_of(reply(#[trigger] pages[j])) == Ok::<Seq<u8>, TagError>(
                m[FIRST_USER_PAGE + j],
            ),
    decreases k,
{
    if k == 0 {
        assert(pages.take(0).len() == 0);
        assert(area_of(pages, 0) =~= user_area(m).take(0));
    } else {
        lemma_area_read(m, pages, k - 1);
        lemma_obeys_at(m, pages, k - 1);
        let page: u8 = (FIRST_USER_PAGE + k - 1) as u8;
        lemma_read(m, pages[k - 1], page);
        let got = m[page as int];
        assert(area_of(pages, k) == area_of(pages, k - 1) + got);
        assert(area_of(pages, k) =~= user_area(m).take(4 * k)) by {
            assert forall|j: int| 0 <= j < 4 * k implies area_of(pages, k)[j] == user_area(
                m,
            ).take(4 * k)[j] by {
                if j >= 4 * (k - 1) {
                    assert(j / 4 == k - 1);
                    assert(area_of(pages, k)[j] == got[j - 4 * (k - 1)]);
                } else {
                    assert(area_of(pages, k)[j] == user_area(m).take(4 * (k - 1))[j]);
                }
            }
        }
    }
}

/// The user-data area of a memory that stores a message begins with the TLV
/// stream of that message.
pub proof fn lemma_area_stream(m: TagModel, message: Seq<u8>)
    requires
        stored_in(m, message),
    ensures
        user_area(m) == tlv_bytes(message) + user_area(m).skip(tlv_bytes(message).len() as int),
        tlv_bytes(message).len() <= USER_BYTES,
        message.len() <= MAX_MESSAGE_BYTES,
{
    law_frame_form(message);
    let data = framed(message)->Ok_0;
    let stream = tlv_bytes(message);
    let area = user_area(m);
    assert forall|j: int| 0 <= j < stream.len() implies area[j] == stream[j] by {
        assert(m[FIRST_USER_PAGE + j / 4] == chunk(data, j / 4));
        assert(chunk(data, j / 4)[j % 4] == data[j]);
        assert(data.take(stream.len() as int)[j] == data[j]);
    }
    assert(area =~= stream + area.skip(stream.len() as int));
}

/// Reading from a memory that stores a message finds that message, and
/// finds nothing where the message is empty.
pub proof fn lemma_message_read(
    m: TagModel,
    message: Seq<u8>,
    trace: Seq<Exchange>,
    seen: Result<Option<Seq<u8>>, TagError>,
)
    requires
        stored_in(m, message),
        obeys(m, trace),
        read_message_trace(trace, seen),
    ensures
        seen == Ok::<Option<Seq<u8>>, TagError>(
            if message.len() == 0 {
                None
            } else {
                Some(message)
            },
        ),
{
    law_frame_form(message);
    lemma_obeys_at(m, trace, 0);
    assert(trace.take(0).len() == 0);
    lemma_read(m, trace[0], CC_PAGE);
    lemma_obeys_split(m, trace, 1);
    let pages = trace.skip(1);
    let n = pages.len() as int;
    assert(scan_trace(pages, seen));
    lemma_area_read(m, pages, n);
    let area = user_area(m);
    let got = area.take(4 * n);
    lemma_area_stream(m, message);
    let stream = tlv_bytes(message);
    law_scan_framed(message, area.skip(stream.len() as int));
    assert(scan_tlv(got, 0) == Scan::Done(seen));
    law_scan_stable(got, area.skip(4 * n), 0);
    assert(got + area.skip(4 * n) =~= area);
}

/// What is stored and read back leaves the message on the tag.
pub proof fn lemma_stored(
    m: TagModel,
    encoded: Result<Seq<u8>, TagError>,
    authenticated: bool,
    trace: Seq<Exchange>,
)
    requires
        model_wf(m),
        obeys(m, trace),
        stored_trace(encoded, authenticated, trace, Ok(())),
    ensures
        encoded is Ok,
        stored_in(after(m, trace), encoded->Ok_0),
{
    let bytes = encoded->Ok_0;
    assert(stored_somewhere(bytes, authenticated, trace, Ok(())));
    let k = choose|k: int| #[trigger] stored_at(bytes, authenticated, trace, k, Ok(()));
    let wrote = choose|wrote: Result<(), TagError>|
        #[trigger] written_at(bytes, authenticated, trace, k, wrote, Ok(()));
    assert(wrote is Ok);
    assert(read_back(bytes, trace.skip(k), Ok(())));
    let seen = choose|seen: Result<Option<Seq<u8>>, TagError>|
        #[trigger] read_message_trace(trace.skip(k), seen) && Ok::<(), TagError>(())
            == integrity(bytes, seen);
    lemma_obeys_split(m, trace, k);
    let written = after(m, trace.take(k));
    lemma_message_written(m, bytes, authenticated, trace.take(k));
    lemma_read_message_keeps(written, trace.skip(k), seen);
}

/// What is stored after an authentication leaves the message on the tag.
pub proof fn lemma_stored_authenticated(
    m: TagModel,
    layout: ConfigLayout,
    encoded: Result<Seq<u8>, TagError>,
    pwd: Seq<u8>,
    trace: Seq<Exchange>,
)
    requires
        model_wf(m),
        obeys(m, trace),
        authenticated_trace(layout, encoded, pwd, trace, Ok(())),
    ensures
        encoded is Ok,
        stored_in(after(m, trace), encoded->Ok_0),
{
    let k = auth_len(trace);
    lemma_obeys_split(m, trace, k);
    lemma_after_wf(m, trace.take(k));
    lemma_stored(after(m, trace.take(k)), encoded, true, trace.skip(k));
}

/// What is stored with or without a password leaves the message on the tag.
pub proof fn lemma_stored_guarded(
    m: TagModel,
    layout: ConfigLayout,
    encoded: Result<Seq<u8>, TagError>,
    password: Option<Seq<u8>>,
    trace: Seq<Exchange>,
)
    requires
        model_wf(m),
        obeys(m, trace),
        guarded_trace(layout, encoded, password, trace, Ok(())),
    ensures
        encoded is Ok,
        stored_in(after(m, trace), encoded->Ok_0),
{
    match password {
        None => {
            lemma_stored(m, encoded, false, trace);
        },
        Some(pwd) => {
            lemma_obeys_split(m, trace, 1);
            let m1 = after(m, trace.take(1));
            lemma_after_wf(m, trace.take(1));
            let rest = trace.skip(1);
            match page_of(reply(trace[0])) {
                Ok(page) => {
                    if crate::access::protect_bit(page) {
                        lemma_stored_authenticated(m1, layout, encoded, pwd, rest);
                    } else {
                        lemma_stored(m1, encoded, false, rest);
                    }
                },
                Err(e) => {
                    lemma_stored_authenticated(m1, layout, encoded, pwd, rest);
                },
            }
        },
    }
}

/// A complete write that ended well leaves the message on the tag.
pub proof fn lemma_record_written(
    m: TagModel,
    layout: ConfigLayout,
    encoded: Result<Seq<u8>, TagError>,
    password: Option<Seq<u8>>,
    trace: Seq<Exchange>,
)
    requires
        model_wf(m),
        obeys(m, trace),
        write_record_trace(layout, encoded, password, trace, Ok(())),
    ensures
        encoded is Ok,
        stored_in(after(m, trace), encoded->Ok_0),
{
    lemma_obeys_split(m, trace, 1);
    lemma_after_wf(m, trace.take(1));
    lemma_stored_guarded(after(m, trace.take(1)), layout, encoded, password, trace.skip(1));
}

/// Writing a record and then reading gives the record that was written:
/// for every record that reads back as the kind it was written as, on a tag
/// that answers as plain memory, whatever the tag held before.
pub proof fn law_write_then_read(
    layout: ConfigLayout,
    m: TagModel,
    record: RecordModel,
    password: Option<Seq<u8>>,
    writing: Seq<Exchange>,
    reading: Seq<Exchange>,
    result: Result<Option<RecordModel>, TagError>,
)
    requires
        model_wf(m),
        canonical(record),
        write_record_trace(layout, encode_spec(record), password, writing, Ok(())),
        obeys(m, writing),
        read_record_trace(reading, result),
        obeys(after(m, writing), reading),
    ensures
        result == Ok::<Option<RecordModel>, TagError>(Some(record)),
{
    lemma_record_written(m, layout, encode_spec(record), password, writing);
    let bytes = encode_spec(record)->Ok_0;
    let seen = choose|seen: Result<Option<Seq<u8>>, TagError>|
        #[trigger] read_message_trace(reading, seen) && result == record_of(seen);
    lemma_message_read(after(m, writing), bytes, reading, seen);
    law_record_roundtrip(record);
    lemma_encoded_length(record);
}

/// A record has at least the three bytes of its header.
pub proof fn lemma_record_length(header: u8, rtype: Seq<u8>, payload: Seq<u8>)
    ensures
        record_bytes(header, rtype, payload).len() == 3 + rtype.len() + payload.len(),
{
}

/// An encoded record has at least the three bytes of its header, and it is
/// short enough to be framed.
pub proof fn lemma_encoded_length(record: RecordModel)
    requires
        encode_spec(record) is Ok,
    ensures
        3 <= encode_spec(record)->Ok_0.len() <= 3 + 32 + 255,
        framed(encode_spec(record)->Ok_0) is Ok,
{
    let bytes = encode_spec(record)->Ok_0;
    crate::record::lemma_types();
    law_frame_form(bytes);
    match record {
        RecordModel::Uri { uri } => {
            let u = vstd::utf8::encode_utf8(uri);
            assert(crate::record::uri_record(u) is Ok);
            crate::uri::lemma_uri_roundtrip(u);
            assert(crate::uri::uri_payload(u).len() <= u.len() + 1);
            lemma_record_length(
                crate::ndef::HEADER_WELL_KNOWN,
                crate::uri::uri_type(),
                crate::uri::uri_payload(u),
            );
        },
        RecordModel::Text { value, language } => {
            let l = vstd::utf8::encode_utf8(language);
            let t = vstd::utf8::encode_utf8(value);
            assert(crate::record::text_record(l, t) is Ok);
            lemma_record_length(
                crate::ndef::HEADER_WELL_KNOWN,
                crate::text::text_type(),
                crate::text::text_payload(l, t),
            );
        },
        RecordModel::Wifi { ssid, password, security } => {
            let s = vstd::utf8::encode_utf8(ssid);
            let k = vstd::utf8::encode_utf8(password);
            assert(crate::record::wifi_record(s, k, security) is Ok);
            crate::wifi::lemma_wifi_roundtrip(s, k, security);
            lemma_record_length(
                crate::ndef::HEADER_EXTERNAL,
                crate::wifi::wifi_type(),
                crate::wifi::wifi_payload(s, k, security),
            );
        },
        RecordModel::Bluetooth { mac } => {
            assert(crate::record::bluetooth_record(mac) is Ok);
            lemma_record_length(
                crate::ndef::HEADER_EXTERNAL,
                crate::bluetooth::bluetooth_type(),
                mac,
            );
        },
        RecordModel::VCard { name, phone, email, organization } => {
            let text = crate::vcard::vcard_text(
                vstd::utf8::encode_utf8(name),
                vstd::utf8::encode_utf8(phone),
                vstd::utf8::encode_utf8(email),
                vstd::utf8::encode_utf8(organization),
            );
            assert(crate::record::vcard_record(text) is Ok);
            lemma_record_length(crate::ndef::HEADER_MIME, crate::vcard::vcard_type(), text);
        },
        RecordModel::Email { address, subject, body } => {
            let u = crate::contact::email_uri(
                vstd::utf8::encode_utf8(address),
                vstd::utf8::encode_utf8(subject),
                vstd::utf8::encode_utf8(body),
            );
            assert(crate::record::uri_record(u) is Ok);
            crate::uri::lemma_uri_roundtrip(u);
            assert(crate::uri::uri_payload(u).len() <= u.len() + 1);
            lemma_record_length(
                crate::ndef::HEADER_WELL_KNOWN,
                crate::uri::uri_type(),
                crate::uri::uri_payload(u),
            );
        },
        RecordModel::Sms { phone, message } => {
            let u = crate::contact::sms_uri(
                vstd::utf8::encode_utf8(phone),
                vstd::utf8::encode_utf8(message),
            );
            assert(crate::record::uri_record(u) is Ok);
            crate::uri::lemma_uri_roundtrip(u);
            assert(crate::uri::uri_payload(u).len() <= u.len() + 1);
            lemma_record_length(
                crate::ndef::HEADER_WELL_KNOWN,
                crate::uri::uri_type(),
                crate::uri::uri_payload(u),
            );
        },
        RecordModel::Phone { number } => {
            let u = crate::contact::tel_uri(vstd::utf8::encode_utf8(number));
            assert(crate::record::uri_record(u) is Ok);
            crate::uri::lemma_uri_roundtrip(u);
            assert(crate::uri::uri_payload(u).len() <= u.len() + 1);
            lemma_record_length(
                crate::ndef::HEADER_WELL_KNOWN,
                crate::uri::uri_type(),
                crate::uri::uri_payload(u),
            );
        },
        RecordModel::Unknown => {},
    }
}

/// On a tag that answers as plain memory, every step of a verified writing
/// succeeds.
pub proof fn lemma_verified_succeeds(
    m: TagModel,
    first: u8,
    data: Seq<u8>,
    authenticated: bool,
    trace: Seq<Exchange>,
    result: Result<(), TagError>,
)
    requires
        model_wf(m),
        obeys(m, trace),
        first + data.len() / 4 <= PAGES,
        verified_writes(first, data, authenticated, trace, result),
    ensures
        result == Ok::<(), TagError>(()),
{
    let len = trace.len() as int;
    if len > 0 {
        let j = len - 1;
        let n = j / 2;
        lemma_verified_pages(m, first, data, authenticated, trace, result, n);
        let m0 = after(m, trace.take(2 * n));
        let page: u8 = (first + n) as u8;
        let bytes = chunk(data, n);
        lemma_obeys_at(m, trace, 2 * n);
        assert(trace[2 * n].command == step_command(first, data, 2 * n));
        lemma_write(m0, trace[2 * n], page, bytes, authenticated);
        if j % 2 == 1 {
            let m1 = after(m, trace.take(2 * n + 1));
            lemma_after_wf(m, trace.take(2 * n + 1));
            lemma_obeys_at(m, trace, j);
            assert(trace[j].command == step_command(first, data, j));
            lemma_read(m1, trace[j], page);
        }
        assert(step_result(first, data, authenticated, trace, j) is Ok);
    }
}

/// On a tag that answers as plain memory, writing a message that fits
/// succeeds.
pub proof fn lemma_message_write_succeeds(
    m: TagModel,
    message: Seq<u8>,
    authenticated: bool,
    trace: Seq<Exchange>,
    result: Result<(), TagError>,
)
    requires
        model_wf(m),
        obeys(m, trace),
        framed(message) is Ok,
        write_message_trace(message, authenticated, trace, result),
    ensures
        result == Ok::<(), TagError>(()),
{
    law_frame_form(message);
    let data = framed(message)->Ok_0;
    lemma_obeys_at(m, trace, 0);
    assert(trace.take(0).len() == 0);
    lemma_read(m, trace[0], CC_PAGE);
    let cc = m[CC_PAGE as int];
    lemma_obeys_split(m, trace, 1);
    let rest = trace.skip(1);
    if has_magic(cc) {
        lemma_verified_succeeds(m, FIRST_USER_PAGE, data, authenticated, rest, result);
    } else {
        lemma_obeys_split(m, rest, 1);
        lemma_after_wf(m, rest.take(1));
        lemma_verified_succeeds(
            after(m, rest.take(1)),
            FIRST_USER_PAGE,
            data,
            authenticated,
            rest.skip(1),
            result,
        );
    }
}

/// On a tag that answers as plain memory, storing a record that decodes
/// succeeds.
pub proof fn lemma_store_succeeds(
    m: TagModel,
    bytes: Seq<u8>,
    authenticated: bool,
    trace: Seq<Exchange>,
    result: Result<(), TagError>,
)
    requires
        model_wf(m),
        obeys(m, trace),
        bytes.len() > 0,
        framed(bytes) is Ok,
        decode_spec(bytes) is Ok,
        stored_trace(Ok(bytes), authenticated, trace, result),
    ensures
        result == Ok::<(), TagError>(()),
{
    assert(stored_somewhere(bytes, authenticated, trace, result));
    let k = choose|k: int| #[trigger] stored_at(bytes, authenticated, trace, k, result);
    let wrote = choose|wrote: Result<(), TagError>|
        #[trigger] written_at(bytes, authenticated, trace, k, wrote, result);
    lemma_obeys_split(m, trace, k);
    lemma_message_write_succeeds(m, bytes, authenticated, trace.take(k), wrote);
    lemma_message_written(m, bytes, authenticated, trace.take(k));
    assert(read_back(bytes, trace.skip(k), result));
    let seen = choose|seen: Result<Option<Seq<u8>>, TagError>|
        #[trigger] read_message_trace(trace.skip(k), seen) && result == integrity(bytes, seen);
    lemma_message_read(after(m, trace.take(k)), bytes, trace.skip(k), seen);
}

/// A write succeeds on a tag of the family that answers as plain memory:
/// for every record that can be encoded and reads back as the kind it was
/// written as, with no password or with protection switched off.
pub proof fn law_write_succeeds(
    layout: ConfigLayout,
    m: TagModel,
    record: RecordModel,
    password: Option<Seq<u8>>,
    writing: Seq<Exchange>,
    result: Result<(), TagError>,
)
    requires
        layout.wf(),
        model_wf(m),
        has_magic(m[CC_PAGE as int]),
        password is Some ==> !crate::access::protect_bit(m[layout.access as int]),
        encode_spec(record) is Ok,
        canonical(record),
        write_record_trace(layout, encode_spec(record), password, writing, result),
        obeys(m, writing),
    ensures
        result == Ok::<(), TagError>(()),
{
    let bytes = encode_spec(record)->Ok_0;
    lemma_encoded_length(record);
    law_record_roundtrip(record);
    // the check of the tag type
    lemma_obeys_at(m, writing, 0);
    assert(writing.take(0).len() == 0);
    lemma_read(m, writing[0], CC_PAGE);
    lemma_obeys_split(m, writing, 1);
    let rest = writing.skip(1);
    match password {
        None => {
            lemma_store_succeeds(m, bytes, false, rest, result);
        },
        Some(pwd) => {
            // the look at the access page
            lemma_obeys_at(m, rest, 0);
            assert(rest.take(0).len() == 0);
            lemma_read(m, rest[0], layout.access);
            lemma_obeys_split(m, rest, 1);
            lemma_store_succeeds(m, bytes, false, rest.skip(1), result);
        },
    }
}

} // verus!
