//! The operations by kind of record, and the operations on raw pages.

use vstd::prelude::*;
use vstd::string::StringSliceAdditionalSpecFns;
use crate::access::{
    after_auth, auth_first, auth_first_result, lemma_auth_alone, lemma_auth_then, password_view,
};
use crate::bytes::{text_from_bytes, text_of};
use crate::error::TagError;
use crate::framer::{message_view, read_message_trace};
use crate::layout::{FIRST_USER_PAGE, LAST_USER_PAGE};
use crate::ndef::{parse_record, split_record, TNF_MIME, TNF_WELL_KNOWN};
use crate::pages::{
    lemma_extends_grew, lemma_grew_by, lemma_grew_twice, page_list, reads_result, reads_run,
    writes_result, writes_run, Ntag216,
};
use crate::command::uid_command;
use crate::layout::ConfigLayout;
use crate::record::{
    decode_record, decode_spec, encode_spec, LogicalRecord, RecordModel,
    encode_text, encode_uri, encode_vcard, encoded_view, text_record, uri_record, vcard_record,
};
use crate::record::canonical;
use crate::session::{read_back_as, uid_of, write_record_trace};
use crate::taginfo::{info_of, InfoModel, TagInfo};
use crate::transport::reply;
use crate::text::{decode_text_payload, text_of_payload, text_type};
use crate::tlv::TLV_TERMINATOR;
use crate::transport::{appended, bytes_view, extends, Exchange, LibnfcCardWrapper, NfcCard};
use crate::uri::{decode_uri_payload, uri_of_payload, uri_type};
use crate::vcard::vcard_type;
use crate::wifi::same_bytes;

verus! {

/// The URI in a record, if the record is a URI record with a payload.
pub open spec fn url_in(bytes: Seq<u8>) -> Option<Seq<char>> {
    match split_record(bytes) {
        None => None,
        Some(parts) => {
            if parts.tnf == TNF_WELL_KNOWN && parts.rtype == uri_type() && parts.payload.len()
                > 0 {
                Some(text_of(uri_of_payload(parts.payload)))
            } else {
                None
            }
        },
    }
}

/// The text and its language code in a record, if the record is a text
/// record whose payload holds the language code it announces.
pub open spec fn text_in(bytes: Seq<u8>) -> Option<(Seq<char>, Seq<char>)> {
    match split_record(bytes) {
        None => None,
        Some(parts) => {
            if parts.tnf == TNF_WELL_KNOWN && parts.rtype == text_type() {
                match text_of_payload(parts.payload) {
                    Some((language, text)) => Some((text_of(text), text_of(language))),
                    None => None,
                }
            } else {
                None
            }
        },
    }
}

/// The vCard text in a record, if the record is a vCard record.
pub open spec fn vcard_in(bytes: Seq<u8>) -> Option<Seq<char>> {
    match split_record(bytes) {
        None => None,
        Some(parts) => {
            if parts.tnf == TNF_MIME && parts.rtype == vcard_type() {
                Some(text_of(parts.payload))
            } else {
                None
            }
        },
    }
}

/// The mathematical content of an optional text.
pub open spec fn string_view(r: Result<Option<String>, TagError>) -> Result<
    Option<Seq<char>>,
    TagError,
> {
    match r {
        Ok(Some(s)) => Ok(Some(s@)),
        Ok(None) => Ok(None),
        Err(e) => Err(e),
    }
}

/// The mathematical content of an optional pair of texts.
pub open spec fn strings_view(r: Result<Option<(String, String)>, TagError>) -> Result<
    Option<(Seq<char>, Seq<char>)>,
    TagError,
> {
    match r {
        Ok(Some((a, b))) => Ok(Some((a@, b@))),
        Ok(None) => Ok(None),
        Err(e) => Err(e),
    }
}

/// What `pick` finds in a message that was read from the tag.
pub open spec fn picked<T>(
    seen: Result<Option<Seq<u8>>, TagError>,
    pick: spec_fn(Seq<u8>) -> Option<T>,
) -> Result<Option<T>, TagError> {
    match seen {
        Err(e) => Err(e),
        Ok(None) => Ok(None),
        Ok(Some(bytes)) => Ok(pick(bytes)),
    }
}

/// `trace` reads the message of the tag, and `result` is what `pick` finds
/// in it.
pub open spec fn read_with<T>(
    trace: Seq<Exchange>,
    result: Result<Option<T>, TagError>,
    pick: spec_fn(Seq<u8>) -> Option<T>,
) -> bool {
    exists|seen: Result<Option<Seq<u8>>, TagError>|
        #[trigger] read_message_trace(trace, seen) && result == picked(seen, pick)
}

/// The pages that clearing the message writes.
pub open spec fn clear_pages() -> Seq<u8> {
    seq![4u8, 5u8, 6u8, 7u8, 8u8, 9u8, 10u8]
}

/// What clearing the message writes: a terminator on the first page of the
/// user-data area, and zeroes on the six pages after it.
pub open spec fn clear_data() -> Seq<Seq<u8>> {
    seq![
        seq![TLV_TERMINATOR, 0u8, 0u8, 0u8],
        seq![0u8, 0u8, 0u8, 0u8],
        seq![0u8, 0u8, 0u8, 0u8],
        seq![0u8, 0u8, 0u8, 0u8],
        seq![0u8, 0u8, 0u8, 0u8],
        seq![0u8, 0u8, 0u8, 0u8],
        seq![0u8, 0u8, 0u8, 0u8],
    ]
}

/// `trace` writes `data` to `pages`, after an authentication if a password
/// is given; a failed authentication is the result, and the first failed
/// write ends the writing.
pub open spec fn guarded_writes(
    pwd_page: u8,
    password: Option<Seq<u8>>,
    pages: Seq<u8>,
    data: Seq<Seq<u8>>,
    trace: Seq<Exchange>,
    result: Result<(), TagError>,
) -> bool {
    match password {
        None => writes_run(pages, data, false, trace) && result == writes_result(false, trace),
        Some(pwd) => {
            &&& auth_first(pwd_page, pwd, trace)
            &&& match auth_first_result(trace) {
                Err(e) => after_auth(trace).len() == 0 && result == Err::<(), TagError>(e),
                Ok(_) => writes_run(pages, data, true, after_auth(trace)) && result
                    == writes_result(true, after_auth(trace)),
            }
        },
    }
}

/// Whether raw access may begin at `start`: only within the user-data area.
pub open spec fn raw_start(start: u8) -> bool {
    FIRST_USER_PAGE <= start <= LAST_USER_PAGE
}

/// How many pages hold `len` bytes from page `start` on: as many as the
/// bytes need, and no more than remain in the user-data area.
pub open spec fn raw_count(start: u8, len: int) -> int {
    if (len + 3) / 4 <= LAST_USER_PAGE + 1 - start {
        (len + 3) / 4
    } else {
        LAST_USER_PAGE + 1 - start
    }
}

/// The pages of raw access from `start` on.
pub open spec fn raw_pages(start: u8, len: int) -> Seq<u8> {
    Seq::new(raw_count(start, len) as nat, |i: int| (start + i) as u8)
}

/// The four bytes that go to the page at position `i`: those of `data`, and
/// zeroes where `data` has ended.
pub open spec fn raw_chunk(data: Seq<u8>, i: int) -> Seq<u8> {
    Seq::new(
        4,
        |j: int|
            if 4 * i + j < data.len() {
                data[4 * i + j]
            } else {
                0u8
            },
    )
}

/// What raw writing of `data` from page `start` on writes, page by page.
/// Bytes that would go past the user-data area are not written.
pub open spec fn raw_data(start: u8, data: Seq<u8>) -> Seq<Seq<u8>> {
    Seq::new(raw_count(start, data.len() as int) as nat, |i: int| raw_chunk(data, i))
}

/// `trace` writes `data` raw from page `start` on. A start outside the
/// user-data area is refused before anything is sent.
pub open spec fn raw_write_trace(
    pwd_page: u8,
    start: u8,
    data: Seq<u8>,
    password: Option<Seq<u8>>,
    trace: Seq<Exchange>,
    result: Result<(), TagError>,
) -> bool {
    if !raw_start(start) {
        trace.len() == 0 && result == Err::<(), TagError>(TagError::InvalidPage)
    } else {
        guarded_writes(
            pwd_page,
            password,
            raw_pages(start, data.len() as int),
            raw_data(start, data),
            trace,
            result,
        )
    }
}

/// The first `count` bytes of the pages in `pages`, or all of them if they
/// hold fewer.
pub open spec fn raw_bytes(pages: Seq<Seq<u8>>, count: int) -> Seq<u8> {
    Seq::new(
        (if count <= 4 * pages.len() {
            count
        } else {
            4 * pages.len() as int
        }) as nat,
        |j: int| pages[j / 4][j % 4],
    )
}

/// `trace` reads `count` bytes raw from page `start` on, page by page, and
/// `result` holds them, or fewer where the user-data area ends before. A
/// start outside the user-data area is refused before anything is sent.
pub open spec fn raw_read_trace(
    start: u8,
    count: u8,
    trace: Seq<Exchange>,
    result: Result<Seq<u8>, TagError>,
) -> bool {
    if !raw_start(start) {
        trace.len() == 0 && result == Err::<Seq<u8>, TagError>(TagError::InvalidPage)
    } else {
        &&& reads_run(raw_pages(start, count as int), trace)
        &&& result == match reads_result(trace) {
            Err(e) => Err::<Seq<u8>, TagError>(e),
            Ok(pages) => Ok(raw_bytes(pages, count as int)),
        }
    }
}

/// The record that a message is reported as: what it decodes as, and
/// [`RecordModel::Unknown`] where it does not decode.
pub open spec fn seen_record(bytes: Seq<u8>) -> RecordModel {
    match decode_spec(bytes) {
        Ok(record) => record,
        Err(_) => RecordModel::Unknown,
    }
}

/// The report on a tag after a read. A message is reported as the record it
/// holds, with the URI as it was read where it is a URI record. A tag that
/// holds no message, or whose message could not be read, is reported as
/// unknown, with nothing but its identifier.
pub open spec fn message_info(uid: Seq<u8>, seen: Result<Option<Seq<u8>>, TagError>) -> InfoModel {
    match seen {
        Ok(Some(bytes)) => InfoModel { url: url_in(bytes), ..info_of(uid, seen_record(bytes)) },
        _ => info_of(uid, RecordModel::Unknown),
    }
}

/// `rest` reads the message of the tag, and `info` is the report on what
/// was found.
pub open spec fn reported_read(uid: Seq<u8>, rest: Seq<Exchange>, info: InfoModel) -> bool {
    exists|seen: Result<Option<Seq<u8>>, TagError>|
        #[trigger] read_message_trace(rest, seen) && info == message_info(uid, seen)
}

/// The mathematical content of a report or its failure.
pub open spec fn info_view(r: Result<TagInfo, TagError>) -> Result<InfoModel, TagError> {
    match r {
        Ok(info) => Ok(info@),
        Err(e) => Err(e),
    }
}

/// `trace` asks for the identifier and then reads the message. Only a
/// failure to get the identifier fails the read; whatever the reading of the
/// message comes to is in the report.
pub open spec fn read_info_trace(trace: Seq<Exchange>, result: Result<InfoModel, TagError>) -> bool {
    &&& trace.len() >= 1
    &&& trace[0].command == uid_command()
    &&& match uid_of(reply(trace[0])) {
        Err(e) => trace.len() == 1 && result == Err::<InfoModel, TagError>(e),
        Ok(uid) => result is Ok && reported_read(uid, trace.skip(1), result->Ok_0),
    }
}

/// How a write ended, given the report that follows it.
pub open spec fn written(result: Result<InfoModel, TagError>) -> Result<(), TagError> {
    match result {
        Ok(_) => Ok(()),
        Err(e) => Err(e),
    }
}

/// `trace` asks for the identifier and then writes `record` as a complete
/// write does. A failure of either is the result, and after a success the
/// report is that of the record written.
pub open spec fn write_info_trace(
    layout: ConfigLayout,
    record: RecordModel,
    password: Option<Seq<u8>>,
    trace: Seq<Exchange>,
    result: Result<InfoModel, TagError>,
) -> bool {
    &&& trace.len() >= 1
    &&& trace[0].command == uid_command()
    &&& match uid_of(reply(trace[0])) {
        Err(e) => trace.len() == 1 && result == Err::<InfoModel, TagError>(e),
        Ok(uid) => {
            &&& write_record_trace(
                layout,
                encode_spec(record),
                password,
                trace.skip(1),
                written(result),
            )
            &&& result is Ok ==> result->Ok_0 == info_of(uid, record)
        },
    }
}

impl Ntag216 {
    /// Reads the tag and reports on it: its identifier and what its message
    /// says. A tag without a message, with a message of no known kind, or
    /// with one that cannot be read is reported as unknown.
    pub fn read_info<R: NfcCard>(&self, card: &mut LibnfcCardWrapper<R>) -> (r: Result<
        TagInfo,
        TagError,
    >)
        ensures
            extends(old(card).log(), final(card).log()),
            read_info_trace(appended(old(card).log(), final(card).log()), info_view(r)),
    {
        let ghost log0 = card.log();
        let uid = self.identify(card)?;
        let ghost mid = card.log();
        let seen = self.read_ndef_raw(card);
        let info = match &seen {
            Ok(Some(bytes)) => {
                let record = match decode_record(bytes.as_slice()) {
                    Ok(record) => record,
                    Err(_) => LogicalRecord::Unknown,
                };
                let mut info = TagInfo::from_record(uid, &record);
                info.url = match self.parse_ndef_url(bytes.as_slice()) {
                    Ok(url) => url,
                    Err(_) => None,
                };
                info
            },
            _ => TagInfo::from_record(uid, &LogicalRecord::Unknown),
        };
        proof {
            let t = appended(mid, card.log());
            lemma_extends_grew(mid, card.log());
            lemma_grew_twice(log0, mid, card.log(), t);
            assert(appended(log0, card.log()).skip(1) =~= t);
            assert(read_message_trace(t, message_view(seen)));
            assert(info@ == message_info(uid@, message_view(seen)));
        }
        Ok(info)
    }

    /// Writes `record` to the tag and reports on the tag as it then is: its
    /// identifier, read before the write, and the record written.
    pub fn write_info<R: NfcCard>(
        &self,
        card: &mut LibnfcCardWrapper<R>,
        record: &LogicalRecord,
        password: Option<&[u8; 4]>,
    ) -> (r: Result<TagInfo, TagError>)
        ensures
            extends(old(card).log(), final(card).log()),
            write_info_trace(
                self.layout,
                record@,
                password_view(password),
                appended(old(card).log(), final(card).log()),
                info_view(r),
            ),
            r is Ok && canonical(record@) ==> read_back_as(
                record@,
                appended(old(card).log(), final(card).log()).skip(1),
            ),
    {
        let ghost log0 = card.log();
        let uid = self.identify(card)?;
        let ghost mid = card.log();
        let wrote = self.write_record(card, record, password);
        proof {
            let t = appended(mid, card.log());
            lemma_extends_grew(mid, card.log());
            lemma_grew_twice(log0, mid, card.log(), t);
            assert(appended(log0, card.log()).skip(1) =~= t);
        }
        match wrote {
            Err(e) => Err(e),
            Ok(()) => Ok(TagInfo::from_record(uid, record)),
        }
    }

    /// Builds the record that stores `url`.
    pub fn create_ndef_url(&self, url: &str) -> (r: Result<Vec<u8>, TagError>)
        ensures
            encoded_view(r) == uri_record(url.spec_bytes()),
    {
        encode_uri(url.as_bytes())
    }

    /// Builds the record that stores `text` in `language`.
    pub fn create_ndef_text(&self, text: &str, language: &str) -> (r: Result<Vec<u8>, TagError>)
        ensures
            encoded_view(r) == text_record(language.spec_bytes(), text.spec_bytes()),
    {
        encode_text(language.as_bytes(), text.as_bytes())
    }

    /// Builds the record that stores the vCard text `vcard`.
    pub fn create_ndef_vcard(&self, vcard: &str) -> (r: Result<Vec<u8>, TagError>)
        ensures
            encoded_view(r) == vcard_record(vcard.spec_bytes()),
    {
        encode_vcard(vcard.as_bytes())
    }

    /// Reads the URI from a record; none if the record is not a URI record.
    pub fn parse_ndef_url(&self, ndef_data: &[u8]) -> (r: Result<Option<String>, TagError>)
        ensures
            string_view(r) == Ok::<Option<Seq<char>>, TagError>(url_in(ndef_data@)),
    {
        match parse_record(ndef_data) {
            None => Ok(None),
            Some(raw) => {
                if raw.tnf == TNF_WELL_KNOWN && same_bytes(raw.rtype.as_slice(), "U".as_bytes())
                    && raw.payload.len() > 0 {
                    let uri = decode_uri_payload(raw.payload.as_slice());
                    Ok(Some(text_from_bytes(uri.as_slice())))
                } else {
                    Ok(None)
                }
            },
        }
    }

    /// Reads text and language code, in that order, from a record; none if
    /// the record is not a text record.
    pub fn parse_ndef_text(&self, ndef_data: &[u8]) -> (r: Result<
        Option<(String, String)>,
        TagError,
    >)
        ensures
            strings_view(r) == Ok::<Option<(Seq<char>, Seq<char>)>, TagError>(
                text_in(ndef_data@),
            ),
    {
        match parse_record(ndef_data) {
            None => Ok(None),
            Some(raw) => {
                if raw.tnf == TNF_WELL_KNOWN && same_bytes(raw.rtype.as_slice(), "T".as_bytes()) {
                    match decode_text_payload(raw.payload.as_slice()) {
                        Some((language, text)) => Ok(
                            Some(
                                (
                                    text_from_bytes(text.as_slice()),
                                    text_from_bytes(language.as_slice()),
                                ),
                            ),
                        ),
                        None => Ok(None),
                    }
                } else {
                    Ok(None)
                }
            },
        }
    }

    /// Reads the vCard text from a record; none if the record is not a vCard
    /// record.
    pub fn parse_ndef_vcard(&self, ndef_data: &[u8]) -> (r: Result<Option<String>, TagError>)
        ensures
            string_view(r) == Ok::<Option<Seq<char>>, TagError>(vcard_in(ndef_data@)),
    {
        match parse_record(ndef_data) {
            None => Ok(None),
            Some(raw) => {
                if raw.tnf == TNF_MIME && same_bytes(
                    raw.rtype.as_slice(),
                    "text/vcard".as_bytes(),
                ) {
                    Ok(Some(text_from_bytes(raw.payload.as_slice())))
                } else {
                    Ok(None)
                }
            },
        }
    }

    /// Writes a URI record for `url`, as [`Ntag216::write_encoded`] does.
    pub fn write_ndef_url_with_password<R: NfcCard>(
        &self,
        card: &mut LibnfcCardWrapper<R>,
        url: &str,
        password: Option<&[u8; 4]>,
    ) -> (r: Result<(), TagError>)
        ensures
            extends(old(card).log(), final(card).log()),
            write_record_trace(
                self.layout,
                uri_record(url.spec_bytes()),
                password_view(password),
                appended(old(card).log(), final(card).log()),
                r,
            ),
    {
        let encoded = self.create_ndef_url(url);
        self.write_encoded(card, &encoded, password)
    }

    /// Writes a URI record for `url` without a password.
    pub fn write_ndef_url<R: NfcCard>(&self, card: &mut LibnfcCardWrapper<R>, url: &str) -> (r:
        Result<(), TagError>)
        ensures
            extends(old(card).log(), final(card).log()),
            write_record_trace(
                self.layout,
                uri_record(url.spec_bytes()),
                None,
                appended(old(card).log(), final(card).log()),
                r,
            ),
    {
        self.write_ndef_url_with_password(card, url, None)
    }

    /// Writes a text record, as [`Ntag216::write_encoded`] does.
    pub fn write_ndef_text_with_password<R: NfcCard>(
        &self,
        card: &mut LibnfcCardWrapper<R>,
        text: &str,
        language: &str,
        password: Option<&[u8; 4]>,
    ) -> (r: Result<(), TagError>)
        ensures
            extends(old(card).log(), final(card).log()),
            write_record_trace(
                self.layout,
                text_record(language.spec_bytes(), text.spec_bytes()),
                password_view(password),
                appended(old(card).log(), final(card).log()),
                r,
            ),
    {
        let encoded = self.create_ndef_text(text, language);
        self.write_encoded(card, &encoded, password)
    }

    /// Writes a text record without a password.
    pub fn write_ndef_text<R: NfcCard>(
        &self,
        card: &mut LibnfcCardWrapper<R>,
        text: &str,
        language: &str,
    ) -> (r: Result<(), TagError>)
        ensures
            extends(old(card).log(), final(card).log()),
            write_record_trace(
                self.layout,
                text_record(language.spec_bytes(), text.spec_bytes()),
                None,
                appended(old(card).log(), final(card).log()),
                r,
            ),
    {
        self.write_ndef_text_with_password(card, text, language, None)
    }

    /// Writes a vCard record with the text `vcard`, as
    /// [`Ntag216::write_encoded`] does.
    pub fn write_ndef_vcard_with_password<R: NfcCard>(
        &self,
        card: &mut LibnfcCardWrapper<R>,
        vcard: &str,
        password: Option<&[u8; 4]>,
    ) -> (r: Result<(), TagError>)
        ensures
            extends(old(card).log(), final(card).log()),
            write_record_trace(
                self.layout,
                vcard_record(vcard.spec_bytes()),
                password_view(password),
                appended(old(card).log(), final(card).log()),
                r,
            ),
    {
        let encoded = self.create_ndef_vcard(vcard);
        self.write_encoded(card, &encoded, password)
    }

    /// Writes a vCard record with the text `vcard` without a password.
    pub fn write_ndef_vcard<R: NfcCard>(
        &self,
        card: &mut LibnfcCardWrapper<R>,
        vcard: &str,
    ) -> (r: Result<(), TagError>)
        ensures
            extends(old(card).log(), final(card).log()),
            write_record_trace(
                self.layout,
                vcard_record(vcard.spec_bytes()),
                None,
                appended(old(card).log(), final(card).log()),
                r,
            ),
    {
        self.write_ndef_vcard_with_password(card, vcard, None)
    }

    /// Reads the URI that the tag holds; none if it holds no message or a
    /// record of another kind.
    pub fn read_ndef<R: NfcCard>(&self, card: &mut LibnfcCardWrapper<R>) -> (r: Result<
        Option<String>,
        TagError,
    >)
        ensures
            extends(old(card).log(), final(card).log()),
            read_with(
                appended(old(card).log(), final(card).log()),
                string_view(r),
                |bytes: Seq<u8>| url_in(bytes),
            ),
    {
        let seen = self.read_ndef_raw(card);
        let r = match &seen {
            Err(e) => Err(*e),
            Ok(None) => Ok(None),
            Ok(Some(bytes)) => self.parse_ndef_url(bytes.as_slice()),
        };
        proof {
            let t = appended(old(card).log(), card.log());
            assert(read_message_trace(t, message_view(seen)));
            assert(string_view(r) == picked(message_view(seen), |bytes: Seq<u8>| url_in(bytes)));
        }
        r
    }

    /// Reads the text and its language code that the tag holds; none if it
    /// holds no message or a record of another kind.
    pub fn read_ndef_text<R: NfcCard>(&self, card: &mut LibnfcCardWrapper<R>) -> (r: Result<
        Option<(String, String)>,
        TagError,
    >)
        ensures
            extends(old(card).log(), final(card).log()),
            read_with(
                appended(old(card).log(), final(card).log()),
                strings_view(r),
                |bytes: Seq<u8>| text_in(bytes),
            ),
    {
        let seen = self.read_ndef_raw(card);
        let r = match &seen {
            Err(e) => Err(*e),
            Ok(None) => Ok(None),
            Ok(Some(bytes)) => self.parse_ndef_text(bytes.as_slice()),
        };
        proof {
            let t = appended(old(card).log(), card.log());
            assert(read_message_trace(t, message_view(seen)));
            assert(strings_view(r) == picked(
                message_view(seen),
                |bytes: Seq<u8>| text_in(bytes),
            ));
        }
        r
    }

    /// Reads the vCard text that the tag holds; none if it holds no message
    /// or a record of another kind.
    pub fn read_ndef_vcard<R: NfcCard>(&self, card: &mut LibnfcCardWrapper<R>) -> (r: Result<
        Option<String>,
        TagError,
    >)
        ensures
            extends(old(card).log(), final(card).log()),
            read_with(
                appended(old(card).log(), final(card).log()),
                string_view(r),
                |bytes: Seq<u8>| vcard_in(bytes),
            ),
    {
        let seen = self.read_ndef_raw(card);
        let r = match &seen {
            Err(e) => Err(*e),
            Ok(None) => Ok(None),
            Ok(Some(bytes)) => self.parse_ndef_vcard(bytes.as_slice()),
        };
        proof {
            let t = appended(old(card).log(), card.log());
            assert(read_message_trace(t, message_view(seen)));
            assert(string_view(r) == picked(
                message_view(seen),
                |bytes: Seq<u8>| vcard_in(bytes),
            ));
        }
        r
    }

    /// Writes `data` to `pages`, after authenticating if a password is
    /// given.
    fn write_guarded<R: NfcCard>(
        &self,
        card: &mut LibnfcCardWrapper<R>,
        pages: &[u8],
        data: &[[u8; 4]],
        password: Option<&[u8; 4]>,
    ) -> (r: Result<(), TagError>)
        requires
            pages@.len() == data@.len(),
        ensures
            extends(old(card).log(), final(card).log()),
            guarded_writes(
                self.layout.pwd,
                password_view(password),
                pages@,
                page_list(data@),
                appended(old(card).log(), final(card).log()),
                r,
            ),
    {
        let ghost log0 = card.log();
        match password {
            None => self.write_pages(card, pages, data, false),
            Some(pwd) => {
                match self.authenticate_password(card, pwd) {
                    Err(e) => {
                        proof {
                            lemma_auth_alone(appended(log0, card.log()));
                        }
                        return Err(e);
                    },
                    Ok(_) => {},
                }
                let ghost mid = card.log();
                let r = self.write_pages(card, pages, data, true);
                proof {
                    let t = appended(mid, card.log());
                    lemma_extends_grew(mid, card.log());
                    lemma_grew_twice(log0, mid, card.log(), t);
                    lemma_auth_then(appended(log0, mid), t);
                }
                r
            },
        }
    }

    /// Removes the message: writes a terminator to the first page of the
    /// user-data area and zeroes to the six pages after it, after
    /// authenticating if a password is given.
    pub fn clear_ndef_with_password<R: NfcCard>(
        &self,
        card: &mut LibnfcCardWrapper<R>,
        password: Option<&[u8; 4]>,
    ) -> (r: Result<(), TagError>)
        ensures
            extends(old(card).log(), final(card).log()),
            guarded_writes(
                self.layout.pwd,
                password_view(password),
                clear_pages(),
                clear_data(),
                appended(old(card).log(), final(card).log()),
                r,
            ),
    {
        let pages = vec![4u8, 5u8, 6u8, 7u8, 8u8, 9u8, 10u8];
        let end: [u8; 4] = [TLV_TERMINATOR, 0u8, 0u8, 0u8];
        let zero: [u8; 4] = [0u8, 0u8, 0u8, 0u8];
        let data = vec![end, zero, zero, zero, zero, zero, zero];
        proof {
            assert(pages@ =~= clear_pages());
            assert(end@ =~= seq![TLV_TERMINATOR, 0u8, 0u8, 0u8]);
            assert(zero@ =~= seq![0u8, 0u8, 0u8, 0u8]);
            assert(page_list(data@) =~= clear_data());
        }
        self.write_guarded(card, pages.as_slice(), data.as_slice(), password)
    }

    /// Removes the message without a password.
    pub fn clear_ndef<R: NfcCard>(&self, card: &mut LibnfcCardWrapper<R>) -> (r: Result<
        (),
        TagError,
    >)
        ensures
            extends(old(card).log(), final(card).log()),
            guarded_writes(
                self.layout.pwd,
                None,
                clear_pages(),
                clear_data(),
                appended(old(card).log(), final(card).log()),
                r,
            ),
    {
        self.clear_ndef_with_password(card, None)
    }

    /// Writes `data` raw to the user-data area from page `start_block` on,
    /// after authenticating if a password is given. The last page is filled
    /// with zeroes, and bytes that would go past the area are not written.
    pub fn write_raw_bytes_with_password<R: NfcCard>(
        &self,
        card: &mut LibnfcCardWrapper<R>,
        start_block: u8,
        data: &[u8],
        password: Option<&[u8; 4]>,
    ) -> (r: Result<(), TagError>)
        ensures
            extends(old(card).log(), final(card).log()),
            raw_write_trace(
                self.layout.pwd,
                start_block,
                data@,
                password_view(password),
                appended(old(card).log(), final(card).log()),
                r,
            ),
    {
        if start_block < FIRST_USER_PAGE || start_block > LAST_USER_PAGE {
            proof {
                lemma_grew_by(card.log(), card.log(), Seq::empty());
            }
            return Err(TagError::InvalidPage);
        }
        let room: usize = (LAST_USER_PAGE - start_block) as usize + 1;
        let need: usize = data.len() / 4 + (if data.len() % 4 == 0 {
            0
        } else {
            1
        });
        let count: usize = if need <= room {
            need
        } else {
            room
        };
        assert(count == raw_count(start_block, data@.len() as int));
        let mut pages: Vec<u8> = Vec::new();
        let mut chunks: Vec<[u8; 4]> = Vec::new();
        let mut i: usize = 0;
        while i < count
            invariant
                i <= count <= room,
                room == LAST_USER_PAGE - start_block + 1,
                FIRST_USER_PAGE <= start_block <= LAST_USER_PAGE,
                pages@.len() == i,
                chunks@.len() == i,
                forall|j: int| 0 <= j < i ==> pages@[j] == (start_block + j) as u8,
                forall|j: int| 0 <= j < i ==> (#[trigger] chunks@[j])@ == raw_chunk(data@, j),
            decreases count - i,
        {
            let b0: u8 = if 4 * i < data.len() {
                data[4 * i]
            } else {
                0
            };
            let b1: u8 = if 4 * i + 1 < data.len() {
                data[4 * i + 1]
            } else {
                0
            };
            let b2: u8 = if 4 * i + 2 < data.len() {
                data[4 * i + 2]
            } else {
                0
            };
            let b3: u8 = if 4 * i + 3 < data.len() {
                data[4 * i + 3]
            } else {
                0
            };
            let chunk: [u8; 4] = [b0, b1, b2, b3];
            assert(chunk@ =~= raw_chunk(data@, i as int));
            pages.push((start_block as usize + i) as u8);
            chunks.push(chunk);
            i = i + 1;
        }
        proof {
            assert(pages@ =~= raw_pages(start_block, data@.len() as int));
            assert(page_list(chunks@) =~= raw_data(start_block, data@));
        }
        self.write_guarded(card, pages.as_slice(), chunks.as_slice(), password)
    }

    /// Writes `data` raw to the user-data area without a password.
    pub fn write_raw_bytes<R: NfcCard>(
        &self,
        card: &mut LibnfcCardWrapper<R>,
        start_block: u8,
        data: &[u8],
    ) -> (r: Result<(), TagError>)
        ensures
            extends(old(card).log(), final(card).log()),
            raw_write_trace(
                self.layout.pwd,
                start_block,
                data@,
                None,
                appended(old(card).log(), final(card).log()),
                r,
            ),
    {
        self.write_raw_bytes_with_password(card, start_block, data, None)
    }

    /// Reads `count` bytes raw from the user-data area, beginning with page
    /// `start_block`. Where the area ends before, the result is shorter.
    pub fn read_raw_bytes<R: NfcCard>(
        &self,
        card: &mut LibnfcCardWrapper<R>,
        start_block: u8,
        count: u8,
    ) -> (r: Result<Vec<u8>, TagError>)
        ensures
            extends(old(card).log(), final(card).log()),
            raw_read_trace(
                start_block,
                count,
                appended(old(card).log(), final(card).log()),
                bytes_view(r),
            ),
    {
        if start_block < FIRST_USER_PAGE || start_block > LAST_USER_PAGE {
            proof {
                lemma_grew_by(card.log(), card.log(), Seq::empty());
            }
            return Err(TagError::InvalidPage);
        }
        let room: usize = (LAST_USER_PAGE - start_block) as usize + 1;
        let need: usize = (count as usize + 3) / 4;
        let n: usize = if need <= room {
            need
        } else {
            room
        };
        let mut pages: Vec<u8> = Vec::new();
        let mut i: usize = 0;
        while i < n
            invariant
                i <= n <= room,
                room == LAST_USER_PAGE - start_block + 1,
                pages@.len() == i,
                forall|j: int| 0 <= j < i ==> pages@[j] == (start_block + j) as u8,
            decreases n - i,
        {
            pages.push((start_block as usize + i) as u8);
            i = i + 1;
        }
        assert(pages@ =~= raw_pages(start_block, count as int));
        let got = self.read_pages(card, pages.as_slice())?;
        let total: usize = if (count as usize) <= 4 * n {
            count as usize
        } else {
            4 * n
        };
        let mut out: Vec<u8> = Vec::new();
        let mut j: usize = 0;
        while j < total
            invariant
                j <= total <= 4 * n,
                got@.len() == n,
                out@.len() == j,
                forall|k: int| 0 <= k < j ==> out@[k] == got@[k / 4]@[k % 4],
            decreases total - j,
        {
            let page = got[j / 4];
            out.push(page[j % 4]);
            j = j + 1;
        }
        proof {
            let t = appended(old(card).log(), card.log());
            let seen = reads_result(t)->Ok_0;
            assert(out@ =~= raw_bytes(seen, count as int));
        }
        Ok(out)
    }
}

} // verus!
