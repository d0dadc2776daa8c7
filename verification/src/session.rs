//! The session: the operations on a tag as a caller sees them, each composed
//! from the layers below.

use vstd::prelude::*;
use crate::access::{
    after_auth, auth_first, auth_first_result, denied, lemma_auth_alone, lemma_auth_then,
    password_view, protect_bit, type_of, PROTECT_BIT,
};
use crate::command::{read_command, uid_apdu, uid_command};
use crate::error::{TagError, TransportError};
use crate::framer::{message_view, read_message_trace, write_message_trace};
use crate::layout::{ConfigLayout, CC_PAGE};
use crate::pages::{lemma_extends_grew, lemma_grew_by, lemma_grew_twice, page_of, Ntag216};
use crate::record::{
    canonical, law_record_roundtrip,
    decode_record, decode_spec, encode_record, encode_spec, encoded_view, LogicalRecord,
    RecordModel,
};
use crate::transport::{
    appended, bytes_view, extends, reply, Exchange, LibnfcCardWrapper, NfcCard, SW1_DENIED,
};

verus! {

/// The number of bytes in the identifier of a tag of this family.
pub const UID_BYTES: usize = 7;

/// What the answer to the identifier request means.
pub open spec fn uid_of(answer: Result<Seq<u8>, TransportError>) -> Result<Seq<u8>, TagError> {
    match answer {
        Err(e) => Err(TagError::Read(e)),
        Ok(bytes) => {
            if bytes.len() == UID_BYTES {
                Ok(bytes)
            } else if bytes.len() < UID_BYTES {
                Err(TagError::ShortRead)
            } else {
                Err(TagError::Read(TransportError::MalformedResponse))
            }
        },
    }
}

/// `trace` is one identifier request, and `result` is what its answer means.
pub open spec fn identify_trace(trace: Seq<Exchange>, result: Result<Seq<u8>, TagError>) -> bool {
    &&& trace.len() == 1
    &&& trace[0].command == uid_command()
    &&& result == uid_of(reply(trace[0]))
}

/// Whether the record that `seen` holds says what the record in `written`
/// says.
pub open spec fn same_content(written: Seq<u8>, seen: Seq<u8>) -> bool {
    decode_spec(seen) is Ok && decode_spec(seen) == decode_spec(written)
}

/// What the read-back after a write makes of the write: the failure of the
/// read, or [`TagError::WriteIntegrity`] unless the tag now holds a record
/// that says what the record written says.
pub open spec fn integrity(written: Seq<u8>, seen: Result<Option<Seq<u8>>, TagError>) -> Result<
    (),
    TagError,
> {
    match seen {
        Err(e) => Err(e),
        Ok(None) => Err(TagError::WriteIntegrity),
        Ok(Some(bytes)) => if same_content(written, bytes) {
            Ok(())
        } else {
            Err(TagError::WriteIntegrity)
        },
    }
}

/// `after` is an independent read of the message, and `result` is what its
/// content makes of the write of `bytes`.
pub open spec fn read_back(bytes: Seq<u8>, after: Seq<Exchange>, result: Result<(), TagError>) -> bool {
    exists|seen: Result<Option<Seq<u8>>, TagError>|
        #[trigger] read_message_trace(after, seen) && result == integrity(bytes, seen)
}

/// The first `k` exchanges of `trace` are a write of `bytes` that ended with
/// `wrote`; if it failed, that is all and the result, and if it succeeded,
/// the rest of `trace` is the read-back.
pub open spec fn written_at(
    bytes: Seq<u8>,
    authenticated: bool,
    trace: Seq<Exchange>,
    k: int,
    wrote: Result<(), TagError>,
    result: Result<(), TagError>,
) -> bool {
    &&& write_message_trace(bytes, authenticated, trace.take(k), wrote)
    &&& match wrote {
        Err(e) => k == trace.len() && result == Err::<(), TagError>(e),
        Ok(_) => read_back(bytes, trace.skip(k), result),
    }
}

/// `trace` falls into a write of `bytes`, which takes its first `k`
/// exchanges, and, if the write succeeded, an independent read of the
/// message, whose content decides the result.
pub open spec fn stored_at(
    bytes: Seq<u8>,
    authenticated: bool,
    trace: Seq<Exchange>,
    k: int,
    result: Result<(), TagError>,
) -> bool {
    &&& 0 <= k <= trace.len()
    &&& exists|wrote: Result<(), TagError>|
        #[trigger] written_at(bytes, authenticated, trace, k, wrote, result)
}

/// `trace` stores what was encoded: nothing is sent for a record that could
/// not be encoded; otherwise the record is written and read back.
pub open spec fn stored_trace(
    encoded: Result<Seq<u8>, TagError>,
    authenticated: bool,
    trace: Seq<Exchange>,
    result: Result<(), TagError>,
) -> bool {
    match encoded {
        Err(e) => trace.len() == 0 && result == Err::<(), TagError>(e),
        Ok(bytes) => stored_somewhere(bytes, authenticated, trace, result),
    }
}

/// `trace` falls into a write of `bytes` and the read that follows it, as
/// [`stored_at`] describes, at some point.
pub open spec fn stored_somewhere(
    bytes: Seq<u8>,
    authenticated: bool,
    trace: Seq<Exchange>,
    result: Result<(), TagError>,
) -> bool {
    exists|k: int| #[trigger] stored_at(bytes, authenticated, trace, k, result)
}

/// `rest` is what a write does once the tag type is confirmed. Without a
/// password the record is stored. With one, the access page is read: where
/// protection is off the password is not used; where it is on, or where the
/// read is denied, the password is presented first, and a failed
/// authentication is the result.
pub open spec fn guarded_trace(
    layout: ConfigLayout,
    encoded: Result<Seq<u8>, TagError>,
    password: Option<Seq<u8>>,
    rest: Seq<Exchange>,
    result: Result<(), TagError>,
) -> bool {
    match password {
        None => stored_trace(encoded, false, rest, result),
        Some(pwd) => {
            &&& rest.len() >= 1
            &&& rest[0].command == read_command(layout.access)
            &&& match page_of(reply(rest[0])) {
                Ok(page) => if protect_bit(page) {
                    authenticated_trace(layout, encoded, pwd, rest.skip(1), result)
                } else {
                    stored_trace(encoded, false, rest.skip(1), result)
                },
                Err(e) => if denied(Err(e)) {
                    authenticated_trace(layout, encoded, pwd, rest.skip(1), result)
                } else {
                    rest.len() == 1 && result == Err::<(), TagError>(e)
                },
            }
        },
    }
}

/// `t` authenticates with `pwd` and, if that succeeds, stores what was
/// encoded.
pub open spec fn authenticated_trace(
    layout: ConfigLayout,
    encoded: Result<Seq<u8>, TagError>,
    pwd: Seq<u8>,
    t: Seq<Exchange>,
    result: Result<(), TagError>,
) -> bool {
    &&& auth_first(layout.pwd, pwd, t)
    &&& match auth_first_result(t) {
        Err(e) => after_auth(t).len() == 0 && result == Err::<(), TagError>(e),
        Ok(_) => stored_trace(encoded, true, after_auth(t), result),
    }
}

/// `trace` is a complete write: the tag type is confirmed by the capability
/// container, whose lack of the magic value is [`TagError::Frame`]; then
/// follows what [`guarded_trace`] describes.
pub open spec fn write_record_trace(
    layout: ConfigLayout,
    encoded: Result<Seq<u8>, TagError>,
    password: Option<Seq<u8>>,
    trace: Seq<Exchange>,
    result: Result<(), TagError>,
) -> bool {
    &&& trace.len() >= 1
    &&& trace[0].command == read_command(CC_PAGE)
    &&& match type_of(page_of(reply(trace[0]))) {
        Err(e) => trace.len() == 1 && result == Err::<(), TagError>(e),
        Ok(is_tag) => if is_tag {
            guarded_trace(layout, encoded, password, trace.skip(1), result)
        } else {
            trace.len() == 1 && result == Err::<(), TagError>(TagError::Frame)
        },
    }
}

/// `trace` ends with a read of the message of the tag that found a record
/// which says `record`.
pub open spec fn read_back_as(record: RecordModel, trace: Seq<Exchange>) -> bool {
    exists|k: int, seen: Seq<u8>|
        0 <= k <= trace.len() && #[trigger] read_message_trace(
            trace.skip(k),
            Ok(Some(seen)),
        ) && decode_spec(seen) == Ok::<RecordModel, TagError>(record)
}

/// What the rest of a trace ends with, the trace ends with.
pub proof fn lemma_read_back_suffix(record: RecordModel, trace: Seq<Exchange>, j: int)
    requires
        0 <= j <= trace.len(),
        read_back_as(record, trace.skip(j)),
    ensures
        read_back_as(record, trace),
{
    let rest = trace.skip(j);
    let (k, seen) = choose|k: int, seen: Seq<u8>|
        0 <= k <= rest.len() && #[trigger] read_message_trace(rest.skip(k), Ok(Some(seen)))
            && decode_spec(seen) == Ok::<RecordModel, TagError>(record);
    assert(rest.skip(k) =~= trace.skip(j + k));
    assert(read_message_trace(trace.skip(j + k), Ok(Some(seen))));
}

/// A record that was stored with success was read back as what its bytes
/// say.
pub proof fn lemma_stored_confirms(
    bytes: Seq<u8>,
    authenticated: bool,
    trace: Seq<Exchange>,
    expected: RecordModel,
)
    requires
        stored_trace(Ok(bytes), authenticated, trace, Ok(())),
        decode_spec(bytes) == Ok::<RecordModel, TagError>(expected),
    ensures
        read_back_as(expected, trace),
{
    assert(stored_somewhere(bytes, authenticated, trace, Ok(())));
    let k = choose|k: int| #[trigger] stored_at(bytes, authenticated, trace, k, Ok(()));
    let wrote = choose|wrote: Result<(), TagError>|
        #[trigger] written_at(bytes, authenticated, trace, k, wrote, Ok(()));
    assert(read_back(bytes, trace.skip(k), Ok(())));
    let seen = choose|seen: Result<Option<Seq<u8>>, TagError>|
        #[trigger] read_message_trace(trace.skip(k), seen) && Ok::<(), TagError>(())
            == integrity(bytes, seen);
    let back = seen->Ok_0->Some_0;
    assert(seen == Ok::<Option<Seq<u8>>, TagError>(Some(back)));
    assert(read_message_trace(trace.skip(k), Ok(Some(back))));
}

/// A complete write succeeds only for what could be encoded.
pub proof fn lemma_write_encodes(
    layout: ConfigLayout,
    encoded: Result<Seq<u8>, TagError>,
    password: Option<Seq<u8>>,
    trace: Seq<Exchange>,
)
    requires
        write_record_trace(layout, encoded, password, trace, Ok(())),
    ensures
        encoded is Ok,
{
}

/// A complete write that succeeded ended with a read of the tag that found
/// what the bytes written say.
pub proof fn lemma_write_confirms(
    layout: ConfigLayout,
    encoded: Result<Seq<u8>, TagError>,
    password: Option<Seq<u8>>,
    trace: Seq<Exchange>,
    expected: RecordModel,
)
    requires
        write_record_trace(layout, encoded, password, trace, Ok(())),
        encoded is Ok,
        decode_spec(encoded->Ok_0) == Ok::<RecordModel, TagError>(expected),
    ensures
        read_back_as(expected, trace),
{
    let bytes = encoded->Ok_0;
    let rest = trace.skip(1);
    match password {
        None => {
            lemma_stored_confirms(bytes, false, rest, expected);
        },
        Some(pwd) => {
            let inner = rest.skip(1);
            let needs = match page_of(reply(rest[0])) {
                Ok(page) => protect_bit(page),
                Err(e) => true,
            };
            if needs {
                assert(authenticated_trace(layout, encoded, pwd, inner, Ok(())));
                lemma_stored_confirms(bytes, true, after_auth(inner), expected);
                lemma_read_back_suffix(expected, inner, crate::access::auth_len(inner));
            } else {
                lemma_stored_confirms(bytes, false, inner, expected);
            }
            lemma_read_back_suffix(expected, rest, 1);
        },
    }
    lemma_read_back_suffix(expected, trace, 1);
}

/// The record that a message read from the tag holds: none where there is no
/// message, and [`RecordModel::Unknown`] where the message does not decode.
pub open spec fn record_of(seen: Result<Option<Seq<u8>>, TagError>) -> Result<
    Option<RecordModel>,
    TagError,
> {
    match seen {
        Err(e) => Err(e),
        Ok(None) => Ok(None),
        Ok(Some(bytes)) => match decode_spec(bytes) {
            Ok(record) => Ok(Some(record)),
            Err(_) => Ok(Some(RecordModel::Unknown)),
        },
    }
}

/// The mathematical content of a record that was read.
pub open spec fn read_view(r: Result<Option<LogicalRecord>, TagError>) -> Result<
    Option<RecordModel>,
    TagError,
> {
    match r {
        Ok(Some(record)) => Ok(Some(record@)),
        Ok(None) => Ok(None),
        Err(e) => Err(e),
    }
}

/// `trace` reads the message of the tag, and `result` is the record it
/// holds.
pub open spec fn read_record_trace(
    trace: Seq<Exchange>,
    result: Result<Option<RecordModel>, TagError>,
) -> bool {
    exists|seen: Result<Option<Seq<u8>>, TagError>|
        #[trigger] read_message_trace(trace, seen) && result == record_of(seen)
}

/// Tells whether two texts are the same.
pub fn same_text(a: &String, b: &String) -> (r: bool)
    ensures
        r == (a@ == b@),
{
    *a == *b
}

/// Tells whether two device addresses are the same.
pub fn same_mac(a: &[u8; 6], b: &[u8; 6]) -> (r: bool)
    ensures
        r == (a@ == b@),
{
    let r = a[0] == b[0] && a[1] == b[1] && a[2] == b[2] && a[3] == b[3] && a[4] == b[4] && a[5]
        == b[5];
    proof {
        if r {
            assert(a@ =~= b@);
        }
    }
    r
}

/// Tells whether two records are the same.
pub fn same_record(a: &LogicalRecord, b: &LogicalRecord) -> (r: bool)
    ensures
        r == (a@ == b@),
{
    match a {
        LogicalRecord::Uri { uri: x } => match b {
            LogicalRecord::Uri { uri: y } => same_text(x, y),
            _ => false,
        },
        LogicalRecord::Text { value: v1, language: l1 } => match b {
            LogicalRecord::Text { value: v2, language: l2 } => same_text(v1, v2) && same_text(
                l1,
                l2,
            ),
            _ => false,
        },
        LogicalRecord::Wifi { ssid: s1, password: key1, security: c1 } => match b {
            LogicalRecord::Wifi { ssid: s2, password: key2, security: c2 } => same_text(s1, s2)
                && same_text(key1, key2) && c1.code() == c2.code(),
            _ => false,
        },
        LogicalRecord::Bluetooth { mac: m1 } => match b {
            LogicalRecord::Bluetooth { mac: m2 } => same_mac(m1, m2),
            _ => false,
        },
        LogicalRecord::VCard { name: n1, phone: tel1, email: e1, organization: o1 } => match b {
            LogicalRecord::VCard { name: n2, phone: tel2, email: e2, organization: o2 } => {
                same_text(n1, n2) && same_text(tel1, tel2) && same_text(e1, e2) && same_text(o1, o2)
            },
            _ => false,
        },
        LogicalRecord::Email { address: a1, subject: s1, body: b1 } => match b {
            LogicalRecord::Email { address: a2, subject: s2, body: b2 } => same_text(a1, a2)
                && same_text(s1, s2) && same_text(b1, b2),
            _ => false,
        },
        LogicalRecord::Sms { phone: tel1, message: m1 } => match b {
            LogicalRecord::Sms { phone: tel2, message: m2 } => same_text(tel1, tel2) && same_text(
                m1,
                m2,
            ),
            _ => false,
        },
        LogicalRecord::Phone { number: x } => match b {
            LogicalRecord::Phone { number: y } => same_text(x, y),
            _ => false,
        },
        LogicalRecord::Unknown => match b {
            LogicalRecord::Unknown => true,
            _ => false,
        },
    }
}

/// Tells whether the record in `seen` says what the record in `written`
/// says.
pub fn check_content(written: &[u8], seen: &[u8]) -> (r: bool)
    ensures
        r == same_content(written@, seen@),
{
    match (decode_record(seen), decode_record(written)) {
        (Ok(a), Ok(b)) => same_record(&a, &b),
        _ => false,
    }
}

impl Ntag216 {
    /// Asks the tag for its identifier.
    pub fn identify<R: NfcCard>(&self, card: &mut LibnfcCardWrapper<R>) -> (r: Result<
        Vec<u8>,
        TagError,
    >)
        ensures
            extends(old(card).log(), final(card).log()),
            identify_trace(appended(old(card).log(), final(card).log()), bytes_view(r)),
    {
        let apdu = uid_apdu();
        let answer = card.transmit(apdu.as_slice());
        proof {
            let e = card.log().last();
            assert(card.log() =~= old(card).log() + seq![e]);
            lemma_grew_by(old(card).log(), card.log(), seq![e]);
        }
        match answer {
            Err(e) => Err(TagError::Read(e)),
            Ok(bytes) => {
                if bytes.len() == UID_BYTES {
                    Ok(bytes)
                } else if bytes.len() < UID_BYTES {
                    Err(TagError::ShortRead)
                } else {
                    Err(TagError::Read(TransportError::MalformedResponse))
                }
            },
        }
    }

    /// Writes the record and reads it back, once the tag type and the
    /// password have been dealt with.
    fn store<R: NfcCard>(
        &self,
        card: &mut LibnfcCardWrapper<R>,
        encoded: &Result<Vec<u8>, TagError>,
        authenticated: bool,
    ) -> (r: Result<(), TagError>)
        ensures
            extends(old(card).log(), final(card).log()),
            stored_trace(
                encoded_view(*encoded),
                authenticated,
                appended(old(card).log(), final(card).log()),
                r,
            ),
    {
        let ghost log0 = card.log();
        let bytes = match encoded {
            Err(e) => {
                proof {
                    lemma_grew_by(log0, card.log(), Seq::empty());
                }
                return Err(*e);
            },
            Ok(bytes) => bytes,
        };
        let wrote = self.write_message(card, bytes.as_slice(), authenticated);
        let ghost log1 = card.log();
        let ghost k = appended(log0, log1).len() as int;
        match wrote {
            Err(e) => {
                proof {
                    let t = appended(log0, log1);
                    assert(t.take(k) =~= t);
                    assert(written_at(bytes@, authenticated, t, k, wrote, Err(e)));
                    assert(stored_at(bytes@, authenticated, t, k, Err(e)));
                }
                return Err(e);
            },
            Ok(()) => {},
        }
        let seen = self.read_ndef_raw(card);
        let r = match &seen {
            Err(e) => Err(*e),
            Ok(None) => Err(TagError::WriteIntegrity),
            Ok(Some(back)) => {
                if check_content(bytes.as_slice(), back.as_slice()) {
                    Ok(())
                } else {
                    Err(TagError::WriteIntegrity)
                }
            },
        };
        proof {
            let t1 = appended(log0, log1);
            let t2 = appended(log1, card.log());
            lemma_extends_grew(log1, card.log());
            lemma_grew_twice(log0, log1, card.log(), t2);
            let t = appended(log0, card.log());
            assert(t.take(k) =~= t1);
            assert(t.skip(k) =~= t2);
            assert(read_message_trace(t.skip(k), message_view(seen)));
            assert(r == integrity(bytes@, message_view(seen)));
            assert(write_message_trace(bytes@, authenticated, t.take(k), wrote));
            assert(read_back(bytes@, t.skip(k), r));
            assert(written_at(bytes@, authenticated, t, k, wrote, r));
            assert(stored_at(bytes@, authenticated, t, k, r));
        }
        r
    }

    /// Presents `pwd` and, if the tag accepts it, stores what was encoded.
    fn store_authenticated<R: NfcCard>(
        &self,
        card: &mut LibnfcCardWrapper<R>,
        encoded: &Result<Vec<u8>, TagError>,
        pwd: &[u8; 4],
    ) -> (r: Result<(), TagError>)
        ensures
            extends(old(card).log(), final(card).log()),
            authenticated_trace(
                self.layout,
                encoded_view(*encoded),
                pwd@,
                appended(old(card).log(), final(card).log()),
                r,
            ),
    {
        let ghost log0 = card.log();
        match self.authenticate_password(card, pwd) {
            Err(e) => {
                proof {
                    lemma_auth_alone(appended(log0, card.log()));
                }
                return Err(e);
            },
            Ok(_) => {},
        }
        let ghost mid = card.log();
        let r = self.store(card, encoded, true);
        proof {
            let t = appended(mid, card.log());
            lemma_extends_grew(mid, card.log());
            lemma_grew_twice(log0, mid, card.log(), t);
            lemma_auth_then(appended(log0, mid), t);
        }
        r
    }

    /// Decides what the password is needed for, and stores what was encoded.
    fn store_guarded<R: NfcCard>(
        &self,
        card: &mut LibnfcCardWrapper<R>,
        encoded: &Result<Vec<u8>, TagError>,
        password: Option<&[u8; 4]>,
    ) -> (r: Result<(), TagError>)
        ensures
            extends(old(card).log(), final(card).log()),
            guarded_trace(
                self.layout,
                encoded_view(*encoded),
                password_view(password),
                appended(old(card).log(), final(card).log()),
                r,
            ),
    {
        let ghost log0 = card.log();
        let pwd = match password {
            None => {
                return self.store(card, encoded, false);
            },
            Some(pwd) => pwd,
        };
        let access = self.read_block(card, self.layout.access);
        let ghost mid = card.log();
        let needed = match access {
            Ok(page) => page[0] & PROTECT_BIT != 0,
            Err(TagError::Read(TransportError::Status { sw1, sw2 })) => {
                if sw1 == SW1_DENIED {
                    true
                } else {
                    return Err(TagError::Read(TransportError::Status { sw1, sw2 }));
                }
            },
            Err(e) => {
                return Err(e);
            },
        };
        let r = if needed {
            self.store_authenticated(card, encoded, pwd)
        } else {
            self.store(card, encoded, false)
        };
        proof {
            let t = appended(mid, card.log());
            lemma_extends_grew(mid, card.log());
            lemma_grew_twice(log0, mid, card.log(), t);
            assert(appended(log0, card.log()).skip(1) =~= t);
        }
        r
    }

    /// Carries out a complete write of what was encoded: confirms the tag
    /// type, authenticates if a password is given and protection is on,
    /// refuses a record that could not be encoded, writes and verifies page
    /// by page, and reads the record back.
    pub fn write_encoded<R: NfcCard>(
        &self,
        card: &mut LibnfcCardWrapper<R>,
        encoded: &Result<Vec<u8>, TagError>,
        password: Option<&[u8; 4]>,
    ) -> (r: Result<(), TagError>)
        ensures
            extends(old(card).log(), final(card).log()),
            write_record_trace(
                self.layout,
                encoded_view(*encoded),
                password_view(password),
                appended(old(card).log(), final(card).log()),
                r,
            ),
    {
        let ghost log0 = card.log();
        match self.check_type(card) {
            Err(e) => {
                return Err(e);
            },
            Ok(false) => {
                return Err(TagError::Frame);
            },
            Ok(true) => {},
        }
        let ghost mid = card.log();
        let r = self.store_guarded(card, encoded, password);
        proof {
            let t = appended(mid, card.log());
            lemma_extends_grew(mid, card.log());
            lemma_grew_twice(log0, mid, card.log(), t);
            assert(appended(log0, card.log()).skip(1) =~= t);
        }
        r
    }

    /// Writes `record` to the tag. A password is only used where the tag
    /// has protection switched on: writing never switches it on. After every
    /// page has been written and read back, the record is read from the tag
    /// once more and compared with what was written: success means that the
    /// tag was read as holding `record`, or, for a URI with the scheme of an
    /// e-mail, an SMS or a phone number, as holding that.
    pub fn write_record<R: NfcCard>(
        &self,
        card: &mut LibnfcCardWrapper<R>,
        record: &LogicalRecord,
        password: Option<&[u8; 4]>,
    ) -> (r: Result<(), TagError>)
        ensures
            extends(old(card).log(), final(card).log()),
            write_record_trace(
                self.layout,
                encode_spec(record@),
                password_view(password),
                appended(old(card).log(), final(card).log()),
                r,
            ),
            r is Ok && canonical(record@) ==> read_back_as(
                record@,
                appended(old(card).log(), final(card).log()),
            ),
    {
        let encoded = encode_record(record);
        let r = self.write_encoded(card, &encoded, password);
        proof {
            if r is Ok && canonical(record@) {
                let trace = appended(old(card).log(), card.log());
                assert(encode_spec(record@) is Ok) by {
                    lemma_write_encodes(
                        self.layout,
                        encode_spec(record@),
                        password_view(password),
                        trace,
                    );
                }
                law_record_roundtrip(record@);
                lemma_write_confirms(
                    self.layout,
                    encode_spec(record@),
                    password_view(password),
                    trace,
                    record@,
                );
            }
        }
        r
    }

    /// Reads the record that the tag holds: none where the tag holds no
    /// message, and [`LogicalRecord::Unknown`] where the message is of no
    /// known kind or does not decode.
    pub fn read_record<R: NfcCard>(&self, card: &mut LibnfcCardWrapper<R>) -> (r: Result<
        Option<LogicalRecord>,
        TagError,
    >)
        ensures
            extends(old(card).log(), final(card).log()),
            read_record_trace(appended(old(card).log(), final(card).log()), read_view(r)),
    {
        let seen = self.read_ndef_raw(card);
        let r = match &seen {
            Err(e) => Err(*e),
            Ok(None) => Ok(None),
            Ok(Some(bytes)) => match decode_record(bytes.as_slice()) {
                Ok(record) => Ok(Some(record)),
                Err(_) => Ok(Some(LogicalRecord::Unknown)),
            },
        };
        proof {
            let t = appended(old(card).log(), card.log());
            assert(read_message_trace(t, message_view(seen)));
            assert(read_view(r) == record_of(message_view(seen)));
        }
        r
    }
}

} // verus!
