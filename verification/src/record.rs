//! The record codec: from a logical record to the bytes of an NDEF record
//! and back.

use vstd::prelude::*;
use vstd::slice::slice_subrange;
use vstd::utf8::encode_utf8;
use crate::bluetooth::{bluetooth_type, mac_of_payload, MAC_BYTES};
use crate::bytes::{
    contains_byte, has_prefix, lacks, lemma_text_roundtrip, starts_with, text_from_bytes, text_of,
};
use crate::contact::{
    build_email_uri, build_sms_uri, build_tel_uri, email_of, email_rest, email_uri,
    lemma_email_roundtrip, lemma_prefixed, lemma_schemes, lemma_sms_roundtrip, mailto_scheme,
    parse_email, parse_sms, sms_of, sms_rest, sms_scheme, sms_uri, tel_scheme, tel_uri,
    AMPERSAND, QUESTION,
};
use crate::error::TagError;
use crate::ndef::{
    build_record, lemma_split_build, parse_record, record_bytes, split_record, HEADER_EXTERNAL,
    HEADER_MIME, HEADER_WELL_KNOWN, MAX_FIELD, TNF_EXTERNAL, TNF_MIME, TNF_WELL_KNOWN,
};
use crate::text::{
    decode_text_payload, encode_text_payload, lemma_text_payload_roundtrip, text_of_payload,
    text_payload, text_type, MAX_LANGUAGE_BYTES, MAX_TEXT_BYTES,
};
use crate::uri::{
    decode_uri_payload, encode_uri_payload, lemma_uri_roundtrip, uri_of_payload, uri_payload,
    uri_type, MAX_URI_BYTES,
};
use crate::vcard::{
    build_vcard, card_fields, lemma_vcard_roundtrip, parse_vcard, vcard_text, vcard_type, LF,
};
use crate::wifi::{
    decode_wifi_payload, encode_wifi_payload, lemma_wifi_roundtrip, same_bytes, wifi_of_payload,
    wifi_payload, wifi_type, WifiSecurity,
};

verus! {

/// What a tag can say, by kind.
#[derive(Clone, Debug, PartialEq, Eq)]
pub enum LogicalRecord {
    Uri { uri: String },
    Text { value: String, language: String },
    Wifi { ssid: String, password: String, security: WifiSecurity },
    Bluetooth { mac: [u8; 6] },
    VCard { name: String, phone: String, email: String, organization: String },
    Email { address: String, subject: String, body: String },
    Sms { phone: String, message: String },
    Phone { number: String },
    /// A well-formed record of a type that this codec does not know.
    Unknown,
}

/// The mathematical content of a [`LogicalRecord`].
pub enum RecordModel {
    Uri { uri: Seq<char> },
    Text { value: Seq<char>, language: Seq<char> },
    Wifi { ssid: Seq<char>, password: Seq<char>, security: WifiSecurity },
    Bluetooth { mac: Seq<u8> },
    VCard { name: Seq<char>, phone: Seq<char>, email: Seq<char>, organization: Seq<char> },
    Email { address: Seq<char>, subject: Seq<char>, body: Seq<char> },
    Sms { phone: Seq<char>, message: Seq<char> },
    Phone { number: Seq<char> },
    Unknown,
}

impl View for LogicalRecord {
    type V = RecordModel;

    open spec fn view(&self) -> RecordModel {
        match self {
            LogicalRecord::Uri { uri } => RecordModel::Uri { uri: uri@ },
            LogicalRecord::Text { value, language } => RecordModel::Text {
                value: value@,
                language: language@,
            },
            LogicalRecord::Wifi { ssid, password, security } => RecordModel::Wifi {
                ssid: ssid@,
                password: password@,
                security: *security,
            },
            LogicalRecord::Bluetooth { mac } => RecordModel::Bluetooth { mac: mac@ },
            LogicalRecord::VCard { name, phone, email, organization } => RecordModel::VCard {
                name: name@,
                phone: phone@,
                email: email@,
                organization: organization@,
            },
            LogicalRecord::Email { address, subject, body } => RecordModel::Email {
                address: address@,
                subject: subject@,
                body: body@,
            },
            LogicalRecord::Sms { phone, message } => RecordModel::Sms {
                phone: phone@,
                message: message@,
            },
            LogicalRecord::Phone { number } => RecordModel::Phone { number: number@ },
            LogicalRecord::Unknown => RecordModel::Unknown,
        }
    }
}

/// The longest vCard text that fits into a short record.
pub const MAX_VCARD_BYTES: usize = 255;

/// The record that stores the URI `uri`, if it is short enough.
pub open spec fn uri_record(uri: Seq<u8>) -> Result<Seq<u8>, TagError> {
    if uri.len() > MAX_URI_BYTES {
        Err(TagError::InvalidRecord)
    } else {
        Ok(record_bytes(HEADER_WELL_KNOWN, uri_type(), uri_payload(uri)))
    }
}

/// The record that stores `text` in `language`, if both are short enough.
pub open spec fn text_record(language: Seq<u8>, text: Seq<u8>) -> Result<Seq<u8>, TagError> {
    if language.len() > MAX_LANGUAGE_BYTES || text.len() > MAX_TEXT_BYTES {
        Err(TagError::InvalidRecord)
    } else {
        Ok(record_bytes(HEADER_WELL_KNOWN, text_type(), text_payload(language, text)))
    }
}

/// The record that stores a network's credential, if it fits.
pub open spec fn wifi_record(ssid: Seq<u8>, key: Seq<u8>, security: WifiSecurity) -> Result<
    Seq<u8>,
    TagError,
> {
    if ssid.len() + key.len() + 23 > MAX_FIELD {
        Err(TagError::InvalidRecord)
    } else {
        Ok(record_bytes(HEADER_EXTERNAL, wifi_type(), wifi_payload(ssid, key, security)))
    }
}

/// The record that stores a device address.
pub open spec fn bluetooth_record(mac: Seq<u8>) -> Result<Seq<u8>, TagError> {
    if mac.len() != MAC_BYTES {
        Err(TagError::InvalidRecord)
    } else {
        Ok(record_bytes(HEADER_EXTERNAL, bluetooth_type(), mac))
    }
}

/// The record that stores the text of a vCard, if it is short enough.
pub open spec fn vcard_record(text: Seq<u8>) -> Result<Seq<u8>, TagError> {
    if text.len() > MAX_VCARD_BYTES {
        Err(TagError::InvalidRecord)
    } else {
        Ok(record_bytes(HEADER_MIME, vcard_type(), text))
    }
}

/// The record that stores a card with the given fields. A field that holds
/// a line feed cannot be told from two lines when the card is read, and is
/// refused.
pub open spec fn card_record(name: Seq<u8>, phone: Seq<u8>, email: Seq<u8>, org: Seq<u8>) -> Result<
    Seq<u8>,
    TagError,
> {
    if !lacks(name, LF) || !lacks(phone, LF) || !lacks(email, LF) || !lacks(org, LF) {
        Err(TagError::InvalidRecord)
    } else {
        vcard_record(vcard_text(name, phone, email, org))
    }
}

/// The record that stores an e-mail. An address with a question mark or a
/// subject with an ampersand would be cut short when the record is read, and
/// is refused.
pub open spec fn email_record(address: Seq<u8>, subject: Seq<u8>, body: Seq<u8>) -> Result<
    Seq<u8>,
    TagError,
> {
    if !lacks(address, QUESTION) || !lacks(subject, AMPERSAND) {
        Err(TagError::InvalidRecord)
    } else {
        uri_record(email_uri(address, subject, body))
    }
}

/// The record that stores an SMS. A number with a question mark would be cut
/// short when the record is read, and is refused.
pub open spec fn sms_record(phone: Seq<u8>, message: Seq<u8>) -> Result<Seq<u8>, TagError> {
    if !lacks(phone, QUESTION) {
        Err(TagError::InvalidRecord)
    } else {
        uri_record(sms_uri(phone, message))
    }
}

/// The bytes of the record that stores `record`, or the report that it
/// cannot be stored.
pub open spec fn encode_spec(record: RecordModel) -> Result<Seq<u8>, TagError> {
    match record {
        RecordModel::Uri { uri } => uri_record(encode_utf8(uri)),
        RecordModel::Text { value, language } => text_record(
            encode_utf8(language),
            encode_utf8(value),
        ),
        RecordModel::Wifi { ssid, password, security } => wifi_record(
            encode_utf8(ssid),
            encode_utf8(password),
            security,
        ),
        RecordModel::Bluetooth { mac } => bluetooth_record(mac),
        RecordModel::VCard { name, phone, email, organization } => card_record(
            encode_utf8(name),
            encode_utf8(phone),
            encode_utf8(email),
            encode_utf8(organization),
        ),
        RecordModel::Email { address, subject, body } => email_record(
            encode_utf8(address),
            encode_utf8(subject),
            encode_utf8(body),
        ),
        RecordModel::Sms { phone, message } => sms_record(
            encode_utf8(phone),
            encode_utf8(message),
        ),
        RecordModel::Phone { number } => uri_record(tel_uri(encode_utf8(number))),
        RecordModel::Unknown => Err(TagError::InvalidRecord),
    }
}

/// The record that a URI stands for: an e-mail, an SMS or a phone number
/// where it has that scheme, and the URI itself otherwise.
pub open spec fn classify(uri: Seq<u8>) -> RecordModel {
    if starts_with(uri, mailto_scheme()) {
        let parts = email_of(uri.skip(mailto_scheme().len() as int));
        RecordModel::Email {
            address: text_of(parts.0),
            subject: text_of(parts.1),
            body: text_of(parts.2),
        }
    } else if starts_with(uri, sms_scheme()) {
        let parts = sms_of(uri.skip(sms_scheme().len() as int));
        RecordModel::Sms { phone: text_of(parts.0), message: text_of(parts.1) }
    } else if starts_with(uri, tel_scheme()) {
        RecordModel::Phone { number: text_of(uri.skip(tel_scheme().len() as int)) }
    } else {
        RecordModel::Uri { uri: text_of(uri) }
    }
}

/// The logical record that `bytes` store. Bytes that are not a record, or
/// whose payload is not what their type asks for, fail to decode; a record
/// of another type decodes as [`RecordModel::Unknown`].
pub open spec fn decode_spec(bytes: Seq<u8>) -> Result<RecordModel, TagError> {
    match split_record(bytes) {
        None => Err(TagError::InvalidRecord),
        Some(parts) => {
            if parts.tnf == TNF_WELL_KNOWN && parts.rtype == uri_type() {
                if parts.payload.len() == 0 {
                    Err(TagError::InvalidRecord)
                } else {
                    Ok(classify(uri_of_payload(parts.payload)))
                }
            } else if parts.tnf == TNF_WELL_KNOWN && parts.rtype == text_type() {
                match text_of_payload(parts.payload) {
                    None => Err(TagError::InvalidRecord),
                    Some((language, text)) => Ok(
                        RecordModel::Text { value: text_of(text), language: text_of(language) },
                    ),
                }
            } else if parts.tnf == TNF_MIME && parts.rtype == vcard_type() {
                let fields = card_fields(parts.payload);
                Ok(
                    RecordModel::VCard {
                        name: text_of(fields.0),
                        phone: text_of(fields.1),
                        email: text_of(fields.2),
                        organization: text_of(fields.3),
                    },
                )
            } else if parts.tnf == TNF_EXTERNAL && parts.rtype == wifi_type() {
                match wifi_of_payload(parts.payload) {
                    None => Err(TagError::InvalidRecord),
                    Some((ssid, key, security)) => Ok(
                        RecordModel::Wifi {
                            ssid: text_of(ssid),
                            password: text_of(key),
                            security,
                        },
                    ),
                }
            } else if parts.tnf == TNF_EXTERNAL && parts.rtype == bluetooth_type() {
                match mac_of_payload(parts.payload) {
                    None => Err(TagError::InvalidRecord),
                    Some(mac) => Ok(RecordModel::Bluetooth { mac }),
                }
            } else {
                Ok(RecordModel::Unknown)
            }
        },
    }
}

/// The mathematical content of an encoding result.
pub open spec fn encoded_view(r: Result<Vec<u8>, TagError>) -> Result<Seq<u8>, TagError> {
    match r {
        Ok(bytes) => Ok(bytes@),
        Err(e) => Err(e),
    }
}

/// The mathematical content of a decoding result.
pub open spec fn decoded_view(r: Result<LogicalRecord, TagError>) -> Result<RecordModel, TagError> {
    match r {
        Ok(record) => Ok(record@),
        Err(e) => Err(e),
    }
}

/// Builds the record that stores the URI `uri`.
pub fn encode_uri(uri: &[u8]) -> (r: Result<Vec<u8>, TagError>)
    ensures
        encoded_view(r) == uri_record(uri@),
{
    if uri.len() > MAX_URI_BYTES {
        return Err(TagError::InvalidRecord);
    }
    let payload = encode_uri_payload(uri);
    proof {
        lemma_types();
    }
    build_record(HEADER_WELL_KNOWN, "U".as_bytes(), payload.as_slice())
}

/// Builds the record that stores `text` in `language`.
pub fn encode_text(language: &[u8], text: &[u8]) -> (r: Result<Vec<u8>, TagError>)
    ensures
        encoded_view(r) == text_record(language@, text@),
{
    if language.len() > MAX_LANGUAGE_BYTES || text.len() > MAX_TEXT_BYTES {
        return Err(TagError::InvalidRecord);
    }
    let payload = encode_text_payload(language, text);
    proof {
        lemma_types();
    }
    build_record(HEADER_WELL_KNOWN, "T".as_bytes(), payload.as_slice())
}

/// Builds the record that stores a network's credential.
pub fn encode_wifi(ssid: &[u8], key: &[u8], security: WifiSecurity) -> (r: Result<
    Vec<u8>,
    TagError,
>)
    ensures
        encoded_view(r) == wifi_record(ssid@, key@, security),
{
    if ssid.len() > MAX_FIELD || key.len() > MAX_FIELD || ssid.len() + key.len() + 23
        > MAX_FIELD {
        return Err(TagError::InvalidRecord);
    }
    let payload = encode_wifi_payload(ssid, key, security);
    proof {
        lemma_types();
    }
    build_record(HEADER_EXTERNAL, "wfa.org:WFA".as_bytes(), payload.as_slice())
}

/// Builds the record that stores a device address.
pub fn encode_bluetooth(mac: &[u8; 6]) -> (r: Result<Vec<u8>, TagError>)
    ensures
        encoded_view(r) == bluetooth_record(mac@),
{
    proof {
        lemma_types();
    }
    build_record(HEADER_EXTERNAL, "application/vnd.bluetooth.ep.oob".as_bytes(), mac.as_slice())
}

/// Builds the record that stores the text of a vCard.
pub fn encode_vcard(text: &[u8]) -> (r: Result<Vec<u8>, TagError>)
    ensures
        encoded_view(r) == vcard_record(text@),
{
    if text.len() > MAX_VCARD_BYTES {
        return Err(TagError::InvalidRecord);
    }
    proof {
        lemma_types();
    }
    build_record(HEADER_MIME, "text/vcard".as_bytes(), text)
}

/// Builds the record that stores a card with the given fields.
pub fn encode_card(name: &[u8], phone: &[u8], email: &[u8], org: &[u8]) -> (r: Result<
    Vec<u8>,
    TagError,
>)
    ensures
        encoded_view(r) == card_record(name@, phone@, email@, org@),
{
    if contains_byte(name, LF) || contains_byte(phone, LF) || contains_byte(email, LF)
        || contains_byte(org, LF) {
        return Err(TagError::InvalidRecord);
    }
    let text = build_vcard(name, phone, email, org);
    encode_vcard(text.as_slice())
}

/// Builds the record that stores an e-mail.
pub fn encode_email(address: &[u8], subject: &[u8], body: &[u8]) -> (r: Result<Vec<u8>, TagError>)
    ensures
        encoded_view(r) == email_record(address@, subject@, body@),
{
    if contains_byte(address, QUESTION) || contains_byte(subject, AMPERSAND) {
        return Err(TagError::InvalidRecord);
    }
    let uri = build_email_uri(address, subject, body);
    encode_uri(uri.as_slice())
}

/// Builds the record that stores an SMS.
pub fn encode_sms(phone: &[u8], message: &[u8]) -> (r: Result<Vec<u8>, TagError>)
    ensures
        encoded_view(r) == sms_record(phone@, message@),
{
    if contains_byte(phone, QUESTION) {
        return Err(TagError::InvalidRecord);
    }
    let uri = build_sms_uri(phone, message);
    encode_uri(uri.as_slice())
}

/// Builds the bytes of the record that stores `record`.
pub fn encode_record(record: &LogicalRecord) -> (r: Result<Vec<u8>, TagError>)
    ensures
        encoded_view(r) == encode_spec(record@),
{
    match record {
        LogicalRecord::Uri { uri } => encode_uri(uri.as_str().as_bytes()),
        LogicalRecord::Text { value, language } => encode_text(
            language.as_str().as_bytes(),
            value.as_str().as_bytes(),
        ),
        LogicalRecord::Wifi { ssid, password, security } => encode_wifi(
            ssid.as_str().as_bytes(),
            password.as_str().as_bytes(),
            *security,
        ),
        LogicalRecord::Bluetooth { mac } => encode_bluetooth(mac),
        LogicalRecord::VCard { name, phone, email, organization } => encode_card(
            name.as_str().as_bytes(),
            phone.as_str().as_bytes(),
            email.as_str().as_bytes(),
            organization.as_str().as_bytes(),
        ),
        LogicalRecord::Email { address, subject, body } => encode_email(
            address.as_str().as_bytes(),
            subject.as_str().as_bytes(),
            body.as_str().as_bytes(),
        ),
        LogicalRecord::Sms { phone, message } => encode_sms(
            phone.as_str().as_bytes(),
            message.as_str().as_bytes(),
        ),
        LogicalRecord::Phone { number } => {
            let uri = build_tel_uri(number.as_str().as_bytes());
            encode_uri(uri.as_slice())
        },
        LogicalRecord::Unknown => Err(TagError::InvalidRecord),
    }
}

/// Tells which record a URI stands for.
pub fn classify_uri(uri: &[u8]) -> (r: LogicalRecord)
    ensures
        r@ == classify(uri@),
{
    let mailto = "mailto:".as_bytes();
    let sms = "sms:".as_bytes();
    let tel = "tel:".as_bytes();
    if has_prefix(uri, mailto) {
        let rest = slice_subrange(uri, mailto.len(), uri.len());
        assert(rest@ =~= uri@.skip(mailto@.len() as int));
        let (address, subject, body) = parse_email(rest);
        LogicalRecord::Email {
            address: text_from_bytes(address.as_slice()),
            subject: text_from_bytes(subject.as_slice()),
            body: text_from_bytes(body.as_slice()),
        }
    } else if has_prefix(uri, sms) {
        let rest = slice_subrange(uri, sms.len(), uri.len());
        assert(rest@ =~= uri@.skip(sms@.len() as int));
        let (phone, message) = parse_sms(rest);
        LogicalRecord::Sms {
            phone: text_from_bytes(phone.as_slice()),
            message: text_from_bytes(message.as_slice()),
        }
    } else if has_prefix(uri, tel) {
        let rest = slice_subrange(uri, tel.len(), uri.len());
        assert(rest@ =~= uri@.skip(tel@.len() as int));
        LogicalRecord::Phone { number: text_from_bytes(rest) }
    } else {
        LogicalRecord::Uri { uri: text_from_bytes(uri) }
    }
}

/// Reads the logical record that `bytes` store.
pub fn decode_record(bytes: &[u8]) -> (r: Result<LogicalRecord, TagError>)
    ensures
        decoded_view(r) == decode_spec(bytes@),
{
    let raw = match parse_record(bytes) {
        None => {
            return Err(TagError::InvalidRecord);
        },
        Some(raw) => raw,
    };
    let rtype = raw.rtype.as_slice();
    let payload = raw.payload.as_slice();
    if raw.tnf == TNF_WELL_KNOWN && same_bytes(rtype, "U".as_bytes()) {
        if payload.len() == 0 {
            Err(TagError::InvalidRecord)
        } else {
            let uri = decode_uri_payload(payload);
            Ok(classify_uri(uri.as_slice()))
        }
    } else if raw.tnf == TNF_WELL_KNOWN && same_bytes(rtype, "T".as_bytes()) {
        match decode_text_payload(payload) {
            None => Err(TagError::InvalidRecord),
            Some((language, text)) => Ok(
                LogicalRecord::Text {
                    value: text_from_bytes(text.as_slice()),
                    language: text_from_bytes(language.as_slice()),
                },
            ),
        }
    } else if raw.tnf == TNF_MIME && same_bytes(rtype, "text/vcard".as_bytes()) {
        let fields = parse_vcard(payload);
        Ok(
            LogicalRecord::VCard {
                name: text_from_bytes(fields.name.as_slice()),
                phone: text_from_bytes(fields.phone.as_slice()),
                email: text_from_bytes(fields.email.as_slice()),
                organization: text_from_bytes(fields.organization.as_slice()),
            },
        )
    } else if raw.tnf == TNF_EXTERNAL && same_bytes(rtype, "wfa.org:WFA".as_bytes()) {
        match decode_wifi_payload(payload) {
            None => Err(TagError::InvalidRecord),
            Some((ssid, key, security)) => Ok(
                LogicalRecord::Wifi {
                    ssid: text_from_bytes(ssid.as_slice()),
                    password: text_from_bytes(key.as_slice()),
                    security,
                },
            ),
        }
    } else if raw.tnf == TNF_EXTERNAL && same_bytes(
        rtype,
        "application/vnd.bluetooth.ep.oob".as_bytes(),
    ) {
        if payload.len() == MAC_BYTES {
            let mac = [payload[0], payload[1], payload[2], payload[3], payload[4], payload[5]];
            assert(mac@ =~= payload@);
            Ok(LogicalRecord::Bluetooth { mac })
        } else {
            Err(TagError::InvalidRecord)
        }
    } else {
        Ok(LogicalRecord::Unknown)
    }
}

/// What is known of the record types: each fits into a short record, and
/// those that share a type-name format differ.
pub proof fn lemma_types()
    ensures
        uri_type().len() == 1,
        text_type().len() == 1,
        vcard_type().len() == 10,
        wifi_type().len() == 11,
        bluetooth_type().len() == 32,
        uri_type() != text_type(),
        wifi_type() != bluetooth_type(),
{
    reveal_strlit("U");
    reveal_strlit("T");
    reveal_strlit("text/vcard");
    reveal_strlit("wfa.org:WFA");
    reveal_strlit("application/vnd.bluetooth.ep.oob");
    crate::bytes::lemma_ascii_bytes("U");
    crate::bytes::lemma_ascii_bytes("T");
    crate::bytes::lemma_ascii_bytes("text/vcard");
    crate::bytes::lemma_ascii_bytes("wfa.org:WFA");
    crate::bytes::lemma_ascii_bytes("application/vnd.bluetooth.ep.oob");
    assert(uri_type()[0] == 0x55);
    assert(text_type()[0] == 0x54);
}

/// Whether a record reads back as the kind it was written as. A URI with
/// the scheme of an e-mail, an SMS or a phone number is stored like any
/// other, and is read as that e-mail, SMS or phone number; every other record
/// that can be encoded reads back as itself.
pub open spec fn canonical(record: RecordModel) -> bool {
    match record {
        RecordModel::Uri { uri } => {
            &&& !starts_with(encode_utf8(uri), mailto_scheme())
            &&& !starts_with(encode_utf8(uri), sms_scheme())
            &&& !starts_with(encode_utf8(uri), tel_scheme())
        },
        _ => true,
    }
}

/// A URI record that was built decodes as what its URI stands for.
pub proof fn lemma_uri_record(uri: Seq<u8>)
    requires
        uri.len() <= MAX_URI_BYTES,
    ensures
        decode_spec(uri_record(uri)->Ok_0) == Ok::<RecordModel, TagError>(classify(uri)),
{
    lemma_types();
    lemma_uri_roundtrip(uri);
    let payload = uri_payload(uri);
    assert(payload.len() <= uri.len() + 1);
    lemma_split_build(HEADER_WELL_KNOWN, uri_type(), payload);
}

/// A text record that was built decodes as the text it was built from.
pub proof fn lemma_text_record(language: Seq<char>, value: Seq<char>)
    requires
        encode_utf8(language).len() <= MAX_LANGUAGE_BYTES,
        encode_utf8(value).len() <= MAX_TEXT_BYTES,
    ensures
        decode_spec(text_record(encode_utf8(language), encode_utf8(value))->Ok_0) == Ok::<
            RecordModel,
            TagError,
        >(RecordModel::Text { value, language }),
{
    lemma_types();
    let payload = text_payload(encode_utf8(language), encode_utf8(value));
    lemma_text_payload_roundtrip(encode_utf8(language), encode_utf8(value));
    lemma_split_build(HEADER_WELL_KNOWN, text_type(), payload);
    lemma_text_roundtrip(language);
    lemma_text_roundtrip(value);
}

/// A WiFi record that was built decodes as the credential it was built from.
pub proof fn lemma_wifi_record(ssid: Seq<char>, password: Seq<char>, security: WifiSecurity)
    requires
        encode_utf8(ssid).len() + encode_utf8(password).len() + 23 <= MAX_FIELD,
    ensures
        decode_spec(wifi_record(encode_utf8(ssid), encode_utf8(password), security)->Ok_0) == Ok::<
            RecordModel,
            TagError,
        >(RecordModel::Wifi { ssid, password, security }),
{
    lemma_types();
    let payload = wifi_payload(encode_utf8(ssid), encode_utf8(password), security);
    lemma_wifi_roundtrip(encode_utf8(ssid), encode_utf8(password), security);
    lemma_split_build(HEADER_EXTERNAL, wifi_type(), payload);
    lemma_text_roundtrip(ssid);
    lemma_text_roundtrip(password);
}

/// A Bluetooth record that was built decodes as the address it was built
/// from.
pub proof fn lemma_bluetooth_record(mac: Seq<u8>)
    requires
        mac.len() == MAC_BYTES,
    ensures
        decode_spec(bluetooth_record(mac)->Ok_0) == Ok::<RecordModel, TagError>(
            RecordModel::Bluetooth { mac },
        ),
{
    lemma_types();
    lemma_split_build(HEADER_EXTERNAL, bluetooth_type(), mac);
}

/// A vCard record that was built decodes as the fields it was built from.
pub proof fn lemma_vcard_record(
    name: Seq<char>,
    phone: Seq<char>,
    email: Seq<char>,
    organization: Seq<char>,
)
    requires
        encode_spec(RecordModel::VCard { name, phone, email, organization }) is Ok,
    ensures
        decode_spec(encode_spec(RecordModel::VCard { name, phone, email, organization })->Ok_0)
            == Ok::<RecordModel, TagError>(RecordModel::VCard { name, phone, email, organization }),
{
    lemma_types();
    let text = vcard_text(
        encode_utf8(name),
        encode_utf8(phone),
        encode_utf8(email),
        encode_utf8(organization),
    );
    lemma_vcard_roundtrip(
        encode_utf8(name),
        encode_utf8(phone),
        encode_utf8(email),
        encode_utf8(organization),
    );
    lemma_split_build(HEADER_MIME, vcard_type(), text);
    lemma_text_roundtrip(name);
    lemma_text_roundtrip(phone);
    lemma_text_roundtrip(email);
    lemma_text_roundtrip(organization);
}

/// A string does not begin with a prefix whose first byte differs from its
/// own.
pub proof fn lemma_other_scheme(s: Seq<u8>, p: Seq<u8>)
    requires
        s.len() > 0,
        p.len() > 0,
        s[0] != p[0],
    ensures
        !starts_with(s, p),
{
    if p.len() <= s.len() {
        assert(s.take(p.len() as int)[0] == s[0]);
    }
}

/// The URI of an e-mail stands for that e-mail, provided that the address
/// holds no question mark and the subject no ampersand.
pub proof fn lemma_classify_email(address: Seq<char>, subject: Seq<char>, body: Seq<char>)
    requires
        lacks(encode_utf8(address), QUESTION),
        lacks(encode_utf8(subject), AMPERSAND),
    ensures
        classify(email_uri(encode_utf8(address), encode_utf8(subject), encode_utf8(body)))
            == (RecordModel::Email { address, subject, body }),
{
    lemma_schemes();
    let rest = email_rest(encode_utf8(address), encode_utf8(subject), encode_utf8(body));
    lemma_prefixed(mailto_scheme(), rest);
    lemma_email_roundtrip(encode_utf8(address), encode_utf8(subject), encode_utf8(body));
    lemma_text_roundtrip(address);
    lemma_text_roundtrip(subject);
    lemma_text_roundtrip(body);
}

/// The URI of an SMS stands for that SMS, provided that the number holds no
/// question mark.
pub proof fn lemma_classify_sms(phone: Seq<char>, message: Seq<char>)
    requires
        lacks(encode_utf8(phone), QUESTION),
    ensures
        classify(sms_uri(encode_utf8(phone), encode_utf8(message))) == (RecordModel::Sms {
            phone,
            message,
        }),
{
    lemma_schemes();
    let rest = sms_rest(encode_utf8(phone), encode_utf8(message));
    let uri = sms_uri(encode_utf8(phone), encode_utf8(message));
    lemma_prefixed(sms_scheme(), rest);
    assert(uri[0] == sms_scheme()[0]);
    lemma_other_scheme(uri, mailto_scheme());
    lemma_sms_roundtrip(encode_utf8(phone), encode_utf8(message));
    lemma_text_roundtrip(phone);
    lemma_text_roundtrip(message);
}

/// The URI of a phone number stands for that number.
pub proof fn lemma_classify_phone(number: Seq<char>)
    ensures
        classify(tel_uri(encode_utf8(number))) == (RecordModel::Phone { number }),
{
    lemma_schemes();
    let uri = tel_uri(encode_utf8(number));
    lemma_prefixed(tel_scheme(), encode_utf8(number));
    assert(uri[0] == tel_scheme()[0]);
    lemma_other_scheme(uri, mailto_scheme());
    lemma_other_scheme(uri, sms_scheme());
    lemma_text_roundtrip(number);
}

/// Decoding what was encoded gives the record that was encoded: for every
/// record that can be encoded, but for a URI that has the scheme of an
/// e-mail, an SMS or a phone number, which is read as that.
pub proof fn law_record_roundtrip(record: RecordModel)
    requires
        encode_spec(record) is Ok,
        canonical(record),
    ensures
        decode_spec(encode_spec(record)->Ok_0) == Ok::<RecordModel, TagError>(record),
{
    match record {
        RecordModel::Uri { uri } => {
            lemma_uri_record(encode_utf8(uri));
            lemma_text_roundtrip(uri);
        },
        RecordModel::Text { value, language } => {
            lemma_text_record(language, value);
        },
        RecordModel::Wifi { ssid, password, security } => {
            lemma_wifi_record(ssid, password, security);
        },
        RecordModel::Bluetooth { mac } => {
            lemma_bluetooth_record(mac);
        },
        RecordModel::VCard { name, phone, email, organization } => {
            lemma_vcard_record(name, phone, email, organization);
        },
        RecordModel::Email { address, subject, body } => {
            lemma_uri_record(
                email_uri(encode_utf8(address), encode_utf8(subject), encode_utf8(body)),
            );
            lemma_classify_email(address, subject, body);
        },
        RecordModel::Sms { phone, message } => {
            lemma_uri_record(sms_uri(encode_utf8(phone), encode_utf8(message)));
            lemma_classify_sms(phone, message);
        },
        RecordModel::Phone { number } => {
            lemma_uri_record(tel_uri(encode_utf8(number)));
            lemma_classify_phone(number);
        },
        RecordModel::Unknown => {},
    }
}

} // verus!
