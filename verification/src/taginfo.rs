//! What is reported about a tag after an operation: its identifier and, kind
//! by kind, what its record says.

use vstd::prelude::*;
use crate::bluetooth::{format_mac, mac_text};
use crate::bytes::text_of;
use crate::record::{LogicalRecord, RecordModel};
use crate::wifi::security_name;

verus! {

/// A reader as it is listed.
#[derive(Clone, Debug, PartialEq, Eq)]
pub struct NFCReaderInfo {
    pub name: String,
}

/// A tag as it is reported: every field that the kind of its record does
/// not fill stays empty.
#[derive(Clone, Debug, PartialEq, Eq)]
pub struct TagInfo {
    pub uid: Vec<u8>,
    pub url: Option<String>,
    pub text: Option<String>,
    pub language: Option<String>,
    pub record_type: Option<String>,
    pub wifi_ssid: Option<String>,
    pub wifi_security: Option<String>,
    pub bluetooth_mac: Option<String>,
    pub vcard_name: Option<String>,
    pub vcard_phone: Option<String>,
    pub vcard_email: Option<String>,
    pub vcard_organization: Option<String>,
    pub email_address: Option<String>,
    pub email_subject: Option<String>,
    pub email_body: Option<String>,
    pub sms_phone: Option<String>,
    pub sms_message: Option<String>,
    pub phone_number: Option<String>,
}

/// The mathematical content of a [`TagInfo`].
pub struct InfoModel {
    pub uid: Seq<u8>,
    pub url: Option<Seq<char>>,
    pub text: Option<Seq<char>>,
    pub language: Option<Seq<char>>,
    pub record_type: Option<Seq<char>>,
    pub wifi_ssid: Option<Seq<char>>,
    pub wifi_security: Option<Seq<char>>,
    pub bluetooth_mac: Option<Seq<char>>,
    pub vcard_name: Option<Seq<char>>,
    pub vcard_phone: Option<Seq<char>>,
    pub vcard_email: Option<Seq<char>>,
    pub vcard_organization: Option<Seq<char>>,
    pub email_address: Option<Seq<char>>,
    pub email_subject: Option<Seq<char>>,
    pub email_body: Option<Seq<char>>,
    pub sms_phone: Option<Seq<char>>,
    pub sms_message: Option<Seq<char>>,
    pub phone_number: Option<Seq<char>>,
}

/// The mathematical content of an optional text.
pub open spec fn opt_text(o: Option<String>) -> Option<Seq<char>> {
    match o {
        Some(s) => Some(s@),
        None => None,
    }
}

impl View for TagInfo {
    type V = InfoModel;

    open spec fn view(&self) -> InfoModel {
        InfoModel {
            uid: self.uid@,
            url: opt_text(self.url),
            text: opt_text(self.text),
            language: opt_text(self.language),
            record_type: opt_text(self.record_type),
            wifi_ssid: opt_text(self.wifi_ssid),
            wifi_security: opt_text(self.wifi_security),
            bluetooth_mac: opt_text(self.bluetooth_mac),
            vcard_name: opt_text(self.vcard_name),
            vcard_phone: opt_text(self.vcard_phone),
            vcard_email: opt_text(self.vcard_email),
            vcard_organization: opt_text(self.vcard_organization),
            email_address: opt_text(self.email_address),
            email_subject: opt_text(self.email_subject),
            email_body: opt_text(self.email_body),
            sms_phone: opt_text(self.sms_phone),
            sms_message: opt_text(self.sms_message),
            phone_number: opt_text(self.phone_number),
        }
    }
}

/// The report on a tag of which only the identifier is known.
pub open spec fn blank(uid: Seq<u8>) -> InfoModel {
    InfoModel {
        uid,
        url: None,
        text: None,
        language: None,
        record_type: None,
        wifi_ssid: None,
        wifi_security: None,
        bluetooth_mac: None,
        vcard_name: None,
        vcard_phone: None,
        vcard_email: None,
        vcard_organization: None,
        email_address: None,
        email_subject: None,
        email_body: None,
        sms_phone: None,
        sms_message: None,
        phone_number: None,
    }
}

/// The report on a tag with the given identifier and record. Only a URI
/// record is reported with a URI: the parts of an e-mail, an SMS or a phone
/// number are reported as parts.
pub open spec fn info_of(uid: Seq<u8>, record: RecordModel) -> InfoModel {
    match record {
        RecordModel::Uri { uri } => InfoModel {
            url: Some(uri),
            record_type: Some("uri"@),
            ..blank(uid)
        },
        RecordModel::Text { value, language } => InfoModel {
            text: Some(value),
            language: Some(language),
            record_type: Some("text"@),
            ..blank(uid)
        },
        RecordModel::Wifi { ssid, password, security } => InfoModel {
            wifi_ssid: Some(ssid),
            wifi_security: Some(security_name(security)),
            record_type: Some("wifi"@),
            ..blank(uid)
        },
        RecordModel::Bluetooth { mac } => InfoModel {
            bluetooth_mac: Some(text_of(mac_text(mac))),
            record_type: Some("bluetooth"@),
            ..blank(uid)
        },
        RecordModel::VCard { name, phone, email, organization } => InfoModel {
            vcard_name: Some(name),
            vcard_phone: Some(phone),
            vcard_email: Some(email),
            vcard_organization: Some(organization),
            record_type: Some("vcard"@),
            ..blank(uid)
        },
        RecordModel::Email { address, subject, body } => InfoModel {
            email_address: Some(address),
            email_subject: Some(subject),
            email_body: Some(body),
            record_type: Some("email"@),
            ..blank(uid)
        },
        RecordModel::Sms { phone, message } => InfoModel {
            sms_phone: Some(phone),
            sms_message: Some(message),
            record_type: Some("sms"@),
            ..blank(uid)
        },
        RecordModel::Phone { number } => InfoModel {
            phone_number: Some(number),
            record_type: Some("phone"@),
            ..blank(uid)
        },
        RecordModel::Unknown => InfoModel { record_type: Some("unknown"@), ..blank(uid) },
    }
}

impl TagInfo {
    /// The report on a tag of which only the identifier is known.
    pub fn new(uid: Vec<u8>) -> (info: TagInfo)
        ensures
            info@ == blank(uid@),
    {
        TagInfo {
            uid,
            url: None,
            text: None,
            language: None,
            record_type: None,
            wifi_ssid: None,
            wifi_security: None,
            bluetooth_mac: None,
            vcard_name: None,
            vcard_phone: None,
            vcard_email: None,
            vcard_organization: None,
            email_address: None,
            email_subject: None,
            email_body: None,
            sms_phone: None,
            sms_message: None,
            phone_number: None,
        }
    }

    /// The report on a tag with the given identifier and record.
    pub fn from_record(uid: Vec<u8>, record: &LogicalRecord) -> (info: TagInfo)
        ensures
            info@ == info_of(uid@, record@),
    {
        let mut info = TagInfo::new(uid);
        match record {
            LogicalRecord::Uri { uri } => {
                info.url = Some(uri.clone());
                info.record_type = Some("uri".to_owned());
            },
            LogicalRecord::Text { value, language } => {
                info.text = Some(value.clone());
                info.language = Some(language.clone());
                info.record_type = Some("text".to_owned());
            },
            LogicalRecord::Wifi { ssid, password, security } => {
                info.wifi_ssid = Some(ssid.clone());
                info.wifi_security = Some(security.name().to_owned());
                info.record_type = Some("wifi".to_owned());
            },
            LogicalRecord::Bluetooth { mac } => {
                info.bluetooth_mac = Some(format_mac(mac));
                info.record_type = Some("bluetooth".to_owned());
            },
            LogicalRecord::VCard { name, phone, email, organization } => {
                info.vcard_name = Some(name.clone());
                info.vcard_phone = Some(phone.clone());
                info.vcard_email = Some(email.clone());
                info.vcard_organization = Some(organization.clone());
                info.record_type = Some("vcard".to_owned());
            },
            LogicalRecord::Email { address, subject, body } => {
                info.email_address = Some(address.clone());
                info.email_subject = Some(subject.clone());
                info.email_body = Some(body.clone());
                info.record_type = Some("email".to_owned());
            },
            LogicalRecord::Sms { phone, message } => {
                info.sms_phone = Some(phone.clone());
                info.sms_message = Some(message.clone());
                info.record_type = Some("sms".to_owned());
            },
            LogicalRecord::Phone { number } => {
                info.phone_number = Some(number.clone());
                info.record_type = Some("phone".to_owned());
            },
            LogicalRecord::Unknown => {
                info.record_type = Some("unknown".to_owned());
            },
        }
        info
    }
}

} // verus!
