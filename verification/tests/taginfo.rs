use ntag216::record::LogicalRecord;
use ntag216::taginfo::{NFCReaderInfo, TagInfo};
use ntag216::wifi::WifiSecurity;

fn uid() -> Vec<u8> {
    vec![4, 1, 2, 3, 4, 5, 6]
}

#[test]
fn blank_report_has_the_identifier_only() {
    let info = TagInfo::new(uid());
    assert_eq!(info.uid, uid());
    assert_eq!(info.record_type, None);
    assert_eq!(info.url, None);
    assert_eq!(info.text, None);
}

#[test]
fn uri_and_text_are_reported() {
    let record = LogicalRecord::Uri { uri: "https://example.com".to_string() };
    let info = TagInfo::from_record(uid(), &record);
    assert_eq!(info.record_type.as_deref(), Some("uri"));
    assert_eq!(info.url.as_deref(), Some("https://example.com"));
    assert_eq!(info.text, None);
    let record = LogicalRecord::Text { value: "hi".to_string(), language: "en".to_string() };
    let info = TagInfo::from_record(uid(), &record);
    assert_eq!(info.record_type.as_deref(), Some("text"));
    assert_eq!(info.text.as_deref(), Some("hi"));
    assert_eq!(info.language.as_deref(), Some("en"));
    assert_eq!(info.url, None);
}

#[test]
fn wifi_is_reported_without_its_key() {
    let record = LogicalRecord::Wifi {
        ssid: "home".to_string(),
        password: "secret".to_string(),
        security: WifiSecurity::Wpa,
    };
    let info = TagInfo::from_record(uid(), &record);
    assert_eq!(info.record_type.as_deref(), Some("wifi"));
    assert_eq!(info.wifi_ssid.as_deref(), Some("home"));
    assert_eq!(info.wifi_security.as_deref(), Some("wpa"));
    assert_eq!(info.text, None);
}

#[test]
fn bluetooth_address_is_reported_as_text() {
    let record = LogicalRecord::Bluetooth { mac: [0xAA, 0xBB, 0xCC, 0x0D, 0xEE, 0xFF] };
    let info = TagInfo::from_record(uid(), &record);
    assert_eq!(info.record_type.as_deref(), Some("bluetooth"));
    assert_eq!(info.bluetooth_mac.as_deref(), Some("AA:BB:CC:0D:EE:FF"));
}

#[test]
fn vcard_fields_are_reported() {
    let record = LogicalRecord::VCard {
        name: "Jane".to_string(),
        phone: "1".to_string(),
        email: "j@e.x".to_string(),
        organization: String::new(),
    };
    let info = TagInfo::from_record(uid(), &record);
    assert_eq!(info.record_type.as_deref(), Some("vcard"));
    assert_eq!(info.vcard_name.as_deref(), Some("Jane"));
    assert_eq!(info.vcard_phone.as_deref(), Some("1"));
    assert_eq!(info.vcard_email.as_deref(), Some("j@e.x"));
    assert_eq!(info.vcard_organization.as_deref(), Some(""));
}

#[test]
fn contacts_are_reported_by_their_parts() {
    let record = LogicalRecord::Email {
        address: "a@b.c".to_string(),
        subject: "s".to_string(),
        body: "b".to_string(),
    };
    let info = TagInfo::from_record(uid(), &record);
    assert_eq!(info.record_type.as_deref(), Some("email"));
    assert_eq!(info.url, None);
    assert_eq!(info.email_address.as_deref(), Some("a@b.c"));
    assert_eq!(info.email_subject.as_deref(), Some("s"));
    assert_eq!(info.email_body.as_deref(), Some("b"));
    let record = LogicalRecord::Sms { phone: "123".to_string(), message: String::new() };
    let info = TagInfo::from_record(uid(), &record);
    assert_eq!(info.record_type.as_deref(), Some("sms"));
    assert_eq!(info.url, None);
    assert_eq!(info.sms_phone.as_deref(), Some("123"));
    assert_eq!(info.sms_message.as_deref(), Some(""));
    let record = LogicalRecord::Phone { number: "555".to_string() };
    let info = TagInfo::from_record(uid(), &record);
    assert_eq!(info.record_type.as_deref(), Some("phone"));
    assert_eq!(info.url, None);
    assert_eq!(info.phone_number.as_deref(), Some("555"));
}

#[test]
fn unknown_record_is_reported_as_unknown() {
    let info = TagInfo::from_record(uid(), &LogicalRecord::Unknown);
    assert_eq!(info.record_type.as_deref(), Some("unknown"));
    assert_eq!(info.uid, uid());
    let mut expected = TagInfo::new(uid());
    expected.record_type = Some("unknown".to_string());
    assert_eq!(info, expected);
}

#[test]
fn reader_is_listed_by_name() {
    let reader = NFCReaderInfo { name: "ACR122U".to_string() };
    assert_eq!(reader.clone(), reader);
}
