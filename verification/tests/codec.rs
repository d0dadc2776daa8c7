use ntag216::bluetooth::{format_mac, parse_mac};
use ntag216::error::TagError;
use ntag216::layout::ConfigLayout;
use ntag216::pages::Ntag216;
use ntag216::record::{decode_record, encode_record, LogicalRecord};
use ntag216::uri::{decode_uri_payload, encode_uri_payload};
use ntag216::vcard::{build_vcard, parse_vcard};
use ntag216::wifi::WifiSecurity;

fn tag() -> Ntag216 {
    Ntag216::new(ConfigLayout::from_page_130())
}

fn roundtrip(record: LogicalRecord) {
    let bytes = encode_record(&record).expect("encodes");
    assert_eq!(decode_record(&bytes), Ok(record));
}

#[test]
fn https_www_is_stored_under_code_two() {
    let bytes = tag().create_ndef_url("https://www.example.com").unwrap();
    let mut expected = vec![0xD1, 0x01, 0x0C, 0x55, 0x02];
    expected.extend_from_slice(b"example.com");
    assert_eq!(bytes, expected);
}

#[test]
fn code_two_with_suffix_restores_the_uri() {
    let mut payload = vec![0x02];
    payload.extend_from_slice(b"example.com");
    assert_eq!(decode_uri_payload(&payload), b"https://www.example.com".to_vec());
}

#[test]
fn each_prefix_has_its_code() {
    assert_eq!(encode_uri_payload(b"http://www.a.b")[0], 0x01);
    assert_eq!(encode_uri_payload(b"https://www.a.b")[0], 0x02);
    assert_eq!(encode_uri_payload(b"http://a.b")[0], 0x03);
    assert_eq!(encode_uri_payload(b"https://a.b")[0], 0x04);
    assert_eq!(encode_uri_payload(b"tel:123")[0], 0x05);
    assert_eq!(encode_uri_payload(b"mailto:a@b")[0], 0x06);
    assert_eq!(encode_uri_payload(b"ftp://a.b")[0], 0x00);
    assert_eq!(encode_uri_payload(b"http://a.b"), b"\x03a.b".to_vec());
}

#[test]
fn sms_uri_is_stored_in_full() {
    let payload = encode_uri_payload(b"sms:123");
    assert_eq!(payload, b"\x00sms:123".to_vec());
}

#[test]
fn payload_with_unknown_code_is_taken_as_it_stands() {
    assert_eq!(decode_uri_payload(&[0x23, b'a', b'b']), vec![0x23, b'a', b'b']);
    assert_eq!(decode_uri_payload(&[0x00, b'a', b'b']), b"ab".to_vec());
}

#[test]
fn uri_of_251_bytes_is_refused() {
    let long = "a".repeat(251);
    assert_eq!(tag().create_ndef_url(&long), Err(TagError::InvalidRecord));
    let fits = "a".repeat(250);
    assert_eq!(tag().create_ndef_url(&fits).unwrap().len(), 4 + 1 + 250);
}

#[test]
fn text_record_has_status_byte_with_utf8_bit() {
    let bytes = tag().create_ndef_text("hello", "en").unwrap();
    let mut expected = vec![0xD1, 0x01, 0x08, 0x54, 0x82];
    expected.extend_from_slice(b"enhello");
    assert_eq!(bytes, expected);
}

#[test]
fn text_limits_are_enforced() {
    assert_eq!(tag().create_ndef_text("x", "toolong"), Err(TagError::InvalidRecord));
    assert_eq!(tag().create_ndef_text(&"x".repeat(201), "en"), Err(TagError::InvalidRecord));
    assert!(tag().create_ndef_text(&"x".repeat(200), "en-US").is_ok());
}

#[test]
fn text_is_parsed_as_text_then_language() {
    let bytes = tag().create_ndef_text("szia", "hu").unwrap();
    assert_eq!(
        tag().parse_ndef_text(&bytes),
        Ok(Some(("szia".to_string(), "hu".to_string())))
    );
    assert_eq!(tag().parse_ndef_url(&bytes), Ok(None));
    assert_eq!(tag().parse_ndef_vcard(&bytes), Ok(None));
}

#[test]
fn url_is_parsed_from_its_record() {
    let bytes = tag().create_ndef_url("http://example.org/x").unwrap();
    assert_eq!(tag().parse_ndef_url(&bytes), Ok(Some("http://example.org/x".to_string())));
    assert_eq!(tag().parse_ndef_text(&bytes), Ok(None));
    assert_eq!(tag().parse_ndef_url(&[]), Ok(None));
    assert_eq!(tag().parse_ndef_url(&[0xD1, 0x01, 0x00, 0x55]), Ok(None));
}

#[test]
fn vcard_text_is_wrapped_as_mime_record() {
    let bytes = tag().create_ndef_vcard("BEGIN:VCARD\r\nEND:VCARD\r\n").unwrap();
    let mut expected = vec![0xD2, 0x0A, 24];
    expected.extend_from_slice(b"text/vcard");
    expected.extend_from_slice(b"BEGIN:VCARD\r\nEND:VCARD\r\n");
    assert_eq!(bytes, expected);
    assert_eq!(
        tag().parse_ndef_vcard(&bytes),
        Ok(Some("BEGIN:VCARD\r\nEND:VCARD\r\n".to_string()))
    );
}

#[test]
fn vcard_of_400_bytes_does_not_fit_a_short_record() {
    let text = "x".repeat(400);
    assert_eq!(tag().create_ndef_vcard(&text), Err(TagError::InvalidRecord));
    assert!(tag().create_ndef_vcard(&"x".repeat(255)).is_ok());
    assert_eq!(tag().create_ndef_vcard(&"x".repeat(256)), Err(TagError::InvalidRecord));
}

#[test]
fn vcard_is_written_with_only_the_fields_given() {
    let text = build_vcard(b"Ann", b"123", b"", b"");
    assert_eq!(
        text,
        b"BEGIN:VCARD\r\nVERSION:3.0\r\nFN:Ann\r\nTEL:123\r\nEND:VCARD\r\n".to_vec()
    );
}

#[test]
fn vcard_is_read_in_any_case_and_order() {
    let card = parse_vcard(b"begin:vcard\norg:Acme\r\nemail:a@b.c\ntel:555\nn:Doe;Jane\nX-OTHER:1\nend:vcard");
    assert_eq!(card.name, b"Doe;Jane".to_vec());
    assert_eq!(card.phone, b"555".to_vec());
    assert_eq!(card.email, b"a@b.c".to_vec());
    assert_eq!(card.organization, b"Acme".to_vec());
    let card = parse_vcard(b"N:Doe;Jane\r\nFN:Jane Doe\r\n");
    assert_eq!(card.name, b"Jane Doe".to_vec());
}

#[test]
fn wifi_credential_has_the_nested_layout() {
    let record = LogicalRecord::Wifi {
        ssid: "net".to_string(),
        password: "pw".to_string(),
        security: WifiSecurity::Wpa2,
    };
    let bytes = encode_record(&record).unwrap();
    let mut expected = vec![0xD4, 0x0B, 0x1C];
    expected.extend_from_slice(b"wfa.org:WFA");
    expected.extend_from_slice(&[0x10, 0x0E, 0x00, 0x18]);
    expected.extend_from_slice(&[0x10, 0x45, 0x00, 0x03, b'n', b'e', b't']);
    expected.extend_from_slice(&[0x10, 0x27, 0x00, 0x02, b'p', b'w']);
    expected.extend_from_slice(&[0x10, 0x03, 0x00, 0x02, 0x00, 0x20]);
    expected.extend_from_slice(&[0x10, 0x26, 0x00, 0x01, 0x01]);
    assert_eq!(bytes, expected);
}

#[test]
fn security_names_map_to_their_codes() {
    assert_eq!(WifiSecurity::from_name("wpa2").code(), 0x20);
    assert_eq!(WifiSecurity::from_name("wpa").code(), 0x10);
    assert_eq!(WifiSecurity::from_name("wep").code(), 0x08);
    assert_eq!(WifiSecurity::from_name("open").code(), 0x01);
    assert_eq!(WifiSecurity::from_name("none").code(), 0x01);
    assert_eq!(WifiSecurity::from_name("something").code(), 0x20);
    assert_eq!(WifiSecurity::Open.name(), "open");
    assert_eq!(WifiSecurity::from_name(WifiSecurity::Wep.name()), WifiSecurity::Wep);
}

#[test]
fn wifi_credential_that_does_not_fit_is_refused() {
    let record = LogicalRecord::Wifi {
        ssid: "s".repeat(200),
        password: "p".repeat(33),
        security: WifiSecurity::Open,
    };
    assert_eq!(encode_record(&record), Err(TagError::InvalidRecord));
}

#[test]
fn mac_is_parsed_to_six_bytes() {
    assert_eq!(parse_mac("AA:BB:CC:DD:EE:FF"), Ok([0xAA, 0xBB, 0xCC, 0xDD, 0xEE, 0xFF]));
    assert_eq!(parse_mac("0:1:2:a:b:c"), Ok([0, 1, 2, 10, 11, 12]));
}

#[test]
fn text_that_is_not_six_bytes_is_no_mac() {
    assert_eq!(parse_mac(""), Err(TagError::InvalidRecord));
    assert_eq!(parse_mac("AA:BB:CC:DD:EE"), Err(TagError::InvalidRecord));
    assert_eq!(parse_mac("AA:BB:CC:DD:EE:FF:00"), Err(TagError::InvalidRecord));
    assert_eq!(parse_mac("AA:BB:CC:DD:EE:GG"), Err(TagError::InvalidRecord));
    assert_eq!(parse_mac("AA:BB:CC:DD:EE:FFF"), Err(TagError::InvalidRecord));
    assert_eq!(parse_mac("AA:BB:CC:DD:EE:"), Err(TagError::InvalidRecord));
    assert_eq!(parse_mac("AABBCCDDEEFF"), Err(TagError::InvalidRecord));
}

#[test]
fn mac_is_written_in_upper_case() {
    assert_eq!(format_mac(&[0xAA, 0x0B, 0xC0, 0x00, 0x1E, 0xFF]), "AA:0B:C0:00:1E:FF");
}

#[test]
fn bluetooth_mac_round_trips_to_the_same_payload() {
    let mac = parse_mac("AA:BB:CC:DD:EE:FF").unwrap();
    let bytes = encode_record(&LogicalRecord::Bluetooth { mac }).unwrap();
    let mut expected = vec![0xD4, 0x20, 0x06];
    expected.extend_from_slice(b"application/vnd.bluetooth.ep.oob");
    expected.extend_from_slice(&[0xAA, 0xBB, 0xCC, 0xDD, 0xEE, 0xFF]);
    assert_eq!(bytes, expected);
    assert_eq!(decode_record(&bytes), Ok(LogicalRecord::Bluetooth { mac }));
}

#[test]
fn email_is_stored_as_mailto_uri() {
    let record = LogicalRecord::Email {
        address: "a@b.c".to_string(),
        subject: "Hi".to_string(),
        body: "Yo".to_string(),
    };
    let bytes = encode_record(&record).unwrap();
    let mut expected = vec![0xD1, 0x01, 25, 0x55, 0x06];
    expected.extend_from_slice(b"a@b.c?subject=Hi&body=Yo");
    assert_eq!(bytes, expected);
    assert_eq!(decode_record(&bytes), Ok(record));
}

#[test]
fn sms_and_phone_are_stored_as_uris() {
    let sms = LogicalRecord::Sms { phone: "123".to_string(), message: "hello".to_string() };
    let bytes = encode_record(&sms).unwrap();
    let mut expected = vec![0xD1, 0x01, 19, 0x55, 0x00];
    expected.extend_from_slice(b"sms:123?body=hello");
    assert_eq!(bytes, expected);
    let phone = LogicalRecord::Phone { number: "+3612345".to_string() };
    let bytes = encode_record(&phone).unwrap();
    let mut expected = vec![0xD1, 0x01, 9, 0x55, 0x05];
    expected.extend_from_slice(b"+3612345");
    assert_eq!(bytes, expected);
}

#[test]
fn every_kind_round_trips() {
    roundtrip(LogicalRecord::Uri { uri: "https://www.example.com/path?q=1".to_string() });
    roundtrip(LogicalRecord::Uri { uri: "ftp://example.com".to_string() });
    roundtrip(LogicalRecord::Text { value: "árvíztűrő".to_string(), language: "hu".to_string() });
    roundtrip(LogicalRecord::Text { value: String::new(), language: "en".to_string() });
    roundtrip(LogicalRecord::Wifi {
        ssid: "home".to_string(),
        password: "secret".to_string(),
        security: WifiSecurity::from_name("open"),
    });
    roundtrip(LogicalRecord::Wifi {
        ssid: "home".to_string(),
        password: String::new(),
        security: WifiSecurity::Wep,
    });
    roundtrip(LogicalRecord::Bluetooth { mac: [1, 2, 3, 4, 5, 6] });
    roundtrip(LogicalRecord::VCard {
        name: "Jane Doe".to_string(),
        phone: "+36 1 234".to_string(),
        email: "jane@example.com".to_string(),
        organization: "Acme".to_string(),
    });
    roundtrip(LogicalRecord::VCard {
        name: String::new(),
        phone: "1".to_string(),
        email: String::new(),
        organization: String::new(),
    });
    roundtrip(LogicalRecord::Email {
        address: "a@b.c".to_string(),
        subject: String::new(),
        body: String::new(),
    });
    roundtrip(LogicalRecord::Email {
        address: "a@b.c".to_string(),
        subject: "s".to_string(),
        body: "b & c ? d".to_string(),
    });
    roundtrip(LogicalRecord::Sms { phone: "123".to_string(), message: String::new() });
    roundtrip(LogicalRecord::Sms { phone: "123".to_string(), message: "a?b".to_string() });
    roundtrip(LogicalRecord::Phone { number: "555".to_string() });
}

#[test]
fn longest_vcard_round_trips() {
    // 37 bytes of frame, four tags of 17 bytes in all, four line ends of 2
    // bytes each, and 193 bytes in the fields: 255
    let record = LogicalRecord::VCard {
        name: "n".repeat(49),
        phone: "5".repeat(48),
        email: "e".repeat(48),
        organization: "o".repeat(48),
    };
    let bytes = encode_record(&record).unwrap();
    assert_eq!(bytes.len(), 3 + 10 + 255);
    assert_eq!(decode_record(&bytes), Ok(record));
    let larger = LogicalRecord::VCard {
        name: "n".repeat(50),
        phone: "5".repeat(48),
        email: "e".repeat(48),
        organization: "o".repeat(48),
    };
    assert_eq!(encode_record(&larger), Err(TagError::InvalidRecord));
}

#[test]
fn contact_that_would_be_cut_short_on_reading_is_refused() {
    let email = |address: &str, subject: &str, body: &str| LogicalRecord::Email {
        address: address.to_string(),
        subject: subject.to_string(),
        body: body.to_string(),
    };
    assert_eq!(encode_record(&email("a?b", "", "")), Err(TagError::InvalidRecord));
    assert_eq!(encode_record(&email("a@b", "x&y", "")), Err(TagError::InvalidRecord));
    assert!(encode_record(&email("a@b", "x?y", "b&c?d")).is_ok());
    let sms = LogicalRecord::Sms { phone: "1?2".to_string(), message: String::new() };
    assert_eq!(encode_record(&sms), Err(TagError::InvalidRecord));
}

#[test]
fn card_field_with_a_line_feed_is_refused() {
    let card = |name: &str, phone: &str, email: &str, organization: &str| LogicalRecord::VCard {
        name: name.to_string(),
        phone: phone.to_string(),
        email: email.to_string(),
        organization: organization.to_string(),
    };
    assert_eq!(encode_record(&card("a\nb", "", "", "")), Err(TagError::InvalidRecord));
    assert_eq!(encode_record(&card("", "1\n", "", "")), Err(TagError::InvalidRecord));
    assert_eq!(encode_record(&card("", "", "\n", "")), Err(TagError::InvalidRecord));
    assert_eq!(encode_record(&card("", "", "", "x\r\ny")), Err(TagError::InvalidRecord));
    let kept = card("a\rb", "1", "", "");
    let bytes = encode_record(&kept).unwrap();
    assert_eq!(decode_record(&bytes), Ok(kept));
}

#[test]
fn uri_with_a_contact_scheme_reads_back_as_that_contact() {
    let bytes = encode_record(&LogicalRecord::Uri { uri: "tel:555".to_string() }).unwrap();
    assert_eq!(decode_record(&bytes), Ok(LogicalRecord::Phone { number: "555".to_string() }));
}

#[test]
fn record_of_another_type_is_unknown() {
    let bytes = vec![0xD1, 0x02, 0x01, b'S', b'p', 0x00];
    assert_eq!(decode_record(&bytes), Ok(LogicalRecord::Unknown));
    let bytes = vec![0xD2, 0x03, 0x01, b'a', b'/', b'b', 0x00];
    assert_eq!(decode_record(&bytes), Ok(LogicalRecord::Unknown));
}

#[test]
fn bytes_that_are_no_record_fail_to_decode() {
    assert_eq!(decode_record(&[]), Err(TagError::InvalidRecord));
    assert_eq!(decode_record(&[0xD1, 0x01]), Err(TagError::InvalidRecord));
    // payload announced longer than the bytes
    assert_eq!(decode_record(&[0xD1, 0x01, 0x05, 0x55, 0x00]), Err(TagError::InvalidRecord));
    // not a short record
    assert_eq!(
        decode_record(&[0xC1, 0x01, 0x00, 0x00, 0x00, 0x01, 0x55, 0x00]),
        Err(TagError::InvalidRecord)
    );
    // a URI record without a payload
    assert_eq!(decode_record(&[0xD1, 0x01, 0x00, 0x55]), Err(TagError::InvalidRecord));
    // a text record that announces a longer language code than it holds
    assert_eq!(decode_record(&[0xD1, 0x01, 0x02, 0x54, 0x85, b'e']), Err(TagError::InvalidRecord));
    // a Bluetooth record with five bytes
    let mut bytes = vec![0xD4, 0x20, 0x05];
    bytes.extend_from_slice(b"application/vnd.bluetooth.ep.oob");
    bytes.extend_from_slice(&[1, 2, 3, 4, 5]);
    assert_eq!(decode_record(&bytes), Err(TagError::InvalidRecord));
    // a WiFi record whose attribute runs past the end
    let mut bytes = vec![0xD4, 0x0B, 0x08];
    bytes.extend_from_slice(b"wfa.org:WFA");
    bytes.extend_from_slice(&[0x10, 0x0E, 0x00, 0x04, 0x10, 0x45, 0x00, 0x09]);
    assert_eq!(decode_record(&bytes), Err(TagError::InvalidRecord));
}

#[test]
fn unknown_record_cannot_be_encoded() {
    assert_eq!(encode_record(&LogicalRecord::Unknown), Err(TagError::InvalidRecord));
}

#[test]
fn invalid_utf8_is_read_with_replacement_characters() {
    let bytes = vec![0xD1, 0x01, 0x04, 0x54, 0x80, b'a', 0xFF, b'b'];
    assert_eq!(
        decode_record(&bytes),
        Ok(LogicalRecord::Text { value: "a\u{FFFD}b".to_string(), language: String::new() })
    );
}
