use ntag216::bluetooth::parse_mac;
use ntag216::error::{AuthFailure, TagError, TransportError};
use ntag216::layout::ConfigLayout;
use ntag216::pages::Ntag216;
use ntag216::record::LogicalRecord;
use ntag216::taginfo::TagInfo;
use ntag216::transport::{LibnfcCardWrapper, NfcCard};
use ntag216::wifi::WifiSecurity;

/// A tag for the tests: 135 pages of memory and switches for the ways in
/// which a tag or a reader can misbehave.
struct Fake {
    pages: Vec<[u8; 4]>,
    sent: Vec<Vec<u8>>,
    reads_of: Vec<usize>,
    uid: Vec<u8>,
    /// The one authentication frame that is accepted.
    auth_frame: Option<Vec<u8>>,
    /// What a successful authentication answers with.
    pack: Vec<u8>,
    authenticated: bool,
    /// Writes are denied until an authentication succeeds.
    protect_writes: bool,
    /// Reads of these pages are denied until an authentication succeeds.
    protect_reads: Vec<u8>,
    /// Reads of this page deliver the inverse of what the page holds.
    bad_readback: Option<u8>,
    /// From its second read on, this page reads as these bytes.
    reread: Option<(u8, [u8; 4])>,
    /// Writes to this page are refused with status 65 81.
    refuse_write: Option<u8>,
    /// Writes to this page are acknowledged and dropped.
    drop_write: Option<u8>,
    /// Reads of this page deliver this many bytes.
    read_len: Option<(u8, usize)>,
    /// From this many exchanges on, the channel fails with code -1.
    channel_down_after: Option<usize>,
}

impl Fake {
    fn new() -> Fake {
        let mut pages = vec![[0u8; 4]; 135];
        pages[3] = [0xE1, 0x10, 0x3F, 0x00];
        Fake {
            pages,
            sent: Vec::new(),
            reads_of: vec![0; 135],
            uid: vec![0x04, 0x11, 0x22, 0x33, 0x44, 0x55, 0x66],
            auth_frame: None,
            pack: vec![0xAA, 0xBB],
            authenticated: false,
            protect_writes: false,
            protect_reads: Vec::new(),
            bad_readback: None,
            reread: None,
            refuse_write: None,
            drop_write: None,
            read_len: None,
            channel_down_after: None,
        }
    }

    fn writes(&self) -> Vec<u8> {
        self.sent.iter().filter(|a| a.len() == 9 && a[1] == 0xD6).map(|a| a[3]).collect()
    }
}

impl NfcCard for Fake {
    fn transmit(&mut self, apdu: &[u8]) -> Result<Vec<u8>, i64> {
        if let Some(n) = self.channel_down_after {
            if self.sent.len() >= n {
                self.sent.push(apdu.to_vec());
                return Err(-1);
            }
        }
        self.sent.push(apdu.to_vec());
        if apdu == [0xFF, 0xCA, 0x00, 0x00, 0x00] {
            let mut out = self.uid.clone();
            out.extend_from_slice(&[0x90, 0x00]);
            return Ok(out);
        }
        if apdu.len() == 5 && apdu[..3] == [0xFF, 0xB0, 0x00] && apdu[4] == 4 && apdu[3] < 135 {
            let page = apdu[3];
            if self.protect_reads.contains(&page) && !self.authenticated {
                return Ok(vec![0x63, 0x00]);
            }
            self.reads_of[page as usize] += 1;
            let mut data = self.pages[page as usize];
            if self.bad_readback == Some(page) {
                data = [!data[0], !data[1], !data[2], !data[3]];
            }
            if let Some((p, bytes)) = self.reread {
                if p == page && self.reads_of[page as usize] >= 2 {
                    data = bytes;
                }
            }
            let mut out = data.to_vec();
            if let Some((p, len)) = self.read_len {
                if p == page {
                    out.resize(len, 0x77);
                }
            }
            out.extend_from_slice(&[0x90, 0x00]);
            return Ok(out);
        }
        if apdu.len() == 9 && apdu[..3] == [0xFF, 0xD6, 0x00] && apdu[4] == 4 && apdu[3] < 135 {
            let page = apdu[3];
            if self.protect_writes && !self.authenticated {
                return Ok(vec![0x63, 0x00]);
            }
            if self.refuse_write == Some(page) {
                return Ok(vec![0x65, 0x81]);
            }
            if self.drop_write != Some(page) {
                self.pages[page as usize] = [apdu[5], apdu[6], apdu[7], apdu[8]];
            }
            return Ok(vec![0x90, 0x00]);
        }
        if apdu.len() >= 6 && apdu[0] == 0xFF && (apdu[1] == 0x1B || apdu[1] == 0x00) {
            if self.auth_frame.as_deref() == Some(apdu) {
                self.authenticated = true;
                let mut out = self.pack.clone();
                out.extend_from_slice(&[0x90, 0x00]);
                return Ok(out);
            }
            return Ok(vec![0x63, 0x00]);
        }
        Ok(vec![0x6A, 0x81])
    }
}

fn tag() -> Ntag216 {
    Ntag216::new(ConfigLayout::from_page_130())
}

fn read_frame(page: u8) -> Vec<u8> {
    vec![0xFF, 0xB0, 0x00, page, 0x04]
}

fn write_frame(page: u8, data: [u8; 4]) -> Vec<u8> {
    vec![0xFF, 0xD6, 0x00, page, 0x04, data[0], data[1], data[2], data[3]]
}

const PASSWORD: [u8; 4] = [0x11, 0x22, 0x33, 0x44];

fn wrapped_frame() -> Vec<u8> {
    vec![0xFF, 0x1B, 0x00, 0x00, 0x04, 0x11, 0x22, 0x33, 0x44]
}

fn pass_through_frame() -> Vec<u8> {
    vec![0xFF, 0x00, 0x00, 0x00, 0x05, 0x1B, 0x11, 0x22, 0x33, 0x44]
}

fn short_frame() -> Vec<u8> {
    vec![0xFF, 0x1B, 0x11, 0x22, 0x33, 0x44]
}

fn written_then_read(record: LogicalRecord) {
    let mut card = LibnfcCardWrapper::new(Fake::new());
    assert_eq!(tag().write_record(&mut card, &record, None), Ok(()));
    assert_eq!(tag().read_record(&mut card), Ok(Some(record)));
}

#[test]
fn uri_written_is_uri_read() {
    written_then_read(LogicalRecord::Uri { uri: "https://www.example.com".to_string() });
}

#[test]
fn empty_text_with_language_is_read_back() {
    written_then_read(LogicalRecord::Text { value: String::new(), language: "en".to_string() });
    written_then_read(LogicalRecord::Text {
        value: "jó napot".to_string(),
        language: "hu".to_string(),
    });
}

#[test]
fn open_wifi_credential_is_read_back() {
    written_then_read(LogicalRecord::Wifi {
        ssid: "cafe".to_string(),
        password: String::new(),
        security: WifiSecurity::from_name("open"),
    });
    written_then_read(LogicalRecord::Wifi {
        ssid: "home".to_string(),
        password: "correct horse".to_string(),
        security: WifiSecurity::from_name("wpa2"),
    });
}

#[test]
fn bluetooth_address_is_read_back() {
    let mac = parse_mac("AA:BB:CC:DD:EE:FF").unwrap();
    written_then_read(LogicalRecord::Bluetooth { mac });
}

#[test]
fn longest_vcard_with_all_fields_is_read_back() {
    written_then_read(LogicalRecord::VCard {
        name: "n".repeat(49),
        phone: "5".repeat(48),
        email: "e".repeat(48),
        organization: "o".repeat(48),
    });
}

#[test]
fn email_sms_and_phone_are_read_back() {
    written_then_read(LogicalRecord::Email {
        address: "jane@example.com".to_string(),
        subject: "Hello".to_string(),
        body: "How are you?".to_string(),
    });
    written_then_read(LogicalRecord::Sms {
        phone: "+36301234567".to_string(),
        message: "call me".to_string(),
    });
    written_then_read(LogicalRecord::Phone { number: "+36301234567".to_string() });
}

#[test]
fn write_goes_through_all_its_steps() {
    let mut card = LibnfcCardWrapper::new(Fake::new());
    assert_eq!(tag().write_ndef_url(&mut card, "http://a.b"), Ok(()));
    let fake = card.into_inner();
    // record D1 01 04 55 03 'a' '.' 'b'; TLV 03 08 .., filled up to 12 bytes,
    // and the terminator page after it
    assert_eq!(fake.pages[4], [0x03, 0x08, 0xD1, 0x01]);
    assert_eq!(fake.pages[5], [0x04, 0x55, 0x03, b'a']);
    assert_eq!(fake.pages[6], [b'.', b'b', 0x00, 0x00]);
    assert_eq!(fake.pages[7], [0xFE, 0x00, 0x00, 0x00]);
    assert_eq!(
        fake.sent,
        vec![
            read_frame(3),
            read_frame(3),
            write_frame(4, [0x03, 0x08, 0xD1, 0x01]),
            read_frame(4),
            write_frame(5, [0x04, 0x55, 0x03, b'a']),
            read_frame(5),
            write_frame(6, [b'.', b'b', 0x00, 0x00]),
            read_frame(6),
            write_frame(7, [0xFE, 0x00, 0x00, 0x00]),
            read_frame(7),
            read_frame(3),
            read_frame(4),
            read_frame(5),
            read_frame(6),
        ]
    );
}

#[test]
fn named_operations_write_and_read_their_kind() {
    let mut card = LibnfcCardWrapper::new(Fake::new());
    assert_eq!(tag().write_ndef_url(&mut card, "https://example.com/x"), Ok(()));
    assert_eq!(tag().read_ndef(&mut card), Ok(Some("https://example.com/x".to_string())));
    assert_eq!(tag().read_ndef_text(&mut card), Ok(None));
    assert_eq!(tag().write_ndef_text(&mut card, "hello", "en"), Ok(()));
    assert_eq!(
        tag().read_ndef_text(&mut card),
        Ok(Some(("hello".to_string(), "en".to_string())))
    );
    assert_eq!(tag().read_ndef(&mut card), Ok(None));
    let text = "BEGIN:VCARD\r\nVERSION:3.0\r\nFN:Jane\r\nNOTE:x\r\nEND:VCARD\r\n";
    assert_eq!(tag().write_ndef_vcard(&mut card, text), Ok(()));
    assert_eq!(tag().read_ndef_vcard(&mut card), Ok(Some(text.to_string())));
    assert_eq!(
        tag().read_record(&mut card),
        Ok(Some(LogicalRecord::VCard {
            name: "Jane".to_string(),
            phone: String::new(),
            email: String::new(),
            organization: String::new(),
        }))
    );
}

#[test]
fn long_message_is_framed_with_three_length_bytes() {
    let text = "v".repeat(250);
    let mut card = LibnfcCardWrapper::new(Fake::new());
    assert_eq!(tag().write_ndef_vcard(&mut card, &text), Ok(()));
    assert_eq!(tag().read_ndef_vcard(&mut card), Ok(Some(text)));
    let fake = card.into_inner();
    // 3 + 10 + 250 bytes of record
    assert_eq!(fake.pages[4], [0x03, 0xFF, 0x01, 0x07]);
}

#[test]
fn tag_without_magic_value_has_no_message() {
    let mut fake = Fake::new();
    fake.pages[3] = [0x00, 0x10, 0x3F, 0x00];
    fake.pages[4] = [0x03, 0x01, 0xD0, 0xFE];
    let mut card = LibnfcCardWrapper::new(fake);
    assert_eq!(tag().read_record(&mut card), Ok(None));
    assert_eq!(tag().read_ndef(&mut card), Ok(None));
    assert_eq!(tag().read_ndef_raw(&mut card), Ok(None));
    assert_eq!(card.into_inner().sent, vec![read_frame(3), read_frame(3), read_frame(3)]);
}

#[test]
fn tag_without_magic_value_is_not_written_by_a_session() {
    let mut fake = Fake::new();
    fake.pages[3] = [0x00; 4];
    let mut card = LibnfcCardWrapper::new(fake);
    assert_eq!(tag().write_ndef_url(&mut card, "http://a.b"), Err(TagError::Frame));
    assert_eq!(card.into_inner().sent, vec![read_frame(3)]);
}

#[test]
fn framer_writes_a_missing_capability_container() {
    let mut fake = Fake::new();
    fake.pages[3] = [0x00; 4];
    let mut card = LibnfcCardWrapper::new(fake);
    assert_eq!(tag().write_ndef_message(&mut card, &[0xD0, 0x00, 0x00]), Ok(()));
    assert_eq!(tag().read_ndef_raw(&mut card), Ok(Some(vec![0xD0, 0x00, 0x00])));
    assert_eq!(card.into_inner().pages[3], [0xE1, 0x10, 0x3F, 0x00]);
}

#[test]
fn capability_container_that_cannot_be_written_is_tolerated() {
    let mut fake = Fake::new();
    fake.pages[3] = [0x00; 4];
    fake.refuse_write = Some(3);
    let mut card = LibnfcCardWrapper::new(fake);
    assert_eq!(tag().write_ndef_message(&mut card, &[0xD0, 0x00, 0x00]), Ok(()));
    let fake = card.into_inner();
    assert_eq!(fake.pages[3], [0x00; 4]);
    assert_eq!(fake.pages[4], [0x03, 0x03, 0xD0, 0x00]);
}

#[test]
fn message_that_does_not_fit_is_refused_before_anything_is_sent() {
    let mut card = LibnfcCardWrapper::new(Fake::new());
    assert_eq!(
        tag().write_ndef_message(&mut card, &vec![1u8; 497]),
        Err(TagError::CapacityExceeded)
    );
    assert_eq!(
        tag().write_ndef_message_with_password(&mut card, &vec![1u8; 500], Some(&PASSWORD)),
        Err(TagError::CapacityExceeded)
    );
    assert!(card.into_inner().sent.is_empty());
}

#[test]
fn largest_message_fills_the_user_area() {
    let message: Vec<u8> = (0..496).map(|i| (i % 200) as u8 + 1).collect();
    let mut card = LibnfcCardWrapper::new(Fake::new());
    assert_eq!(tag().write_ndef_message(&mut card, &message), Ok(()));
    assert_eq!(tag().read_ndef_raw(&mut card), Ok(Some(message)));
    let message_byte = |i: usize| (i % 200) as u8 + 1;
    let fake = card.into_inner();
    assert_eq!(fake.pages[128][3], message_byte(495));
    assert_eq!(fake.pages[129], [0xFE, 0, 0, 0]);
    assert_eq!(fake.pages[130], [0; 4]);
}

#[test]
fn mismatch_on_read_back_stops_at_that_page() {
    let mut fake = Fake::new();
    fake.bad_readback = Some(6);
    let mut card = LibnfcCardWrapper::new(fake);
    let message = vec![0x11u8; 30];
    assert_eq!(
        tag().write_ndef_message(&mut card, &message),
        Err(TagError::VerifyFailed { page: 6 })
    );
    let fake = card.into_inner();
    assert_eq!(fake.writes(), vec![4, 5, 6]);
    assert_eq!(fake.sent.last(), Some(&read_frame(6)));
    assert_eq!(fake.pages[7], [0; 4]);
}

#[test]
fn mismatch_on_read_back_fails_the_whole_write() {
    let mut fake = Fake::new();
    fake.bad_readback = Some(4);
    let mut card = LibnfcCardWrapper::new(fake);
    assert_eq!(
        tag().write_ndef_url(&mut card, "https://www.example.com"),
        Err(TagError::VerifyFailed { page: 4 })
    );
    assert_eq!(card.into_inner().writes(), vec![4]);
}

#[test]
fn record_that_reads_back_differently_is_an_integrity_error() {
    let mut fake = Fake::new();
    fake.reread = Some((5, [0x04, 0x55, 0x04, b'a']));
    let mut card = LibnfcCardWrapper::new(fake);
    assert_eq!(tag().write_ndef_url(&mut card, "http://a.b"), Err(TagError::WriteIntegrity));

    let mut fake = Fake::new();
    fake.reread = Some((4, [0xFE, 0, 0, 0]));
    let mut card = LibnfcCardWrapper::new(fake);
    assert_eq!(tag().write_ndef_url(&mut card, "http://a.b"), Err(TagError::WriteIntegrity));
}

#[test]
fn record_that_cannot_be_encoded_is_refused_after_the_type_check() {
    let mut card = LibnfcCardWrapper::new(Fake::new());
    assert_eq!(
        tag().write_record(&mut card, &LogicalRecord::Unknown, None),
        Err(TagError::InvalidRecord)
    );
    assert_eq!(
        tag().write_ndef_text(&mut card, "x", "language"),
        Err(TagError::InvalidRecord)
    );
    let fake = card.into_inner();
    assert_eq!(fake.sent, vec![read_frame(3), read_frame(3)]);
}

#[test]
fn password_is_not_used_where_protection_is_off() {
    let mut card = LibnfcCardWrapper::new(Fake::new());
    assert_eq!(
        tag().write_ndef_url_with_password(&mut card, "http://a.b", Some(&PASSWORD)),
        Ok(())
    );
    let fake = card.into_inner();
    assert_eq!(fake.sent[0], read_frame(3));
    assert_eq!(fake.sent[1], read_frame(133));
    assert!(!fake.sent.contains(&wrapped_frame()));
    assert!(!fake.authenticated);
    // writing has not switched protection on
    assert_eq!(fake.pages[133], [0; 4]);
    assert_eq!(fake.pages[130], [0; 4]);
}

#[test]
fn password_is_presented_where_protection_is_on() {
    let mut fake = Fake::new();
    fake.pages[133] = [0x80, 0, 0, 0];
    fake.protect_writes = true;
    fake.auth_frame = Some(pass_through_frame());
    let mut card = LibnfcCardWrapper::new(fake);
    assert_eq!(
        tag().write_ndef_text_with_password(&mut card, "hi", "en", Some(&PASSWORD)),
        Ok(())
    );
    assert_eq!(tag().read_ndef_text(&mut card), Ok(Some(("hi".to_string(), "en".to_string()))));
    let fake = card.into_inner();
    assert_eq!(
        fake.sent[..6].to_vec(),
        vec![
            read_frame(3),
            read_frame(133),
            read_frame(130),
            wrapped_frame(),
            pass_through_frame(),
            read_frame(3),
        ]
    );
}

#[test]
fn denied_access_page_counts_as_protection() {
    let mut fake = Fake::new();
    fake.protect_reads = vec![133];
    fake.protect_writes = true;
    fake.auth_frame = Some(wrapped_frame());
    let mut card = LibnfcCardWrapper::new(fake);
    assert_eq!(
        tag().write_ndef_url_with_password(&mut card, "http://a.b", Some(&PASSWORD)),
        Ok(())
    );
}

#[test]
fn wrong_password_ends_the_write_before_any_page_is_written() {
    let mut fake = Fake::new();
    fake.pages[130] = [9, 9, 9, 9];
    fake.pages[133] = [0x80, 0, 0, 0];
    fake.protect_writes = true;
    let mut card = LibnfcCardWrapper::new(fake);
    assert_eq!(
        tag().write_ndef_url_with_password(&mut card, "http://a.b", Some(&PASSWORD)),
        Err(TagError::AuthFailed(AuthFailure::Rejected))
    );
    assert!(card.into_inner().writes().is_empty());
}

#[test]
fn protected_tag_without_password_asks_for_one() {
    let mut fake = Fake::new();
    fake.protect_writes = true;
    let mut card = LibnfcCardWrapper::new(fake);
    assert_eq!(tag().write_ndef_url(&mut card, "http://a.b"), Err(TagError::PasswordRequired));
    // the write is not repeated
    assert_eq!(card.into_inner().writes(), vec![4]);
}

#[test]
fn channel_failure_in_the_middle_ends_the_write() {
    let mut fake = Fake::new();
    fake.channel_down_after = Some(4);
    let mut card = LibnfcCardWrapper::new(fake);
    assert_eq!(
        tag().write_ndef_url(&mut card, "https://www.example.com"),
        Err(TagError::Write(TransportError::Channel { code: -1 }))
    );
    assert_eq!(card.into_inner().sent.len(), 5);
}

#[test]
fn malformed_stream_is_a_frame_error() {
    let mut fake = Fake::new();
    fake.pages[4] = [0x01, 0x03, 0xA0, 0x0C];
    let mut card = LibnfcCardWrapper::new(fake);
    assert_eq!(tag().read_record(&mut card), Err(TagError::Frame));
    // a stream of nothing but null TLVs is read to the end of the area
    let mut card = LibnfcCardWrapper::new(Fake::new());
    assert_eq!(tag().read_ndef_raw(&mut card), Err(TagError::Frame));
    assert_eq!(card.into_inner().sent.len(), 1 + 126);
}

#[test]
fn message_of_unknown_kind_is_read_as_unknown() {
    let mut card = LibnfcCardWrapper::new(Fake::new());
    assert_eq!(tag().write_ndef_message(&mut card, &[0xD1, 0x02, 0x01, b'S', b'p', 0x00]), Ok(()));
    assert_eq!(tag().read_record(&mut card), Ok(Some(LogicalRecord::Unknown)));
    // and so is one that does not decode
    assert_eq!(tag().write_ndef_message(&mut card, &[0xD1, 0x01, 0x00, 0x55]), Ok(()));
    assert_eq!(tag().read_record(&mut card), Ok(Some(LogicalRecord::Unknown)));
}

#[test]
fn cleared_tag_has_no_message() {
    let mut card = LibnfcCardWrapper::new(Fake::new());
    assert_eq!(tag().write_ndef_url(&mut card, "https://www.example.com/long/path"), Ok(()));
    assert_eq!(tag().clear_ndef(&mut card), Ok(()));
    assert_eq!(tag().read_record(&mut card), Ok(None));
    let fake = card.into_inner();
    assert_eq!(fake.pages[4], [0xFE, 0, 0, 0]);
    for page in 5..=10 {
        assert_eq!(fake.pages[page], [0; 4]);
    }
    assert_ne!(fake.pages[11], [0; 4]);
}

#[test]
fn clearing_with_password_authenticates_first() {
    let mut fake = Fake::new();
    fake.protect_writes = true;
    fake.auth_frame = Some(wrapped_frame());
    let mut card = LibnfcCardWrapper::new(fake);
    assert_eq!(tag().clear_ndef(&mut card), Err(TagError::PasswordRequired));
    assert_eq!(tag().clear_ndef_with_password(&mut card, Some(&PASSWORD)), Ok(()));
    assert_eq!(card.into_inner().writes(), vec![4, 4, 5, 6, 7, 8, 9, 10]);
}

#[test]
fn raw_bytes_are_written_page_by_page() {
    let mut card = LibnfcCardWrapper::new(Fake::new());
    assert_eq!(tag().write_raw_bytes(&mut card, 10, &[1, 2, 3, 4, 5, 6]), Ok(()));
    assert_eq!(tag().read_raw_bytes(&mut card, 10, 6), Ok(vec![1, 2, 3, 4, 5, 6]));
    assert_eq!(tag().read_raw_bytes(&mut card, 10, 8), Ok(vec![1, 2, 3, 4, 5, 6, 0, 0]));
    assert_eq!(tag().read_raw_bytes(&mut card, 11, 1), Ok(vec![5]));
    assert_eq!(tag().read_raw_bytes(&mut card, 11, 0), Ok(vec![]));
    let fake = card.into_inner();
    assert_eq!(fake.pages[10], [1, 2, 3, 4]);
    assert_eq!(fake.pages[11], [5, 6, 0, 0]);
    assert_eq!(fake.writes(), vec![10, 11]);
}

#[test]
fn raw_access_is_confined_to_the_user_area() {
    let mut card = LibnfcCardWrapper::new(Fake::new());
    assert_eq!(tag().write_raw_bytes(&mut card, 3, &[1]), Err(TagError::InvalidPage));
    assert_eq!(tag().write_raw_bytes(&mut card, 130, &[1]), Err(TagError::InvalidPage));
    assert_eq!(tag().read_raw_bytes(&mut card, 3, 4), Err(TagError::InvalidPage));
    assert_eq!(tag().read_raw_bytes(&mut card, 130, 4), Err(TagError::InvalidPage));
    assert!(card.into_inner().sent.is_empty());
}

#[test]
fn raw_access_ends_with_the_user_area() {
    let mut card = LibnfcCardWrapper::new(Fake::new());
    assert_eq!(tag().write_raw_bytes(&mut card, 129, &[1, 2, 3, 4, 5, 6, 7, 8]), Ok(()));
    assert_eq!(tag().read_raw_bytes(&mut card, 129, 8), Ok(vec![1, 2, 3, 4]));
    let fake = card.into_inner();
    assert_eq!(fake.writes(), vec![129]);
    assert_eq!(fake.pages[130], [0; 4]);
}

#[test]
fn raw_write_with_password_authenticates_first() {
    let mut fake = Fake::new();
    fake.protect_writes = true;
    fake.auth_frame = Some(short_frame());
    let mut card = LibnfcCardWrapper::new(fake);
    assert_eq!(
        tag().write_raw_bytes_with_password(&mut card, 20, &[7; 4], Some(&PASSWORD)),
        Ok(())
    );
    assert_eq!(card.into_inner().pages[20], [7; 4]);
    let mut fake = Fake::new();
    fake.protect_writes = true;
    let mut card = LibnfcCardWrapper::new(fake);
    assert_eq!(
        tag().write_raw_bytes_with_password(&mut card, 20, &[7; 4], Some(&PASSWORD)),
        Err(TagError::AuthFailed(AuthFailure::NoPasswordSet))
    );
}

fn unknown_report() -> TagInfo {
    let mut info = TagInfo::new(vec![0x04, 0x11, 0x22, 0x33, 0x44, 0x55, 0x66]);
    info.record_type = Some("unknown".to_string());
    info
}

#[test]
fn tag_with_nothing_known_on_it_is_reported_as_unknown() {
    // no message
    let mut card = LibnfcCardWrapper::new(Fake::new());
    assert_eq!(tag().clear_ndef(&mut card), Ok(()));
    assert_eq!(tag().read_info(&mut card), Ok(unknown_report()));
    // no magic value
    let mut fake = Fake::new();
    fake.pages[3] = [0; 4];
    let mut card = LibnfcCardWrapper::new(fake);
    assert_eq!(tag().read_info(&mut card), Ok(unknown_report()));
    // a malformed stream
    let mut fake = Fake::new();
    fake.pages[4] = [0x42, 0, 0, 0];
    let mut card = LibnfcCardWrapper::new(fake);
    assert_eq!(tag().read_info(&mut card), Ok(unknown_report()));
    // a record of another type
    let mut card = LibnfcCardWrapper::new(Fake::new());
    assert_eq!(tag().write_ndef_message(&mut card, &[0xD1, 0x02, 0x01, b'S', b'p', 0x00]), Ok(()));
    assert_eq!(tag().read_info(&mut card), Ok(unknown_report()));
    // a message that cannot be read
    let mut fake = Fake::new();
    fake.protect_reads = vec![4];
    let mut card = LibnfcCardWrapper::new(fake);
    assert_eq!(tag().read_info(&mut card), Ok(unknown_report()));
}

#[test]
fn read_without_identifier_fails() {
    let mut fake = Fake::new();
    fake.uid = vec![1, 2];
    let mut card = LibnfcCardWrapper::new(fake);
    assert_eq!(tag().read_info(&mut card), Err(TagError::ShortRead));
    assert_eq!(card.into_inner().sent.len(), 1);
}

#[test]
fn contact_is_reported_with_the_uri_as_read() {
    let mut card = LibnfcCardWrapper::new(Fake::new());
    let record = LogicalRecord::Email {
        address: "jane@example.com".to_string(),
        subject: "Hi".to_string(),
        body: String::new(),
    };
    let written = tag().write_info(&mut card, &record, None).unwrap();
    assert_eq!(written.record_type.as_deref(), Some("email"));
    assert_eq!(written.email_address.as_deref(), Some("jane@example.com"));
    assert_eq!(written.url, None);
    let info = tag().read_info(&mut card).unwrap();
    assert_eq!(info.uid, vec![0x04, 0x11, 0x22, 0x33, 0x44, 0x55, 0x66]);
    assert_eq!(info.record_type.as_deref(), Some("email"));
    assert_eq!(info.url.as_deref(), Some("mailto:jane@example.com?subject=Hi&body="));
    assert_eq!(info.email_address.as_deref(), Some("jane@example.com"));
    assert_eq!(info.email_subject.as_deref(), Some("Hi"));
    assert_eq!(info.email_body.as_deref(), Some(""));

    assert_eq!(tag().write_ndef_url(&mut card, "mailto:x?cc=y"), Ok(()));
    let info = tag().read_info(&mut card).unwrap();
    assert_eq!(info.record_type.as_deref(), Some("email"));
    assert_eq!(info.url.as_deref(), Some("mailto:x?cc=y"));
    assert_eq!(info.email_address.as_deref(), Some("x"));

    let sms = LogicalRecord::Sms { phone: "123".to_string(), message: "hello".to_string() };
    assert!(tag().write_info(&mut card, &sms, None).is_ok());
    let info = tag().read_info(&mut card).unwrap();
    assert_eq!(info.record_type.as_deref(), Some("sms"));
    assert_eq!(info.url.as_deref(), Some("sms:123?body=hello"));
    assert_eq!(info.sms_phone.as_deref(), Some("123"));
    assert_eq!(info.sms_message.as_deref(), Some("hello"));

    let phone = LogicalRecord::Phone { number: "+3612345".to_string() };
    assert!(tag().write_info(&mut card, &phone, None).is_ok());
    let info = tag().read_info(&mut card).unwrap();
    assert_eq!(info.record_type.as_deref(), Some("phone"));
    assert_eq!(info.url.as_deref(), Some("tel:+3612345"));
    assert_eq!(info.phone_number.as_deref(), Some("+3612345"));
}

#[test]
fn write_is_reported_with_identifier_and_record() {
    let mut card = LibnfcCardWrapper::new(Fake::new());
    let record = LogicalRecord::Uri { uri: "https://example.com".to_string() };
    let info = tag().write_info(&mut card, &record, None).unwrap();
    assert_eq!(info.uid, vec![0x04, 0x11, 0x22, 0x33, 0x44, 0x55, 0x66]);
    assert_eq!(info.record_type.as_deref(), Some("uri"));
    assert_eq!(info.url.as_deref(), Some("https://example.com"));
    assert_eq!(tag().read_info(&mut card), Ok(info));
    let fake = card.into_inner();
    assert_eq!(fake.sent[0], vec![0xFF, 0xCA, 0x00, 0x00, 0x00]);
    assert_eq!(fake.sent[1], read_frame(3));
}

#[test]
fn failed_write_is_not_reported_as_done() {
    let mut fake = Fake::new();
    fake.protect_writes = true;
    let mut card = LibnfcCardWrapper::new(fake);
    let record = LogicalRecord::Phone { number: "1".to_string() };
    assert_eq!(tag().write_info(&mut card, &record, None), Err(TagError::PasswordRequired));
    let refused = LogicalRecord::Sms { phone: "1?".to_string(), message: String::new() };
    assert_eq!(tag().write_info(&mut card, &refused, None), Err(TagError::InvalidRecord));
}

fn written_data(fake: &Fake) -> (Vec<u8>, Vec<u8>) {
    let mut pages = Vec::new();
    let mut data = Vec::new();
    for frame in fake.sent.iter().filter(|a| a.len() == 9 && a[1] == 0xD6) {
        pages.push(frame[3]);
        data.extend_from_slice(&frame[5..]);
    }
    (pages, data)
}

#[test]
fn short_message_is_written_with_a_terminator_page_after_it() {
    for len in [1usize, 2, 3, 5, 6, 17, 253, 254] {
        let message: Vec<u8> = (0..len).map(|i| (i % 250) as u8 + 1).collect();
        let mut card = LibnfcCardWrapper::new(Fake::new());
        assert_eq!(tag().write_ndef_message_with_password(&mut card, &message, None), Ok(()));
        let (pages, data) = written_data(&card.into_inner());
        let mut expected = vec![0x03, len as u8];
        expected.extend_from_slice(&message);
        while expected.len() % 4 != 0 {
            expected.push(0);
        }
        expected.extend_from_slice(&[0xFE, 0, 0, 0]);
        assert_eq!(data, expected);
        let count = expected.len() / 4;
        assert_eq!(pages, (4..4 + count as u8).collect::<Vec<u8>>());
    }
}

#[test]
fn long_message_is_written_with_a_terminator_page_after_it() {
    for len in [255usize, 256, 257, 300, 495, 496] {
        let message: Vec<u8> = (0..len).map(|i| (i % 250) as u8 + 1).collect();
        let mut card = LibnfcCardWrapper::new(Fake::new());
        assert_eq!(tag().write_ndef_message_with_password(&mut card, &message, None), Ok(()));
        let (pages, data) = written_data(&card.into_inner());
        let mut expected = vec![0x03, 0xFF, (len >> 8) as u8, (len & 0xFF) as u8];
        expected.extend_from_slice(&message);
        while expected.len() % 4 != 0 {
            expected.push(0);
        }
        expected.extend_from_slice(&[0xFE, 0, 0, 0]);
        assert_eq!(data, expected);
        let count = expected.len() / 4;
        assert_eq!(pages, (4..4 + count).map(|p| p as u8).collect::<Vec<u8>>());
    }
}
