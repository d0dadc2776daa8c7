use ntag216::error::{AuthFailure, TagError, TransportError};
use ntag216::layout::ConfigLayout;
use ntag216::pages::Ntag216;
use ntag216::transport::{LibnfcCardWrapper, NfcCard};

/// A tag for the tests: 135 pages of memory and switches for the ways in
/// which a tag or a reader can misbehave.
struct Fake {
    pages: Vec<[u8; 4]>,
    sent: Vec<Vec<u8>>,
    reads_of: Vec<usize>,
    uid: Vec<u8>,
    /// The one authentication frame that is accepted.
    auth_frame: Option<Vec<u8>>,
    /// What a successful authentication answers with.
    pack: Vec<u8>,
    authenticated: bool,
    /// Writes are denied until an authentication succeeds.
    protect_writes: bool,
    /// Reads of these pages are denied until an authentication succeeds.
    protect_reads: Vec<u8>,
    /// Reads of this page deliver the inverse of what the page holds.
    bad_readback: Option<u8>,
    /// From its second read on, this page reads as these bytes.
    reread: Option<(u8, [u8; 4])>,
    /// Writes to this page are refused with status 65 81.
    refuse_write: Option<u8>,
    /// Writes to this page are acknowledged and dropped.
    drop_write: Option<u8>,
    /// Reads of this page deliver this many bytes.
    read_len: Option<(u8, usize)>,
    /// From this many exchanges on, the channel fails with code -1.
    channel_down_after: Option<usize>,
}

impl Fake {
    fn new() -> Fake {
        let mut pages = vec![[0u8; 4]; 135];
        pages[3] = [0xE1, 0x10, 0x3F, 0x00];
        Fake {
            pages,
            sent: Vec::new(),
            reads_of: vec![0; 135],
            uid: vec![0x04, 0x11, 0x22, 0x33, 0x44, 0x55, 0x66],
            auth_frame: None,
            pack: vec![0xAA, 0xBB],
            authenticated: false,
            protect_writes: false,
            protect_reads: Vec::new(),
            bad_readback: None,
            reread: None,
            refuse_write: None,
            drop_write: None,
            read_len: None,
            channel_down_after: None,
        }
    }

    fn writes(&self) -> Vec<u8> {
        self.sent.iter().filter(|a| a.len() == 9 && a[1] == 0xD6).map(|a| a[3]).collect()
    }
}

impl NfcCard for Fake {
    fn transmit(&mut self, apdu: &[u8]) -> Result<Vec<u8>, i64> {
        if let Some(n) = self.channel_down_after {
            if self.sent.len() >= n {
                self.sent.push(apdu.to_vec());
                return Err(-1);
            }
        }
        self.sent.push(apdu.to_vec());
        if apdu == [0xFF, 0xCA, 0x00, 0x00, 0x00] {
            let mut out = self.uid.clone();
            out.extend_from_slice(&[0x90, 0x00]);
            return Ok(out);
        }
        if apdu.len() == 5 && apdu[..3] == [0xFF, 0xB0, 0x00] && apdu[4] == 4 && apdu[3] < 135 {
            let page = apdu[3];
            if self.protect_reads.contains(&page) && !self.authenticated {
                return Ok(vec![0x63, 0x00]);
            }
            self.reads_of[page as usize] += 1;
            let mut data = self.pages[page as usize];
            if self.bad_readback == Some(page) {
                data = [!data[0], !data[1], !data[2], !data[3]];
            }
            if let Some((p, bytes)) = self.reread {
                if p == page && self.reads_of[page as usize] >= 2 {
                    data = bytes;
                }
            }
            let mut out = data.to_vec();
            if let Some((p, len)) = self.read_len {
                if p == page {
                    out.resize(len, 0x77);
                }
            }
            out.extend_from_slice(&[0x90, 0x00]);
            return Ok(out);
        }
        if apdu.len() == 9 && apdu[..3] == [0xFF, 0xD6, 0x00] && apdu[4] == 4 && apdu[3] < 135 {
            let page = apdu[3];
            if self.protect_writes && !self.authenticated {
                return Ok(vec![0x63, 0x00]);
            }
            if self.refuse_write == Some(page) {
                return Ok(vec![0x65, 0x81]);
            }
            if self.drop_write != Some(page) {
                self.pages[page as usize] = [apdu[5], apdu[6], apdu[7], apdu[8]];
            }
            return Ok(vec![0x90, 0x00]);
        }
        if apdu.len() >= 6 && apdu[0] == 0xFF && (apdu[1] == 0x1B || apdu[1] == 0x00) {
            if self.auth_frame.as_deref() == Some(apdu) {
                self.authenticated = true;
                let mut out = self.pack.clone();
                out.extend_from_slice(&[0x90, 0x00]);
                return Ok(out);
            }
            return Ok(vec![0x63, 0x00]);
        }
        Ok(vec![0x6A, 0x81])
    }
}

fn tag() -> Ntag216 {
    Ntag216::new(ConfigLayout::from_page_130())
}

fn read_frame(page: u8) -> Vec<u8> {
    vec![0xFF, 0xB0, 0x00, page, 0x04]
}

fn write_frame(page: u8, data: [u8; 4]) -> Vec<u8> {
    vec![0xFF, 0xD6, 0x00, page, 0x04, data[0], data[1], data[2], data[3]]
}

const PASSWORD: [u8; 4] = [0x11, 0x22, 0x33, 0x44];

fn wrapped_frame() -> Vec<u8> {
    vec![0xFF, 0x1B, 0x00, 0x00, 0x04, 0x11, 0x22, 0x33, 0x44]
}

fn pass_through_frame() -> Vec<u8> {
    vec![0xFF, 0x00, 0x00, 0x00, 0x05, 0x1B, 0x11, 0x22, 0x33, 0x44]
}

fn short_frame() -> Vec<u8> {
    vec![0xFF, 0x1B, 0x11, 0x22, 0x33, 0x44]
}

#[test]
fn first_encoding_that_is_accepted_ends_the_handshake() {
    let mut fake = Fake::new();
    fake.pages[130] = PASSWORD;
    fake.auth_frame = Some(wrapped_frame());
    let mut card = LibnfcCardWrapper::new(fake);
    assert_eq!(tag().authenticate_password(&mut card, &PASSWORD), Ok(Some([0xAA, 0xBB])));
    let fake = card.into_inner();
    assert_eq!(fake.sent, vec![read_frame(130), wrapped_frame()]);
}

#[test]
fn encodings_are_tried_in_the_order_of_the_table() {
    let mut fake = Fake::new();
    fake.auth_frame = Some(pass_through_frame());
    let mut card = LibnfcCardWrapper::new(fake);
    assert_eq!(tag().authenticate_password(&mut card, &PASSWORD), Ok(Some([0xAA, 0xBB])));
    let fake = card.into_inner();
    assert_eq!(fake.sent, vec![read_frame(130), wrapped_frame(), pass_through_frame()]);

    let mut fake = Fake::new();
    fake.auth_frame = Some(short_frame());
    let mut card = LibnfcCardWrapper::new(fake);
    assert_eq!(tag().authenticate_password(&mut card, &PASSWORD), Ok(Some([0xAA, 0xBB])));
    let fake = card.into_inner();
    assert_eq!(
        fake.sent,
        vec![read_frame(130), wrapped_frame(), pass_through_frame(), short_frame()]
    );
}

#[test]
fn authentication_without_acknowledge_bytes_still_succeeds() {
    let mut fake = Fake::new();
    fake.auth_frame = Some(wrapped_frame());
    fake.pack = vec![0x01];
    let mut card = LibnfcCardWrapper::new(fake);
    assert_eq!(tag().authenticate_password(&mut card, &PASSWORD), Ok(None));
}

#[test]
fn refused_authentication_tells_whether_a_password_was_set() {
    let mut card = LibnfcCardWrapper::new(Fake::new());
    assert_eq!(
        tag().authenticate_password(&mut card, &PASSWORD),
        Err(TagError::AuthFailed(AuthFailure::NoPasswordSet))
    );
    assert_eq!(card.into_inner().sent.len(), 4);

    let mut fake = Fake::new();
    fake.pages[130] = [9, 9, 9, 9];
    let mut card = LibnfcCardWrapper::new(fake);
    assert_eq!(
        tag().authenticate_password(&mut card, &PASSWORD),
        Err(TagError::AuthFailed(AuthFailure::Rejected))
    );

    let mut fake = Fake::new();
    fake.protect_reads = vec![130];
    let mut card = LibnfcCardWrapper::new(fake);
    assert_eq!(
        tag().authenticate_password(&mut card, &PASSWORD),
        Err(TagError::AuthFailed(AuthFailure::Rejected))
    );
}

#[test]
fn password_is_written_before_protection_is_switched_on() {
    let mut card = LibnfcCardWrapper::new(Fake::new());
    assert_eq!(tag().set_password(&mut card, &PASSWORD, &[0xC0, 0xDE], 4), Ok(()));
    let fake = card.into_inner();
    assert_eq!(
        fake.sent,
        vec![
            read_frame(134),
            write_frame(130, PASSWORD),
            write_frame(131, [0xC0, 0xDE, 0, 0]),
            write_frame(132, [4, 0, 0, 0]),
            write_frame(133, [0x80, 0, 0, 0]),
            read_frame(133),
        ]
    );
    assert_eq!(fake.pages[130], PASSWORD);
    assert_eq!(fake.pages[133], [0x80, 0, 0, 0]);
}

#[test]
fn protection_shows_after_set_and_not_after_clear() {
    let mut card = LibnfcCardWrapper::new(Fake::new());
    assert_eq!(tag().is_password_protected(&mut card), Ok(false));
    assert_eq!(tag().set_password(&mut card, &PASSWORD, &[1, 2], 0), Ok(()));
    assert_eq!(tag().is_password_protected(&mut card), Ok(true));
    assert_eq!(tag().remove_password(&mut card), Ok(()));
    assert_eq!(tag().is_password_protected(&mut card), Ok(false));
    let fake = card.into_inner();
    assert_eq!(fake.pages[130], [0; 4]);
    assert_eq!(fake.pages[131], [0; 4]);
    assert_eq!(fake.pages[132], [0; 4]);
    assert_eq!(fake.pages[133], [0; 4]);
}

#[test]
fn locked_tag_is_refused_before_anything_is_written() {
    let mut fake = Fake::new();
    fake.pages[134] = [0xFF, 0xFF, 0x12, 0x34];
    let mut card = LibnfcCardWrapper::new(fake);
    assert_eq!(tag().set_password(&mut card, &PASSWORD, &[1, 2], 4), Err(TagError::Locked));
    let fake = card.into_inner();
    assert_eq!(fake.sent, vec![read_frame(134)]);
    assert!(fake.writes().is_empty());
    assert_eq!(fake.pages[130], [0; 4]);
}

#[test]
fn half_set_lock_bytes_do_not_lock() {
    let mut fake = Fake::new();
    fake.pages[134] = [0xFF, 0xFE, 0, 0];
    let mut card = LibnfcCardWrapper::new(fake);
    assert_eq!(tag().set_password(&mut card, &PASSWORD, &[1, 2], 4), Ok(()));
}

#[test]
fn unreadable_lock_page_does_not_stop_the_setting() {
    let mut fake = Fake::new();
    fake.protect_reads = vec![134];
    let mut card = LibnfcCardWrapper::new(fake);
    assert_eq!(tag().set_password(&mut card, &PASSWORD, &[1, 2], 4), Ok(()));
    assert_eq!(card.into_inner().writes(), vec![130, 131, 132, 133]);
}

#[test]
fn refused_password_write_ends_the_setting() {
    let mut fake = Fake::new();
    fake.refuse_write = Some(130);
    let mut card = LibnfcCardWrapper::new(fake);
    assert_eq!(
        tag().set_password(&mut card, &PASSWORD, &[1, 2], 4),
        Err(TagError::Write(TransportError::Status { sw1: 0x65, sw2: 0x81 }))
    );
    let fake = card.into_inner();
    assert_eq!(fake.sent, vec![read_frame(134), write_frame(130, PASSWORD)]);
    assert_eq!(fake.pages[131], [0; 4]);
    assert_eq!(fake.pages[133], [0; 4]);
}

#[test]
fn other_assignment_of_pages_is_followed() {
    let tag = Ntag216::new(ConfigLayout::new(133, 134, 131, 132, 130).unwrap());
    let mut card = LibnfcCardWrapper::new(Fake::new());
    assert_eq!(tag.set_password(&mut card, &PASSWORD, &[1, 2], 9), Ok(()));
    assert_eq!(tag.is_password_protected(&mut card), Ok(true));
    let fake = card.into_inner();
    assert_eq!(fake.writes(), vec![133, 134, 131, 132]);
    assert_eq!(fake.pages[133], PASSWORD);
    assert_eq!(fake.pages[134], [1, 2, 0, 0]);
    assert_eq!(fake.pages[131], [9, 0, 0, 0]);
    assert_eq!(fake.pages[132], [0x80, 0, 0, 0]);
}

#[test]
fn unconfirmed_protection_is_reported_and_nothing_is_rolled_back() {
    let mut fake = Fake::new();
    fake.drop_write = Some(133);
    let mut card = LibnfcCardWrapper::new(fake);
    assert_eq!(
        tag().set_password(&mut card, &PASSWORD, &[1, 2], 4),
        Err(TagError::NotConfirmed)
    );
    let fake = card.into_inner();
    assert_eq!(fake.pages[130], PASSWORD);
    assert_eq!(fake.pages[131], [1, 2, 0, 0]);
}

#[test]
fn failed_configuration_write_ends_the_sequence() {
    let mut fake = Fake::new();
    fake.refuse_write = Some(131);
    let mut card = LibnfcCardWrapper::new(fake);
    assert_eq!(
        tag().set_password(&mut card, &PASSWORD, &[1, 2], 4),
        Err(TagError::Write(TransportError::Status { sw1: 0x65, sw2: 0x81 }))
    );
    let fake = card.into_inner();
    assert_eq!(fake.sent.len(), 3);
    assert_eq!(fake.writes(), vec![130, 131]);
    assert_eq!(fake.pages[130], PASSWORD);
    assert_eq!(fake.pages[133], [0; 4]);
}

#[test]
fn configuration_is_derived_from_its_pages() {
    let mut fake = Fake::new();
    fake.pages[130] = [1, 2, 3, 4];
    fake.pages[131] = [5, 6, 7, 8];
    fake.pages[132] = [0x20, 0, 0, 0];
    fake.pages[133] = [0x80, 0x01, 9, 9];
    fake.pages[134] = [0xFF, 0xFF, 0, 0];
    let mut card = LibnfcCardWrapper::new(fake);
    let config = tag().read_config(&mut card).unwrap();
    assert_eq!(config.password, [1, 2, 3, 4]);
    assert_eq!(config.pack, [5, 6]);
    assert_eq!(config.auth_limit, 0x20);
    assert_eq!(config.access, [0x80, 0x01]);
    assert!(config.password_protected);
    assert!(config.read_only);
    assert!(config.locked);
    assert_eq!(
        card.into_inner().sent,
        vec![read_frame(130), read_frame(131), read_frame(132), read_frame(133), read_frame(134)]
    );

    let mut fake = Fake::new();
    fake.pages[133] = [0x7F, 0xFE, 0, 0];
    fake.pages[134] = [0xFF, 0xFE, 0, 0];
    let mut card = LibnfcCardWrapper::new(fake);
    let config = tag().read_config(&mut card).unwrap();
    assert!(!config.password_protected);
    assert!(!config.read_only);
    assert!(!config.locked);
}

#[test]
fn configuration_read_stops_at_the_first_failure() {
    let mut fake = Fake::new();
    fake.protect_reads = vec![131];
    let mut card = LibnfcCardWrapper::new(fake);
    assert_eq!(
        tag().read_config(&mut card).map(|_| ()),
        Err(TagError::Read(TransportError::Status { sw1: 0x63, sw2: 0x00 }))
    );
    assert_eq!(card.into_inner().sent.len(), 2);
}

#[test]
fn read_only_sets_the_bit_and_the_lock_and_confirms() {
    let mut fake = Fake::new();
    fake.pages[133] = [0x80, 0x10, 3, 4];
    let mut card = LibnfcCardWrapper::new(fake);
    assert_eq!(tag().set_read_only(&mut card), Ok(()));
    let fake = card.into_inner();
    assert_eq!(
        fake.sent,
        vec![
            read_frame(133),
            write_frame(133, [0x80, 0x11, 3, 4]),
            write_frame(134, [0xFF, 0xFF, 0, 0]),
            read_frame(134),
        ]
    );
}

#[test]
fn lock_that_cannot_be_confirmed_is_not_a_success() {
    let mut fake = Fake::new();
    fake.drop_write = Some(134);
    let mut card = LibnfcCardWrapper::new(fake);
    assert_eq!(tag().set_read_only(&mut card), Err(TagError::NotConfirmed));

    let mut fake = Fake::new();
    fake.refuse_write = Some(133);
    let mut card = LibnfcCardWrapper::new(fake);
    assert_eq!(
        tag().set_read_only(&mut card),
        Err(TagError::Write(TransportError::Status { sw1: 0x65, sw2: 0x81 }))
    );
    assert_eq!(card.into_inner().writes(), vec![133]);
}

#[test]
fn denied_write_without_authentication_asks_for_a_password() {
    let mut fake = Fake::new();
    fake.protect_writes = true;
    let mut card = LibnfcCardWrapper::new(fake);
    assert_eq!(tag().write_block(&mut card, 4, &[1, 2, 3, 4]), Err(TagError::PasswordRequired));
    assert_eq!(
        tag().write_block_with_password(&mut card, 4, &[1, 2, 3, 4], Some(&PASSWORD)),
        Err(TagError::Write(TransportError::Status { sw1: 0x63, sw2: 0x00 }))
    );
    // the page store does not authenticate by itself
    let fake = card.into_inner();
    assert_eq!(fake.sent, vec![write_frame(4, [1, 2, 3, 4]), write_frame(4, [1, 2, 3, 4])]);
}

#[test]
fn read_of_too_few_bytes_is_a_short_read() {
    let mut fake = Fake::new();
    fake.read_len = Some((5, 3));
    let mut card = LibnfcCardWrapper::new(fake);
    assert_eq!(tag().read_block(&mut card, 5), Err(TagError::ShortRead));
    let mut fake = Fake::new();
    fake.read_len = Some((5, 6));
    let mut card = LibnfcCardWrapper::new(fake);
    assert_eq!(
        tag().read_block(&mut card, 5),
        Err(TagError::Read(TransportError::MalformedResponse))
    );
}

#[test]
fn channel_failure_is_surfaced_with_its_code() {
    let mut fake = Fake::new();
    fake.channel_down_after = Some(0);
    let mut card = LibnfcCardWrapper::new(fake);
    assert_eq!(
        tag().read_block(&mut card, 5),
        Err(TagError::Read(TransportError::Channel { code: -1 }))
    );
    assert_eq!(
        tag().write_block(&mut card, 5, &[0; 4]),
        Err(TagError::Write(TransportError::Channel { code: -1 }))
    );
}

#[test]
fn read_with_password_authenticates_first() {
    let mut fake = Fake::new();
    fake.pages[9] = [4, 3, 2, 1];
    fake.protect_reads = vec![9];
    fake.auth_frame = Some(wrapped_frame());
    let mut card = LibnfcCardWrapper::new(fake);
    assert_eq!(
        tag().read_block(&mut card, 9),
        Err(TagError::Read(TransportError::Status { sw1: 0x63, sw2: 0x00 }))
    );
    assert_eq!(tag().read_block_with_password(&mut card, 9, Some(&PASSWORD)), Ok([4, 3, 2, 1]));
    assert_eq!(tag().read_block_with_password(&mut card, 9, None), Ok([4, 3, 2, 1]));

    let mut card = LibnfcCardWrapper::new(Fake::new());
    assert_eq!(
        tag().read_block_with_password(&mut card, 9, Some(&PASSWORD)),
        Err(TagError::AuthFailed(AuthFailure::NoPasswordSet))
    );
    // nothing was read after the failed authentication
    assert_eq!(card.into_inner().sent.len(), 4);
}

#[test]
fn tag_type_is_told_by_the_capability_container() {
    let mut card = LibnfcCardWrapper::new(Fake::new());
    assert_eq!(tag().check_type(&mut card), Ok(true));
    let mut fake = Fake::new();
    fake.pages[3] = [0xE0, 0x10, 0x3F, 0x00];
    let mut card = LibnfcCardWrapper::new(fake);
    assert_eq!(tag().check_type(&mut card), Ok(false));
    assert_eq!(tag().check_type_with_password(&mut card, None), Ok(false));
}

#[test]
fn denied_type_check_needs_the_password() {
    let mut fake = Fake::new();
    fake.protect_reads = vec![3];
    fake.auth_frame = Some(wrapped_frame());
    let mut card = LibnfcCardWrapper::new(fake);
    assert_eq!(tag().check_type_with_password(&mut card, None), Err(TagError::PasswordRequired));
    assert_eq!(tag().check_type_with_password(&mut card, Some(&PASSWORD)), Ok(true));
    let fake = card.into_inner();
    assert_eq!(
        fake.sent,
        vec![read_frame(3), read_frame(3), read_frame(130), wrapped_frame(), read_frame(3)]
    );
}

#[test]
fn identifier_has_seven_bytes() {
    let mut card = LibnfcCardWrapper::new(Fake::new());
    assert_eq!(tag().identify(&mut card), Ok(vec![0x04, 0x11, 0x22, 0x33, 0x44, 0x55, 0x66]));
    assert_eq!(card.into_inner().sent, vec![vec![0xFF, 0xCA, 0x00, 0x00, 0x00]]);
    let mut fake = Fake::new();
    fake.uid = vec![1, 2, 3, 4];
    let mut card = LibnfcCardWrapper::new(fake);
    assert_eq!(tag().identify(&mut card), Err(TagError::ShortRead));
    let mut fake = Fake::new();
    fake.uid = vec![1; 10];
    let mut card = LibnfcCardWrapper::new(fake);
    assert_eq!(
        tag().identify(&mut card),
        Err(TagError::Read(TransportError::MalformedResponse))
    );
}

#[test]
fn assignment_must_be_five_different_configuration_pages() {
    assert_eq!(ConfigLayout::new(130, 131, 132, 133, 134), Some(ConfigLayout::from_page_130()));
    assert_eq!(
        ConfigLayout::new(133, 134, 131, 132, 130),
        Some(ConfigLayout { pwd: 133, pack: 134, auth0: 131, access: 132, lock: 130 })
    );
    assert_eq!(ConfigLayout::new(130, 130, 132, 133, 134), None);
    assert_eq!(ConfigLayout::new(129, 131, 132, 133, 134), None);
    assert_eq!(ConfigLayout::new(130, 131, 132, 133, 135), None);
}
