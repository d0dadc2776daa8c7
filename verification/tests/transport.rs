use ntag216::error::{TagError, TransportError};
use ntag216::layout::ConfigLayout;
use ntag216::pages::Ntag216;
use ntag216::transport::{interpret_response, LibnfcCardWrapper, NfcCard};

/// A tag that is nothing but memory: 135 pages, each readable and writable.
struct Memory {
    pages: Vec<[u8; 4]>,
    sent: Vec<Vec<u8>>,
}

impl Memory {
    fn new() -> Memory {
        let mut pages = vec![[0u8; 4]; 135];
        pages[3] = [0xE1, 0x10, 0x3F, 0x00];
        Memory { pages, sent: Vec::new() }
    }
}

impl NfcCard for Memory {
    fn transmit(&mut self, apdu: &[u8]) -> Result<Vec<u8>, i64> {
        self.sent.push(apdu.to_vec());
        if apdu.len() == 5 && apdu[0] == 0xFF && apdu[1] == 0xB0 && (apdu[3] as usize) < 135 {
            let mut out = self.pages[apdu[3] as usize].to_vec();
            out.extend_from_slice(&[0x90, 0x00]);
            Ok(out)
        } else if apdu.len() == 9 && apdu[0] == 0xFF && apdu[1] == 0xD6 && (apdu[3] as usize) < 135
        {
            self.pages[apdu[3] as usize] = [apdu[5], apdu[6], apdu[7], apdu[8]];
            Ok(vec![0x90, 0x00])
        } else {
            Ok(vec![0x6A, 0x81])
        }
    }
}

#[test]
fn status_bytes_are_stripped_on_success() {
    assert_eq!(interpret_response(Ok(vec![1, 2, 3, 0x90, 0x00])), Ok(vec![1, 2, 3]));
    assert_eq!(interpret_response(Ok(vec![0x90, 0x00])), Ok(vec![]));
}

#[test]
fn other_status_is_reported_with_its_codes() {
    assert_eq!(
        interpret_response(Ok(vec![9, 0x63, 0x00])),
        Err(TransportError::Status { sw1: 0x63, sw2: 0x00 })
    );
    assert_eq!(
        interpret_response(Ok(vec![0x90, 0x01])),
        Err(TransportError::Status { sw1: 0x90, sw2: 0x01 })
    );
}

#[test]
fn short_response_is_malformed() {
    assert_eq!(interpret_response(Ok(vec![0x90])), Err(TransportError::MalformedResponse));
    assert_eq!(interpret_response(Ok(vec![])), Err(TransportError::MalformedResponse));
}

#[test]
fn channel_failure_keeps_its_code() {
    assert_eq!(interpret_response(Err(-7)), Err(TransportError::Channel { code: -7 }));
}

#[test]
fn page_written_is_page_read() {
    let tag = Ntag216::new(ConfigLayout::from_page_130());
    let mut card = LibnfcCardWrapper::new(Memory::new());
    assert_eq!(tag.write_block(&mut card, 7, &[1, 2, 3, 4]), Ok(()));
    assert_eq!(tag.read_block(&mut card, 7), Ok([1, 2, 3, 4]));
    let memory = card.into_inner();
    assert_eq!(memory.sent[0], vec![0xFF, 0xD6, 0x00, 7, 0x04, 1, 2, 3, 4]);
    assert_eq!(memory.sent[1], vec![0xFF, 0xB0, 0x00, 7, 0x04]);
}

#[test]
fn read_of_missing_page_is_read_error() {
    let tag = Ntag216::new(ConfigLayout::from_page_130());
    let mut card = LibnfcCardWrapper::new(Memory::new());
    assert_eq!(
        tag.read_block(&mut card, 200),
        Err(TagError::Read(TransportError::Status { sw1: 0x6A, sw2: 0x81 }))
    );
}
