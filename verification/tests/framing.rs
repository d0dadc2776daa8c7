use ntag216::error::TagError;
use ntag216::tlv::{build_tlv, scan, ScanOutcome};

fn found(bytes: &[u8]) -> Result<Option<Vec<u8>>, TagError> {
    match scan(bytes) {
        ScanOutcome::Done(r) => r,
        ScanOutcome::NeedMore => panic!("scan needs more than {} bytes", bytes.len()),
    }
}

fn needs_more(bytes: &[u8]) -> bool {
    matches!(scan(bytes), ScanOutcome::NeedMore)
}

#[test]
fn short_message_has_one_length_byte() {
    assert_eq!(build_tlv(&[1, 2, 3]), Ok(vec![0x03, 0x03, 1, 2, 3, 0, 0, 0, 0xFE, 0, 0, 0]));
    assert_eq!(build_tlv(&[]), Ok(vec![0x03, 0x00, 0, 0, 0xFE, 0, 0, 0]));
    assert_eq!(build_tlv(&[7, 8]), Ok(vec![0x03, 0x02, 7, 8, 0xFE, 0, 0, 0]));
    assert_eq!(
        build_tlv(&[1, 2, 3, 4, 5, 6]),
        Ok(vec![0x03, 0x06, 1, 2, 3, 4, 5, 6, 0xFE, 0, 0, 0])
    );
}

#[test]
fn message_of_254_bytes_is_the_last_with_one_length_byte() {
    let message = vec![0x5A; 254];
    let framed = build_tlv(&message).unwrap();
    assert_eq!(&framed[..2], &[0x03, 0xFE]);
    assert_eq!(&framed[2..256], &message[..]);
    assert_eq!(&framed[256..], &[0xFE, 0, 0, 0]);
    assert_eq!(framed.len(), 260);
}

#[test]
fn message_of_255_bytes_has_three_length_bytes() {
    let message = vec![0x5A; 255];
    let framed = build_tlv(&message).unwrap();
    assert_eq!(&framed[..4], &[0x03, 0xFF, 0x00, 0xFF]);
    assert_eq!(&framed[4..259], &message[..]);
    assert_eq!(framed[259], 0x00);
    assert_eq!(&framed[260..], &[0xFE, 0, 0, 0]);
    assert_eq!(framed.len(), 264);
}

#[test]
fn message_of_300_bytes_has_its_length_high_byte_first() {
    let framed = build_tlv(&vec![1; 300]).unwrap();
    assert_eq!(&framed[..4], &[0x03, 0xFF, 0x01, 0x2C]);
}

#[test]
fn every_length_frames_or_is_refused() {
    for len in 0..=504usize {
        let message: Vec<u8> = (0..len).map(|i| (i % 251) as u8 + 1).collect();
        match build_tlv(&message) {
            Ok(framed) => {
                assert!(len <= 496, "length {} was framed", len);
                assert_eq!(framed.len() % 4, 0);
                assert!(framed.len() <= 504);
                let header = if len < 255 { 2 } else { 4 };
                assert_eq!(framed.len(), (header + len + 3) / 4 * 4 + 4);
                assert_eq!(framed[0], 0x03);
                if len < 255 {
                    assert_eq!(framed[1] as usize, len);
                } else {
                    assert_eq!(framed[1], 0xFF);
                    assert_eq!(framed[2] as usize * 256 + framed[3] as usize, len);
                }
                assert_eq!(&framed[header..header + len], &message[..]);
                let last = framed.len() - 4;
                assert!(framed[header + len..last].iter().all(|b| *b == 0));
                assert_eq!(&framed[last..], &[0xFE, 0, 0, 0]);
                let expected = if len == 0 { None } else { Some(message.clone()) };
                assert_eq!(found(&framed), Ok(expected));
            }
            Err(e) => {
                assert!(len > 496, "length {} was refused", len);
                assert_eq!(e, TagError::CapacityExceeded);
            }
        }
    }
}

#[test]
fn largest_message_fills_the_area() {
    let framed = build_tlv(&vec![9; 496]).unwrap();
    assert_eq!(framed.len(), 504);
    assert_eq!(&framed[500..], &[0xFE, 0, 0, 0]);
    assert_eq!(build_tlv(&vec![9; 497]), Err(TagError::CapacityExceeded));
    assert_eq!(build_tlv(&vec![9; 500]), Err(TagError::CapacityExceeded));
}

#[test]
fn null_tlvs_are_skipped() {
    assert_eq!(found(&[0x00, 0x00, 0x03, 0x02, 7, 8, 0xFE]), Ok(Some(vec![7, 8])));
}

#[test]
fn terminator_first_means_no_message() {
    assert_eq!(found(&[0xFE, 0x00, 0x00, 0x00]), Ok(None));
    assert_eq!(found(&[0x00, 0xFE]), Ok(None));
}

#[test]
fn empty_message_means_no_message() {
    assert_eq!(found(&[0x03, 0x00, 0xFE, 0x00]), Ok(None));
}

#[test]
fn other_tag_is_malformed() {
    assert_eq!(found(&[0x01, 0x03, 0xA0, 0x0C, 0x34]), Err(TagError::Frame));
    assert_eq!(found(&[0x00, 0x42]), Err(TagError::Frame));
}

#[test]
fn message_past_the_area_is_malformed() {
    // 2 + 503 bytes would end at 505
    assert_eq!(found(&[0x03, 0xFF, 0x01, 0xF7]), Err(TagError::Frame));
    // 4 + 500 ends at 504: fits, and more bytes are needed
    assert!(needs_more(&[0x03, 0xFF, 0x01, 0xF4]));
}

#[test]
fn area_of_nothing_but_null_tlvs_is_malformed() {
    assert_eq!(found(&vec![0u8; 504]), Err(TagError::Frame));
    assert!(needs_more(&vec![0u8; 503]));
}

#[test]
fn scan_asks_for_more_until_the_message_is_complete() {
    assert!(needs_more(&[]));
    assert!(needs_more(&[0x03]));
    assert!(needs_more(&[0x03, 0x05, 1, 2]));
    assert!(needs_more(&[0x03, 0xFF, 0x01]));
    assert_eq!(found(&[0x03, 0x05, 1, 2, 3, 4, 5]), Ok(Some(vec![1, 2, 3, 4, 5])));
    // what follows the message does not matter
    assert_eq!(found(&[0x03, 0x01, 9, 0x42, 0x42]), Ok(Some(vec![9])));
}

#[test]
fn three_byte_length_is_read_below_255_too() {
    assert_eq!(found(&[0x03, 0xFF, 0x00, 0x02, 7, 8]), Ok(Some(vec![7, 8])));
}
