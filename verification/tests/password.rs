use ntag216::password::{parse_password, parse_password_bytes, password_bytes, PasswordError};

#[test]
fn four_bytes_are_read_lowest_first() {
    assert_eq!(parse_password("FF FF FF FF"), Ok(0xFFFF_FFFF));
    assert_eq!(parse_password("01 02 03 04"), Ok(0x0403_0201));
    assert_eq!(parse_password("01:02:03:04"), Ok(0x0403_0201));
    assert_eq!(parse_password("a:B:0c:0"), Ok(0x000C_0B0A));
    assert_eq!(parse_password("  12 34 56 78\n"), Ok(0x7856_3412));
}

#[test]
fn four_parts_must_each_be_a_byte() {
    assert_eq!(parse_password("GG 00 00 00"), Err(PasswordError::InvalidHexByte));
    assert_eq!(parse_password("100 00 00 00"), Err(PasswordError::InvalidHexByte));
    assert_eq!(parse_password("00  00 00"), Err(PasswordError::InvalidHexByte));
    assert_eq!(parse_password("00 00 00 -1"), Err(PasswordError::InvalidHexByte));
}

#[test]
fn hexadecimal_number_is_marked_by_0x() {
    assert_eq!(parse_password("0x1A2B"), Ok(0x1A2B));
    assert_eq!(parse_password("0XFFFFFFFF"), Ok(0xFFFF_FFFF));
    assert_eq!(parse_password("0x0"), Ok(0));
    assert_eq!(parse_password("0xZZ"), Err(PasswordError::InvalidHexNumber));
    assert_eq!(parse_password("0x"), Err(PasswordError::InvalidHexNumber));
    assert_eq!(parse_password("0x100000000"), Err(PasswordError::InvalidHexNumber));
}

#[test]
fn eight_hexadecimal_digits_are_a_hexadecimal_number() {
    assert_eq!(parse_password("DEADBEEF"), Ok(0xDEAD_BEEF));
    assert_eq!(parse_password("12345678"), Ok(0x1234_5678));
    assert_eq!(parse_password("00000000"), Ok(0));
}

#[test]
fn anything_else_is_decimal() {
    assert_eq!(parse_password("4294967295"), Ok(0xFFFF_FFFF));
    assert_eq!(parse_password("0"), Ok(0));
    assert_eq!(parse_password("  42 "), Ok(42));
    assert_eq!(parse_password("+7"), Ok(7));
    assert_eq!(parse_password("1234567"), Ok(1_234_567));
    assert_eq!(parse_password("4294967296"), Err(PasswordError::InvalidFormat));
    assert_eq!(parse_password("zz"), Err(PasswordError::InvalidFormat));
    assert_eq!(parse_password(""), Err(PasswordError::InvalidFormat));
    assert_eq!(parse_password("-1"), Err(PasswordError::InvalidFormat));
    assert_eq!(parse_password("DEADBEE"), Err(PasswordError::InvalidFormat));
}

#[test]
fn other_than_four_parts_is_not_read_byte_by_byte() {
    assert_eq!(parse_password("1 2 3"), Err(PasswordError::InvalidFormat));
    assert_eq!(parse_password("1 2 3 4 5"), Err(PasswordError::InvalidFormat));
    assert_eq!(parse_password("0x12 34"), Err(PasswordError::InvalidHexNumber));
}

#[test]
fn white_space_of_any_width_is_ignored() {
    assert_eq!(parse_password("\u{A0}42\u{2003}"), Ok(42));
    assert_eq!(parse_password("\u{3000}\t0x10\u{85}\u{2028}"), Ok(16));
    assert_eq!(parse_password("\u{1680}AA\u{205F}:BB:\u{202F}CC\u{200A}:DD\u{2029}"), Ok(0xDDCC_BBAA));
    // a character that is no white space stays
    assert_eq!(parse_password("\u{200B}42"), Err(PasswordError::InvalidFormat));
    assert_eq!(parse_password("4\u{A0}2"), Err(PasswordError::InvalidFormat));
}

#[test]
fn bytes_are_read_like_text() {
    assert_eq!(parse_password_bytes(b"AA BB CC DD"), Ok(0xDDCC_BBAA));
    assert_eq!(parse_password_bytes(b"\t99\r\n"), Ok(99));
}

#[test]
fn password_value_is_sent_lowest_byte_first() {
    assert_eq!(password_bytes(0x0403_0201), [1, 2, 3, 4]);
    assert_eq!(password_bytes(0xFFFF_FFFF), [0xFF; 4]);
    assert_eq!(password_bytes(parse_password("AA BB CC DD").unwrap()), [0xAA, 0xBB, 0xCC, 0xDD]);
}
