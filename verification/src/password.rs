//! Reading a password from what a person typed. This is a convenience beside
//! the protocol: the protocol itself only ever sees four bytes.

use vstd::prelude::*;
use vstd::slice::slice_subrange;
use vstd::string::StringSliceAdditionalSpecFns;
use crate::bytes::starts_with;
use crate::hex::{all_hex, is_all_hex, number_of, parse_number};

verus! {

/// Why a text is not a password.
#[derive(Clone, Copy, Debug, PartialEq, Eq, Structural)]
pub enum PasswordError {
    /// The text has four parts, and one of them is not a byte in hexadecimal.
    InvalidHexByte,
    /// The text is marked as hexadecimal and is not a number of 32 bits.
    InvalidHexNumber,
    /// The text is in none of the accepted forms.
    InvalidFormat,
}

/// The largest password value.
pub const MAX_PASSWORD: u64 = 0xFFFF_FFFF;

/// Whether `b` is a white-space character of one byte: the space, or a
/// control character from tab to carriage return.
pub open spec fn is_space(b: u8) -> bool {
    b == 0x20 || 0x09 <= b <= 0x0D
}

/// Whether `b` is the second byte of a white-space character of two bytes,
/// whose first is `C2`: the next-line control or the no-break space.
pub open spec fn is_space_after_c2(b: u8) -> bool {
    b == 0x85 || b == 0xA0
}

/// Whether the three bytes are a white-space character: the Ogham space
/// mark, one of the spaces from the en quad to the hair space, the line or
/// paragraph separator, the narrow no-break space, the medium mathematical
/// space or the ideographic space.
pub open spec fn is_wide_space(a: u8, b: u8, c: u8) -> bool {
    ||| a == 0xE1 && b == 0x9A && c == 0x80
    ||| a == 0xE2 && b == 0x80 && (0x80 <= c <= 0x8A || c == 0xA8 || c == 0xA9 || c == 0xAF)
    ||| a == 0xE2 && b == 0x81 && c == 0x9F
    ||| a == 0xE3 && b == 0x80 && c == 0x80
}

/// The number of bytes of the white-space character that begins at `at`;
/// zero if none begins there. White space is what Unicode gives the
/// property of that name, in UTF-8.
pub open spec fn space_at(s: Seq<u8>, at: int) -> int {
    if at < 0 || at >= s.len() {
        0
    } else if is_space(s[at]) {
        1
    } else if at + 1 < s.len() && s[at] == 0xC2 && is_space_after_c2(s[at + 1]) {
        2
    } else if at + 2 < s.len() && is_wide_space(s[at], s[at + 1], s[at + 2]) {
        3
    } else {
        0
    }
}

/// The number of bytes of the white-space character that ends at `end`
/// without beginning before `from`; zero if none ends there.
pub open spec fn space_before(s: Seq<u8>, from: int, end: int) -> int {
    if from < 0 || end > s.len() {
        0
    } else if end - 1 >= from && is_space(s[end - 1]) {
        1
    } else if end - 2 >= from && s[end - 2] == 0xC2 && is_space_after_c2(s[end - 1]) {
        2
    } else if end - 3 >= from && is_wide_space(s[end - 3], s[end - 2], s[end - 1]) {
        3
    } else {
        0
    }
}

/// The position at or after `at` where the white space that begins at `at`
/// ends.
pub open spec fn trim_start(s: Seq<u8>, at: int) -> int
    decreases s.len() - at,
{
    if space_at(s, at) > 0 {
        trim_start(s, at + space_at(s, at))
    } else {
        at
    }
}

/// The position at or before `end` where the white space that ends at `end`
/// begins, no earlier than `from`.
pub open spec fn trim_end(s: Seq<u8>, from: int, end: int) -> int
    decreases end - from,
{
    if space_before(s, from, end) > 0 {
        trim_end(s, from, end - space_before(s, from, end))
    } else {
        end
    }
}

/// `s` without the white space around it.
pub open spec fn trimmed(s: Seq<u8>) -> Seq<u8> {
    s.subrange(trim_start(s, 0), trim_end(s, trim_start(s, 0), s.len() as int))
}

/// What separates the bytes of a password written byte by byte: a space or a
/// colon.
pub open spec fn is_sep(b: u8) -> bool {
    b == 0x20 || b == 0x3A
}

/// The position of the first separator in `s` at or after `from`, or the
/// length of `s` if there is none.
pub open spec fn first_sep(s: Seq<u8>, from: int) -> int
    decreases s.len() - from,
{
    if from < 0 || from >= s.len() {
        s.len() as int
    } else if is_sep(s[from]) {
        from
    } else {
        first_sep(s, from + 1)
    }
}

/// The parts of `s` between its separators, if there are exactly four.
pub open spec fn four_parts(s: Seq<u8>) -> Option<Seq<Seq<u8>>> {
    let e0 = first_sep(s, 0);
    let e1 = first_sep(s, e0 + 1);
    let e2 = first_sep(s, e1 + 1);
    let e3 = first_sep(s, e2 + 1);
    if e0 < s.len() && e1 < s.len() && e2 < s.len() && e3 == s.len() {
        Some(
            seq![
                s.subrange(0, e0),
                s.subrange(e0 + 1, e1),
                s.subrange(e1 + 1, e2),
                s.subrange(e2 + 1, e3),
            ],
        )
    } else {
        None
    }
}

/// The byte that one part denotes, white space around it ignored.
pub open spec fn byte_of(part: Seq<u8>) -> Option<int> {
    number_of(trimmed(part), 16, 255)
}

/// The password that `text` denotes. Four parts are four bytes in
/// hexadecimal, the first of them the lowest. Otherwise `0x` marks a
/// hexadecimal number, eight hexadecimal digits are one, and anything else
/// has to be a decimal number.
pub open spec fn password_of(text: Seq<u8>) -> Result<u32, PasswordError> {
    let s = trimmed(text);
    match four_parts(s) {
        Some(p) => match (byte_of(p[0]), byte_of(p[1]), byte_of(p[2]), byte_of(p[3])) {
            (Some(a), Some(b), Some(c), Some(d)) => Ok(
                (a + b * 0x100 + c * 0x1_0000 + d * 0x100_0000) as u32,
            ),
            _ => Err(PasswordError::InvalidHexByte),
        },
        None => {
            if starts_with(s, "0x".spec_bytes()) || starts_with(s, "0X".spec_bytes()) {
                match number_of(s.skip(2), 16, MAX_PASSWORD as int) {
                    Some(v) => Ok(v as u32),
                    None => Err(PasswordError::InvalidHexNumber),
                }
            } else if s.len() == 8 && all_hex(s) {
                match number_of(s, 16, MAX_PASSWORD as int) {
                    Some(v) => Ok(v as u32),
                    None => Err(PasswordError::InvalidHexNumber),
                }
            } else {
                match number_of(s, 10, MAX_PASSWORD as int) {
                    Some(v) => Ok(v as u32),
                    None => Err(PasswordError::InvalidFormat),
                }
            }
        },
    }
}

/// The four bytes of a password value, the lowest first.
pub open spec fn bytes_of_password(value: u32) -> Seq<u8> {
    seq![
        (value % 0x100) as u8,
        (value / 0x100 % 0x100) as u8,
        (value / 0x1_0000 % 0x100) as u8,
        (value / 0x100_0000) as u8,
    ]
}

/// Tells whether `b` is a white-space character of one byte.
pub fn space(b: u8) -> (r: bool)
    ensures
        r == is_space(b),
{
    b == 0x20 || (0x09 <= b && b <= 0x0D)
}

/// Tells whether the three bytes are a white-space character.
pub fn wide_space(a: u8, b: u8, c: u8) -> (r: bool)
    ensures
        r == is_wide_space(a, b, c),
{
    (a == 0xE1 && b == 0x9A && c == 0x80) || (a == 0xE2 && b == 0x80 && ((0x80 <= c && c <= 0x8A)
        || c == 0xA8 || c == 0xA9 || c == 0xAF)) || (a == 0xE2 && b == 0x81 && c == 0x9F) || (a
        == 0xE3 && b == 0x80 && c == 0x80)
}

/// Strips the white space around `s`.
pub fn trim(s: &[u8]) -> (r: &[u8])
    ensures
        r@ == trimmed(s@),
{
    let n: usize = s.len();
    let mut a: usize = 0;
    loop
        invariant
            n == s@.len(),
            a <= n,
            trim_start(s@, 0) == trim_start(s@, a as int),
        ensures
            trim_start(s@, 0) == a,
        decreases n - a,
    {
        if a < n && space(s[a]) {
            a = a + 1;
        } else if a < n && n - a >= 2 && s[a] == 0xC2 && (s[a + 1] == 0x85 || s[a + 1] == 0xA0) {
            a = a + 2;
        } else if a < n && n - a >= 3 && wide_space(s[a], s[a + 1], s[a + 2]) {
            a = a + 3;
        } else {
            break;
        }
    }
    let mut b: usize = n;
    loop
        invariant
            n == s@.len(),
            a <= b <= n,
            trim_start(s@, 0) == a,
            trim_end(s@, a as int, n as int) == trim_end(s@, a as int, b as int),
        ensures
            trim_end(s@, a as int, n as int) == b,
        decreases b - a,
    {
        if b - a >= 1 && space(s[b - 1]) {
            b = b - 1;
        } else if b - a >= 2 && s[b - 2] == 0xC2 && (s[b - 1] == 0x85 || s[b - 1] == 0xA0) {
            b = b - 2;
        } else if b - a >= 3 && wide_space(s[b - 3], s[b - 2], s[b - 1]) {
            b = b - 3;
        } else {
            break;
        }
    }
    slice_subrange(s, a, b)
}

/// Finds the first separator in `s` at or after `from`; the length of `s` if
/// there is none.
pub fn find_sep(s: &[u8], from: usize) -> (k: usize)
    ensures
        k == first_sep(s@, from as int),
        k <= s@.len(),
        from <= s@.len() ==> from <= k,
{
    if from >= s.len() {
        return s.len();
    }
    let mut i: usize = from;
    while i < s.len()
        invariant
            from <= i <= s@.len(),
            first_sep(s@, from as int) == first_sep(s@, i as int),
        decreases s@.len() - i,
    {
        if s[i] == 0x20 || s[i] == 0x3A {
            return i;
        }
        i = i + 1;
    }
    i
}

/// Reads one part of a password written byte by byte.
pub fn parse_part(part: &[u8]) -> (r: Option<u64>)
    ensures
        match r {
            Some(v) => byte_of(part@) == Some(v as int) && v <= 255,
            None => byte_of(part@) is None,
        },
{
    parse_number(trim(part), 16, 255)
}

/// Reads a password from its bytes, as [`password_of`] defines it.
pub fn parse_password_bytes(text: &[u8]) -> (r: Result<u32, PasswordError>)
    ensures
        r == password_of(text@),
{
    let s = trim(text);
    let n: usize = s.len();
    let e0 = find_sep(s, 0);
    if e0 < n {
        let e1 = find_sep(s, e0 + 1);
        if e1 < n {
            let e2 = find_sep(s, e1 + 1);
            if e2 < n {
                let e3 = find_sep(s, e2 + 1);
                if e3 == n {
                    let a = parse_part(slice_subrange(s, 0, e0));
                    let b = parse_part(slice_subrange(s, e0 + 1, e1));
                    let c = parse_part(slice_subrange(s, e1 + 1, e2));
                    let d = parse_part(slice_subrange(s, e2 + 1, e3));
                    return match (a, b, c, d) {
                        (Some(a), Some(b), Some(c), Some(d)) => Ok(
                            (a + b * 0x100 + c * 0x1_0000 + d * 0x100_0000) as u32,
                        ),
                        _ => Err(PasswordError::InvalidHexByte),
                    };
                }
            }
        }
    }
    assert(four_parts(s@) is None);
    if crate::bytes::has_prefix(s, "0x".as_bytes()) || crate::bytes::has_prefix(
        s,
        "0X".as_bytes(),
    ) {
        proof {
            reveal_strlit("0x");
            reveal_strlit("0X");
            crate::bytes::lemma_ascii_bytes("0x");
            crate::bytes::lemma_ascii_bytes("0X");
        }
        match parse_number(slice_subrange(s, 2, n), 16, MAX_PASSWORD) {
            Some(v) => Ok(v as u32),
            None => Err(PasswordError::InvalidHexNumber),
        }
    } else if n == 8 && is_all_hex(s) {
        match parse_number(s, 16, MAX_PASSWORD) {
            Some(v) => Ok(v as u32),
            None => Err(PasswordError::InvalidHexNumber),
        }
    } else {
        match parse_number(s, 10, MAX_PASSWORD) {
            Some(v) => Ok(v as u32),
            None => Err(PasswordError::InvalidFormat),
        }
    }
}

/// Reads a password from what was typed: four bytes in hexadecimal separated
/// by spaces or colons, a hexadecimal number after `0x`, eight hexadecimal
/// digits, or a decimal number, with the white space around it ignored.
pub fn parse_password(password: &str) -> (r: Result<u32, PasswordError>)
    ensures
        r == password_of(password.spec_bytes()),
{
    parse_password_bytes(password.as_bytes())
}

/// The four bytes that are sent to the tag for a password value: the lowest
/// byte first, which is the order in which a password written byte by byte
/// is read.
pub fn password_bytes(value: u32) -> (r: [u8; 4])
    ensures
        r@ == bytes_of_password(value),
{
    let r = [
        (value % 0x100) as u8,
        (value / 0x100 % 0x100) as u8,
        (value / 0x1_0000 % 0x100) as u8,
        (value / 0x100_0000) as u8,
    ];
    assert(r@ =~= bytes_of_password(value));
    r
}

} // verus!
