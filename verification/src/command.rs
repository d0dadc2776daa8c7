//! The command frames of the tag, byte for byte.

use vstd::prelude::*;

verus! {

/// The command encodings tried for password authentication, in the order in
/// which they are tried. Readers differ in which of them they relay to the
/// tag; the table is fixed and short on purpose.
#[derive(Clone, Copy, Debug, PartialEq, Eq, Structural)]
pub enum AuthMethod {
    /// `FF 1B 00 00 04` and the password: the command as an APDU of its own.
    Wrapped,
    /// `FF 00 00 00 05 1B` and the password: the tag's native command inside
    /// the reader's pass-through frame.
    PassThrough,
    /// `FF 1B` and the password: the abbreviated frame.
    Short,
}

/// How many encodings the table holds.
pub const AUTH_METHODS: usize = 3;

/// The encoding tried at position `k` of the table.
pub open spec fn auth_method(k: int) -> AuthMethod {
    if k == 0 {
        AuthMethod::Wrapped
    } else if k == 1 {
        AuthMethod::PassThrough
    } else {
        AuthMethod::Short
    }
}

/// The frame that asks for the tag's identifier.
pub open spec fn uid_command() -> Seq<u8> {
    seq![0xFFu8, 0xCAu8, 0x00u8, 0x00u8, 0x00u8]
}

/// The frame that reads the four bytes of `page`.
pub open spec fn read_command(page: u8) -> Seq<u8> {
    seq![0xFFu8, 0xB0u8, 0x00u8, page, 0x04u8]
}

/// The frame that writes `data` to `page`.
pub open spec fn write_command(page: u8, data: Seq<u8>) -> Seq<u8> {
    seq![0xFFu8, 0xD6u8, 0x00u8, page, 0x04u8] + data
}

/// The frame that presents `password` in the encoding `method`.
pub open spec fn auth_command(method: AuthMethod, password: Seq<u8>) -> Seq<u8> {
    match method {
        AuthMethod::Wrapped => seq![0xFFu8, 0x1Bu8, 0x00u8, 0x00u8, 0x04u8] + password,
        AuthMethod::PassThrough => seq![0xFFu8, 0x00u8, 0x00u8, 0x00u8, 0x05u8, 0x1Bu8] + password,
        AuthMethod::Short => seq![0xFFu8, 0x1Bu8] + password,
    }
}

/// Builds the identifier request.
pub fn uid_apdu() -> (apdu: Vec<u8>)
    ensures
        apdu@ == uid_command(),
{
    let apdu = vec![0xFFu8, 0xCAu8, 0x00u8, 0x00u8, 0x00u8];
    assert(apdu@ =~= uid_command());
    apdu
}

/// Builds the read request for `page`.
pub fn read_apdu(page: u8) -> (apdu: Vec<u8>)
    ensures
        apdu@ == read_command(page),
{
    let apdu = vec![0xFFu8, 0xB0u8, 0x00u8, page, 0x04u8];
    assert(apdu@ =~= read_command(page));
    apdu
}

/// Builds the write request for `page`.
pub fn write_apdu(page: u8, data: &[u8; 4]) -> (apdu: Vec<u8>)
    ensures
        apdu@ == write_command(page, data@),
{
    let apdu = vec![0xFFu8, 0xD6u8, 0x00u8, page, 0x04u8, data[0], data[1], data[2], data[3]];
    assert(apdu@ =~= write_command(page, data@));
    apdu
}

/// Builds the authentication request in the encoding `method`.
pub fn auth_apdu(method: AuthMethod, password: &[u8; 4]) -> (apdu: Vec<u8>)
    ensures
        apdu@ == auth_command(method, password@),
{
    let b0: u8 = password[0];
    let b1: u8 = password[1];
    let b2: u8 = password[2];
    let b3: u8 = password[3];
    let apdu = match method {
        AuthMethod::Wrapped => vec![0xFFu8, 0x1Bu8, 0x00u8, 0x00u8, 0x04u8, b0, b1, b2, b3],
        AuthMethod::PassThrough => vec![
            0xFFu8,
            0x00u8,
            0x00u8,
            0x00u8,
            0x05u8,
            0x1Bu8,
            b0,
            b1,
            b2,
            b3,
        ],
        AuthMethod::Short => vec![0xFFu8, 0x1Bu8, b0, b1, b2, b3],
    };
    assert(apdu@ =~= auth_command(method, password@));
    apdu
}

} // verus!
