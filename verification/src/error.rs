//! The error taxonomy shared by every layer of the tag protocol.

use vstd::prelude::*;

verus! {

/// A failure below the page level: the frame never reached the tag, or the
/// tag answered with something other than the success status.
#[derive(Clone, Copy, Debug, PartialEq, Eq, Structural)]
pub enum TransportError {
    /// The channel itself failed; `code` is whatever the driver reported.
    Channel { code: i64 },
    /// The response was too short to carry the two status bytes.
    MalformedResponse,
    /// The tag rejected the command with this status pair.
    Status { sw1: u8, sw2: u8 },
}

/// Why an authentication attempt was given up.
#[derive(Clone, Copy, Debug, PartialEq, Eq, Structural)]
pub enum AuthFailure {
    /// The password page read back as all zeroes before the attempt.
    NoPasswordSet,
    /// Every command encoding was refused.
    Rejected,
}

/// Every way an operation on the tag can end without success.
#[derive(Clone, Copy, Debug, PartialEq, Eq, Structural)]
pub enum TagError {
    /// A page could not be read.
    Read(TransportError),
    /// A page read succeeded but did not deliver exactly four bytes.
    ShortRead,
    /// A page could not be written.
    Write(TransportError),
    /// The tag refused a write with the permission-denied status and no
    /// authentication had taken place.
    PasswordRequired,
    /// Authentication was attempted and did not succeed.
    AuthFailed(AuthFailure),
    /// A page read back differently from what had just been written to it.
    VerifyFailed { page: u8 },
    /// All pages verified, yet the record read back is not the record written.
    WriteIntegrity,
    /// The message does not fit into the user-data area.
    CapacityExceeded,
    /// The input handed to an encoder cannot be expressed as a record.
    InvalidRecord,
    /// The capability container or the TLV stream on the tag is malformed.
    Frame,
    /// A page index outside the range the operation accepts.
    InvalidPage,
    /// The tag is locked for good, and its configuration cannot be changed.
    Locked,
    /// The configuration was written but did not read back as expected.
    NotConfirmed,
}

} // verus!
