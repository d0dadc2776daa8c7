//! Protocol core for NTAG216-class NFC storage tags.
//!
//! The crate speaks to a tag through a transport that the caller supplies,
//! reads and writes its four-byte pages, frames NDEF messages in the
//! user-data area, encodes and decodes the records in them, and manages the
//! password protection of the tag.
//!
//! Every operation on a tag is specified by the exchanges it makes: the
//! transport keeps a ghost record of each frame sent and each response
//! received, and the contract of an operation says which exchanges it adds
//! to that record and how its result follows from the responses. What the
//! operations do to a tag that answers as plain memory is stated in
//! [`model`] and [`laws`].
//!
//! The layers, from the bottom:
//!
//! - [`transport`]: one frame out, one response back, and the status words.
//! - [`command`]: the command frames, byte for byte.
//! - [`pages`]: single pages.
//! - [`access`]: configuration pages, protection state, authentication.
//! - [`tlv`] and [`framer`]: the TLV container, pure and on the tag.
//! - [`ndef`], [`uri`], [`text`], [`wifi`], [`bluetooth`], [`vcard`],
//!   [`contact`] and [`record`]: the record codec.
//! - [`session`] and [`operations`]: the operations as a caller sees them.
//! - [`taginfo`]: what is reported about a tag.
//! - [`password`]: reading a password from what a person typed.

pub mod access;
pub mod bluetooth;
pub mod bytes;
pub mod command;
pub mod contact;
pub mod error;
pub mod framer;
pub mod hex;
pub mod laws;
pub mod layout;
pub mod model;
pub mod ndef;
pub mod operations;
pub mod pages;
pub mod password;
pub mod record;
pub mod session;
pub mod taginfo;
pub mod text;
pub mod tlv;
pub mod transport;
pub mod uri;
pub mod vcard;
pub mod wifi;
