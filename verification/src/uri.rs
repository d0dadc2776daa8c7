//! URI records: the prefix-code table and the payload built on it.

use vstd::prelude::*;
use vstd::string::StringSliceAdditionalSpecFns;
use crate::bytes::{append, has_prefix, starts_with};

verus! {

/// The largest prefix code of the table.
pub const MAX_URI_CODE: u8 = 6;

/// The longest URI, in bytes, that the encoder accepts.
pub const MAX_URI_BYTES: usize = 250;

/// The type of a URI record.
pub open spec fn uri_type() -> Seq<u8> {
    "U".spec_bytes()
}

/// The prefix that `code` abbreviates; nothing for a code outside the table.
pub open spec fn uri_prefix(code: u8) -> Seq<u8> {
    if code == 1 {
        "http://www.".spec_bytes()
    } else if code == 2 {
        "https://www.".spec_bytes()
    } else if code == 3 {
        "http://".spec_bytes()
    } else if code == 4 {
        "https://".spec_bytes()
    } else if code == 5 {
        "tel:".spec_bytes()
    } else if code == 6 {
        "mailto:".spec_bytes()
    } else {
        Seq::empty()
    }
}

/// The code under which `uri` is stored: the two `www.` prefixes are looked
/// for before the schemes they begin with, so that the longest match wins.
pub open spec fn uri_code(uri: Seq<u8>) -> u8 {
    if starts_with(uri, uri_prefix(1)) {
        1
    } else if starts_with(uri, uri_prefix(2)) {
        2
    } else if starts_with(uri, uri_prefix(3)) {
        3
    } else if starts_with(uri, uri_prefix(4)) {
        4
    } else if starts_with(uri, uri_prefix(5)) {
        5
    } else if starts_with(uri, uri_prefix(6)) {
        6
    } else {
        0
    }
}

/// The payload of the record that stores `uri`: the code, then what follows
/// the abbreviated prefix.
pub open spec fn uri_payload(uri: Seq<u8>) -> Seq<u8> {
    seq![uri_code(uri)] + uri.skip(uri_prefix(uri_code(uri)).len() as int)
}

/// The URI that a payload stores. A code outside the table abbreviates
/// nothing, and the payload is then taken as it stands, code byte included.
/// An empty payload stores the empty URI.
pub open spec fn uri_of_payload(payload: Seq<u8>) -> Seq<u8> {
    if payload.len() == 0 {
        Seq::empty()
    } else if payload[0] <= MAX_URI_CODE {
        uri_prefix(payload[0]) + payload.skip(1)
    } else {
        payload
    }
}

/// The prefix that `code` abbreviates.
pub fn prefix_of(code: u8) -> (r: &'static [u8])
    ensures
        r@ == uri_prefix(code),
{
    if code == 1 {
        "http://www.".as_bytes()
    } else if code == 2 {
        "https://www.".as_bytes()
    } else if code == 3 {
        "http://".as_bytes()
    } else if code == 4 {
        "https://".as_bytes()
    } else if code == 5 {
        "tel:".as_bytes()
    } else if code == 6 {
        "mailto:".as_bytes()
    } else {
        let r: &'static [u8] = "".as_bytes();
        proof {
            reveal_strlit("");
            crate::bytes::lemma_ascii_bytes("");
            assert(r@ =~= Seq::<u8>::empty());
        }
        r
    }
}

/// Picks the code under which `uri` is stored.
pub fn code_of(uri: &[u8]) -> (code: u8)
    ensures
        code == uri_code(uri@),
        code <= MAX_URI_CODE,
        starts_with(uri@, uri_prefix(code)),
{
    let mut code: u8 = 1;
    while code <= MAX_URI_CODE
        invariant
            1 <= code <= MAX_URI_CODE + 1,
            forall|c: u8| 1 <= c < code ==> !starts_with(uri@, #[trigger] uri_prefix(c)),
        decreases MAX_URI_CODE + 1 - code,
    {
        if has_prefix(uri, prefix_of(code)) {
            return code;
        }
        code = code + 1;
    }
    assert(uri@.take(0) =~= Seq::<u8>::empty());
    0
}

/// Builds the payload that stores `uri`.
pub fn encode_uri_payload(uri: &[u8]) -> (payload: Vec<u8>)
    ensures
        payload@ == uri_payload(uri@),
        payload@.len() <= uri@.len() + 1,
{
    let code = code_of(uri);
    let skip: usize = prefix_of(code).len();
    let mut payload: Vec<u8> = Vec::new();
    payload.push(code);
    append(&mut payload, vstd::slice::slice_subrange(uri, skip, uri.len()));
    assert(payload@ =~= uri_payload(uri@));
    payload
}

/// Restores the URI that `payload` stores.
pub fn decode_uri_payload(payload: &[u8]) -> (uri: Vec<u8>)
    ensures
        uri@ == uri_of_payload(payload@),
{
    let mut uri: Vec<u8> = Vec::new();
    if payload.len() == 0 {
        return uri;
    }
    if payload[0] <= MAX_URI_CODE {
        append(&mut uri, prefix_of(payload[0]));
        append(&mut uri, vstd::slice::slice_subrange(payload, 1, payload.len()));
        assert(uri@ =~= uri_of_payload(payload@));
    } else {
        append(&mut uri, payload);
        assert(uri@ =~= payload@);
    }
    uri
}

/// A URI that was stored is restored as it was.
pub proof fn lemma_uri_roundtrip(uri: Seq<u8>)
    ensures
        uri_payload(uri).len() >= 1,
        uri_of_payload(uri_payload(uri)) == uri,
{
    let code = uri_code(uri);
    let payload = uri_payload(uri);
    let prefix = uri_prefix(code);
    assert(payload[0] == code);
    assert(payload.skip(1) =~= uri.skip(prefix.len() as int));
    if code == 0 {
        assert(prefix + uri.skip(0) =~= uri);
    } else {
        assert(starts_with(uri, prefix));
        assert(uri.take(prefix.len() as int) + uri.skip(prefix.len() as int) =~= uri);
    }
}

/// The prefix that is abbreviated is the longest of the table that the URI
/// begins with.
pub proof fn law_longest_prefix(uri: Seq<u8>, code: u8)
    requires
        1 <= code <= MAX_URI_CODE,
        starts_with(uri, uri_prefix(code)),
    ensures
        uri_code(uri) != 0,
        uri_prefix(code).len() <= uri_prefix(uri_code(uri)).len(),
{
    reveal_strlit("http://www.");
    reveal_strlit("https://www.");
    reveal_strlit("http://");
    reveal_strlit("https://");
    reveal_strlit("tel:");
    reveal_strlit("mailto:");
    crate::bytes::lemma_ascii_bytes("http://www.");
    crate::bytes::lemma_ascii_bytes("https://www.");
    crate::bytes::lemma_ascii_bytes("http://");
    crate::bytes::lemma_ascii_bytes("https://");
    crate::bytes::lemma_ascii_bytes("tel:");
    crate::bytes::lemma_ascii_bytes("mailto:");
    let chosen = uri_code(uri);
    if chosen != code {
        // a code that is looked for earlier was found: it is no shorter, or
        // the two prefixes differ where both are defined
        let p = uri_prefix(code);
        let q = uri_prefix(chosen);
        assert(uri.take(p.len() as int) == p);
        assert(uri.take(q.len() as int) == q);
        assert(uri.take(p.len() as int)[0] == uri[0]);
        assert(uri.take(q.len() as int)[0] == uri[0]);
        if p.len() > 4 && q.len() > 4 {
            assert(uri.take(p.len() as int)[4] == uri[4]);
            assert(uri.take(q.len() as int)[4] == uri[4]);
        }
    }
}

} // verus!
