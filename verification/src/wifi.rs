//! WiFi records: a credential made of nested attributes, each a two-byte
//! type, a two-byte length and a value.

use vstd::prelude::*;
use vstd::string::StringSliceAdditionalSpecFns;
use crate::bytes::{append, copy_range};

verus! {

/// How a network authenticates its clients.
#[derive(Clone, Copy, Debug, PartialEq, Eq, Structural)]
pub enum WifiSecurity {
    Open,
    Wep,
    Wpa,
    Wpa2,
}

/// The first byte of every attribute type used here.
pub const ATTR_HIGH: u8 = 0x10;

/// The credential attribute, which wraps the others.
pub const ATTR_CREDENTIAL: u8 = 0x0E;

/// The attribute that holds the network name.
pub const ATTR_SSID: u8 = 0x45;

/// The attribute that holds the network key.
pub const ATTR_KEY: u8 = 0x27;

/// The attribute that holds the authentication type.
pub const ATTR_AUTH: u8 = 0x03;

/// The attribute that holds the index of the network key.
pub const ATTR_KEY_INDEX: u8 = 0x26;

/// The type of a WiFi record.
pub open spec fn wifi_type() -> Seq<u8> {
    "wfa.org:WFA".spec_bytes()
}

/// Whether two byte strings are the same.
pub fn same_bytes(a: &[u8], b: &[u8]) -> (r: bool)
    ensures
        r == (a@ == b@),
{
    if a.len() != b.len() {
        return false;
    }
    let mut i: usize = 0;
    while i < a.len()
        invariant
            i <= a@.len(),
            a@.len() == b@.len(),
            forall|j: int| 0 <= j < i ==> a@[j] == b@[j],
        decreases a@.len() - i,
    {
        if a[i] != b[i] {
            return false;
        }
        i = i + 1;
    }
    assert(a@ =~= b@);
    true
}

/// The security that a name stands for. A name that is not known stands for
/// WPA2.
pub open spec fn security_of_name(name: Seq<u8>) -> WifiSecurity {
    if name == "wpa2".spec_bytes() {
        WifiSecurity::Wpa2
    } else if name == "wpa".spec_bytes() {
        WifiSecurity::Wpa
    } else if name == "wep".spec_bytes() {
        WifiSecurity::Wep
    } else if name == "open".spec_bytes() || name == "none".spec_bytes() {
        WifiSecurity::Open
    } else {
        WifiSecurity::Wpa2
    }
}

/// The name under which a security is reported.
pub open spec fn security_name(security: WifiSecurity) -> Seq<char> {
    match security {
        WifiSecurity::Open => "open"@,
        WifiSecurity::Wep => "wep"@,
        WifiSecurity::Wpa => "wpa"@,
        WifiSecurity::Wpa2 => "wpa2"@,
    }
}

/// The second byte of the authentication type; the first is zero.
pub open spec fn auth_code(security: WifiSecurity) -> u8 {
    match security {
        WifiSecurity::Open => 0x01,
        WifiSecurity::Wep => 0x08,
        WifiSecurity::Wpa => 0x10,
        WifiSecurity::Wpa2 => 0x20,
    }
}

/// The security that an authentication type stands for. A value that is not
/// known stands for WPA2.
pub open spec fn security_of_auth(auth: Seq<u8>) -> WifiSecurity {
    if auth.len() == 2 && auth[0] == 0 && auth[1] == 0x01 {
        WifiSecurity::Open
    } else if auth.len() == 2 && auth[0] == 0 && auth[1] == 0x08 {
        WifiSecurity::Wep
    } else if auth.len() == 2 && auth[0] == 0 && auth[1] == 0x10 {
        WifiSecurity::Wpa
    } else {
        WifiSecurity::Wpa2
    }
}

impl WifiSecurity {
    /// The security that `name` stands for: `wpa2`, `wpa`, `wep`, `open` or
    /// `none`; any other name stands for WPA2.
    pub fn from_name(name: &str) -> (r: WifiSecurity)
        ensures
            r == security_of_name(name.spec_bytes()),
    {
        let bytes = name.as_bytes();
        if same_bytes(bytes, "wpa2".as_bytes()) {
            WifiSecurity::Wpa2
        } else if same_bytes(bytes, "wpa".as_bytes()) {
            WifiSecurity::Wpa
        } else if same_bytes(bytes, "wep".as_bytes()) {
            WifiSecurity::Wep
        } else if same_bytes(bytes, "open".as_bytes()) || same_bytes(bytes, "none".as_bytes()) {
            WifiSecurity::Open
        } else {
            WifiSecurity::Wpa2
        }
    }

    /// The name of this security, which [`WifiSecurity::from_name`] reads
    /// back as this security.
    pub fn name(&self) -> (r: &'static str)
        ensures
            r@ == security_name(*self),
            security_of_name(r.spec_bytes()) == *self,
    {
        proof {
            lemma_names();
        }
        match self {
            WifiSecurity::Open => "open",
            WifiSecurity::Wep => "wep",
            WifiSecurity::Wpa => "wpa",
            WifiSecurity::Wpa2 => "wpa2",
        }
    }

    /// The second byte of the authentication type.
    pub fn code(&self) -> (r: u8)
        ensures
            r == auth_code(*self),
    {
        match self {
            WifiSecurity::Open => 0x01,
            WifiSecurity::Wep => 0x08,
            WifiSecurity::Wpa => 0x10,
            WifiSecurity::Wpa2 => 0x20,
        }
    }
}

/// The four names stand for four different securities.
pub proof fn lemma_names()
    ensures
        security_of_name("open".spec_bytes()) == WifiSecurity::Open,
        security_of_name("none".spec_bytes()) == WifiSecurity::Open,
        security_of_name("wep".spec_bytes()) == WifiSecurity::Wep,
        security_of_name("wpa".spec_bytes()) == WifiSecurity::Wpa,
        security_of_name("wpa2".spec_bytes()) == WifiSecurity::Wpa2,
{
    reveal_strlit("open");
    reveal_strlit("none");
    reveal_strlit("wep");
    reveal_strlit("wpa");
    reveal_strlit("wpa2");
    crate::bytes::lemma_ascii_bytes("open");
    crate::bytes::lemma_ascii_bytes("none");
    crate::bytes::lemma_ascii_bytes("wep");
    crate::bytes::lemma_ascii_bytes("wpa");
    crate::bytes::lemma_ascii_bytes("wpa2");
    assert("open".spec_bytes()[0] == 0x6F);
    assert("none".spec_bytes()[0] == 0x6E);
    assert("wep".spec_bytes()[1] == 0x65);
    assert("wpa".spec_bytes()[1] == 0x70);
    assert("wpa2".spec_bytes()[1] == 0x70);
}

/// One attribute: the type `10 low`, the length in two bytes, the value.
pub open spec fn attr(low: u8, value: Seq<u8>) -> Seq<u8> {
    seq![ATTR_HIGH, low, (value.len() / 256) as u8, (value.len() % 256) as u8] + value
}

/// What a credential says, attribute by attribute.
pub struct WifiParts {
    pub ssid: Seq<u8>,
    pub key: Seq<u8>,
    pub auth: Seq<u8>,
}

/// The attributes that a credential holds.
pub open spec fn credential(ssid: Seq<u8>, key: Seq<u8>, security: WifiSecurity) -> Seq<u8> {
    attr(ATTR_SSID, ssid) + attr(ATTR_KEY, key) + attr(ATTR_AUTH, seq![0u8, auth_code(security)])
        + attr(ATTR_KEY_INDEX, seq![1u8])
}

/// The payload of the record that stores a network's credential.
pub open spec fn wifi_payload(ssid: Seq<u8>, key: Seq<u8>, security: WifiSecurity) -> Seq<u8> {
    attr(ATTR_CREDENTIAL, credential(ssid, key, security))
}

/// `parts` after the attribute of type `high low` with `value` has been seen:
/// a later attribute replaces an earlier one of the same type, and a type
/// that is not looked for changes nothing.
pub open spec fn with_attr(parts: WifiParts, high: u8, low: u8, value: Seq<u8>) -> WifiParts {
    if high == ATTR_HIGH && low == ATTR_SSID {
        WifiParts { ssid: value, ..parts }
    } else if high == ATTR_HIGH && low == ATTR_KEY {
        WifiParts { key: value, ..parts }
    } else if high == ATTR_HIGH && low == ATTR_AUTH {
        WifiParts { auth: value, ..parts }
    } else {
        parts
    }
}

/// The length that the attribute at `pos` announces.
pub open spec fn attr_len(bytes: Seq<u8>, pos: int) -> int {
    bytes[pos + 2] * 256 + bytes[pos + 3]
}

/// What the attributes of `bytes` from `pos` on add to `parts`; nothing if
/// one of them runs past the end.
pub open spec fn scan_attrs(bytes: Seq<u8>, pos: int, parts: WifiParts) -> Option<WifiParts>
    decreases bytes.len() - pos,
{
    if pos < 0 || pos >= bytes.len() {
        Some(parts)
    } else if pos + 4 > bytes.len() || pos + 4 + attr_len(bytes, pos) > bytes.len() {
        None
    } else {
        scan_attrs(
            bytes,
            pos + 4 + attr_len(bytes, pos),
            with_attr(
                parts,
                bytes[pos],
                bytes[pos + 1],
                bytes.subrange(pos + 4, pos + 4 + attr_len(bytes, pos)),
            ),
        )
    }
}

/// A credential of which nothing has been seen yet.
pub open spec fn no_parts() -> WifiParts {
    WifiParts { ssid: Seq::empty(), key: Seq::empty(), auth: Seq::empty() }
}

/// The network name, the key and the security that a payload stores, if the
/// payload is a credential whose attributes are all complete.
pub open spec fn wifi_of_payload(payload: Seq<u8>) -> Option<(Seq<u8>, Seq<u8>, WifiSecurity)> {
    if payload.len() < 4 || payload[0] != ATTR_HIGH || payload[1] != ATTR_CREDENTIAL {
        None
    } else if 4 + attr_len(payload, 0) > payload.len() {
        None
    } else {
        match scan_attrs(payload.subrange(4, 4 + attr_len(payload, 0)), 0, no_parts()) {
            None => None,
            Some(parts) => Some((parts.ssid, parts.key, security_of_auth(parts.auth))),
        }
    }
}

/// Appends one attribute to `out`.
pub(crate) fn push_attr(out: &mut Vec<u8>, low: u8, value: &[u8])
    requires
        value@.len() < 65536,
    ensures
        final(out)@ == old(out)@ + attr(low, value@),
{
    let n: usize = value.len();
    out.push(ATTR_HIGH);
    out.push(low);
    out.push((n / 256) as u8);
    out.push((n % 256) as u8);
    append(out, value);
    assert(out@ =~= old(out)@ + attr(low, value@));
}

/// Builds the payload that stores a network's credential.
pub(crate) fn encode_wifi_payload(ssid: &[u8], key: &[u8], security: WifiSecurity) -> (payload:
    Vec<u8>)
    requires
        ssid@.len() + key@.len() <= 1000,
    ensures
        payload@ == wifi_payload(ssid@, key@, security),
        payload@.len() == ssid@.len() + key@.len() + 23,
{
    let mut inner: Vec<u8> = Vec::new();
    push_attr(&mut inner, ATTR_SSID, ssid);
    push_attr(&mut inner, ATTR_KEY, key);
    let auth = vec![0u8, security.code()];
    assert(auth@ =~= seq![0u8, auth_code(security)]);
    push_attr(&mut inner, ATTR_AUTH, auth.as_slice());
    let index = vec![1u8];
    assert(index@ =~= seq![1u8]);
    push_attr(&mut inner, ATTR_KEY_INDEX, index.as_slice());
    assert(inner@ =~= credential(ssid@, key@, security));
    let mut payload: Vec<u8> = Vec::new();
    push_attr(&mut payload, ATTR_CREDENTIAL, inner.as_slice());
    assert(payload@ =~= wifi_payload(ssid@, key@, security));
    payload
}

/// The security that an authentication type stands for.
pub fn security_from_auth(auth: &[u8]) -> (r: WifiSecurity)
    ensures
        r == security_of_auth(auth@),
{
    if auth.len() == 2 && auth[0] == 0 && auth[1] == 0x01 {
        WifiSecurity::Open
    } else if auth.len() == 2 && auth[0] == 0 && auth[1] == 0x08 {
        WifiSecurity::Wep
    } else if auth.len() == 2 && auth[0] == 0 && auth[1] == 0x10 {
        WifiSecurity::Wpa
    } else {
        WifiSecurity::Wpa2
    }
}

/// The mathematical content of a decoded credential.
pub open spec fn wifi_view(r: Option<(Vec<u8>, Vec<u8>, WifiSecurity)>) -> Option<
    (Seq<u8>, Seq<u8>, WifiSecurity),
> {
    match r {
        Some((ssid, key, security)) => Some((ssid@, key@, security)),
        None => None,
    }
}

/// Takes a credential apart into network name, key and security.
pub fn decode_wifi_payload(payload: &[u8]) -> (r: Option<(Vec<u8>, Vec<u8>, WifiSecurity)>)
    ensures
        wifi_view(r) == wifi_of_payload(payload@),
{
    if payload.len() < 4 || payload[0] != ATTR_HIGH || payload[1] != ATTR_CREDENTIAL {
        return None;
    }
    let total: usize = (payload[2] as usize) * 256 + (payload[3] as usize);
    if 4 + total > payload.len() {
        return None;
    }
    let inner = vstd::slice::slice_subrange(payload, 4, 4 + total);
    let mut ssid: Vec<u8> = Vec::new();
    let mut key: Vec<u8> = Vec::new();
    let mut auth: Vec<u8> = Vec::new();
    let mut pos: usize = 0;
    assert(ssid@ =~= no_parts().ssid && key@ =~= no_parts().key && auth@ =~= no_parts().auth);
    while pos < inner.len()
        invariant
            pos <= inner@.len(),
            inner@.len() <= 65535 + 255,
            payload@.len() >= 4,
            payload@[0] == ATTR_HIGH,
            payload@[1] == ATTR_CREDENTIAL,
            4 + attr_len(payload@, 0) <= payload@.len(),
            inner@ == payload@.subrange(4, 4 + attr_len(payload@, 0)),
            scan_attrs(inner@, 0, no_parts()) == scan_attrs(
                inner@,
                pos as int,
                WifiParts { ssid: ssid@, key: key@, auth: auth@ },
            ),
        decreases inner@.len() - pos,
    {
        if pos + 4 > inner.len() {
            return None;
        }
        let n: usize = (inner[pos + 2] as usize) * 256 + (inner[pos + 3] as usize);
        if pos + 4 + n > inner.len() {
            return None;
        }
        let value = copy_range(inner, pos + 4, pos + 4 + n);
        if inner[pos] == ATTR_HIGH && inner[pos + 1] == ATTR_SSID {
            ssid = value;
        } else if inner[pos] == ATTR_HIGH && inner[pos + 1] == ATTR_KEY {
            key = value;
        } else if inner[pos] == ATTR_HIGH && inner[pos + 1] == ATTR_AUTH {
            auth = value;
        }
        pos = pos + 4 + n;
    }
    let security = security_from_auth(auth.as_slice());
    Some((ssid, key, security))
}

/// Scanning passes over one complete attribute and takes note of it.
pub proof fn lemma_scan_attr(bytes: Seq<u8>, pos: int, parts: WifiParts, low: u8, value: Seq<u8>)
    requires
        0 <= pos,
        value.len() < 65536,
        pos + 4 + value.len() <= bytes.len(),
        bytes.subrange(pos, pos + 4 + value.len()) == attr(low, value),
    ensures
        scan_attrs(bytes, pos, parts) == scan_attrs(
            bytes,
            pos + 4 + value.len(),
            with_attr(parts, ATTR_HIGH, low, value),
        ),
{
    let a = attr(low, value);
    let part = bytes.subrange(pos, pos + 4 + value.len());
    assert(bytes[pos] == part[0]);
    assert(bytes[pos + 1] == part[1]);
    assert(bytes[pos + 2] == part[2]);
    assert(bytes[pos + 3] == part[3]);
    assert(attr_len(bytes, pos) == value.len());
    assert(bytes.subrange(pos + 4, pos + 4 + value.len()) =~= part.skip(4));
    assert(part.skip(4) =~= value);
}

/// A credential that was stored is restored as it was.
pub proof fn lemma_wifi_roundtrip(ssid: Seq<u8>, key: Seq<u8>, security: WifiSecurity)
    requires
        ssid.len() + key.len() + 23 <= 65535,
    ensures
        wifi_payload(ssid, key, security).len() == ssid.len() + key.len() + 23,
        wifi_of_payload(wifi_payload(ssid, key, security)) == Some((ssid, key, security)),
{
    let auth = seq![0u8, auth_code(security)];
    let index = seq![1u8];
    let inner = credential(ssid, key, security);
    let payload = wifi_payload(ssid, key, security);
    assert(attr_len(payload, 0) == inner.len());
    assert(payload.subrange(4, 4 + inner.len() as int) =~= inner);
    let seen0 = no_parts();
    let at1 = 4 + ssid.len();
    let at2 = at1 + 4 + key.len();
    let at3 = at2 + 4 + 2;
    let at4 = at3 + 4 + 1;
    assert(inner.len() == at4);
    assert(inner.subrange(0, at1 as int) =~= attr(ATTR_SSID, ssid));
    assert(inner.subrange(at1 as int, at2 as int) =~= attr(ATTR_KEY, key));
    assert(inner.subrange(at2 as int, at3 as int) =~= attr(ATTR_AUTH, auth));
    assert(inner.subrange(at3 as int, at4 as int) =~= attr(ATTR_KEY_INDEX, index));
    lemma_scan_attr(inner, 0, seen0, ATTR_SSID, ssid);
    let seen1 = with_attr(seen0, ATTR_HIGH, ATTR_SSID, ssid);
    lemma_scan_attr(inner, at1 as int, seen1, ATTR_KEY, key);
    let seen2 = with_attr(seen1, ATTR_HIGH, ATTR_KEY, key);
    lemma_scan_attr(inner, at2 as int, seen2, ATTR_AUTH, auth);
    let seen3 = with_attr(seen2, ATTR_HIGH, ATTR_AUTH, auth);
    lemma_scan_attr(inner, at3 as int, seen3, ATTR_KEY_INDEX, index);
    let seen4 = with_attr(seen3, ATTR_HIGH, ATTR_KEY_INDEX, index);
    assert(scan_attrs(inner, at4 as int, seen4) == Some(seen4));
    assert(security_of_auth(auth) == security);
}

} // verus!
