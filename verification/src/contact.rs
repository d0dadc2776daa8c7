//! E-mail, SMS and phone records: URIs of the `mailto:`, `sms:` and `tel:`
//! schemes, put together from their parts and taken apart again.

use vstd::prelude::*;
use vstd::slice::slice_subrange;
use vstd::string::StringSliceAdditionalSpecFns;
use crate::bytes::{
    append, copy_range, find_byte, first_index, has_prefix, lacks, lemma_first_index, starts_with,
};

verus! {

/// The question mark, which begins the query of a URI.
pub const QUESTION: u8 = 0x3F;

/// The ampersand, which separates the parts of a query.
pub const AMPERSAND: u8 = 0x26;

/// The scheme of an e-mail URI.
pub open spec fn mailto_scheme() -> Seq<u8> {
    "mailto:".spec_bytes()
}

/// The scheme of an SMS URI.
pub open spec fn sms_scheme() -> Seq<u8> {
    "sms:".spec_bytes()
}

/// The scheme of a phone URI.
pub open spec fn tel_scheme() -> Seq<u8> {
    "tel:".spec_bytes()
}

/// The start of the query part that holds a subject.
pub open spec fn subject_key() -> Seq<u8> {
    "subject=".spec_bytes()
}

/// The start of the query part that holds a body.
pub open spec fn body_key() -> Seq<u8> {
    "body=".spec_bytes()
}

/// What follows the address in an e-mail URI: nothing when there is neither
/// subject nor body, and otherwise a query with both.
pub open spec fn email_tail(subject: Seq<u8>, body: Seq<u8>) -> Seq<u8> {
    if subject.len() == 0 && body.len() == 0 {
        Seq::empty()
    } else {
        seq![QUESTION] + (subject_key() + (subject + (seq![AMPERSAND] + (body_key() + body))))
    }
}

/// What follows the scheme in an e-mail URI.
pub open spec fn email_rest(address: Seq<u8>, subject: Seq<u8>, body: Seq<u8>) -> Seq<u8> {
    address + email_tail(subject, body)
}

/// The URI of an e-mail.
pub open spec fn email_uri(address: Seq<u8>, subject: Seq<u8>, body: Seq<u8>) -> Seq<u8> {
    mailto_scheme() + email_rest(address, subject, body)
}

/// Subject and body as a query states them: the subject reaches to the first
/// ampersand, and the body is all that follows `&body=`.
pub open spec fn query_parts(query: Seq<u8>) -> (Seq<u8>, Seq<u8>) {
    if starts_with(query, subject_key()) {
        let v = query.skip(subject_key().len() as int);
        let a = first_index(v, AMPERSAND, 0);
        if a < v.len() && starts_with(v.skip(a + 1), body_key()) {
            (v.take(a), v.skip(a + 1 + body_key().len()))
        } else {
            (v.take(a), Seq::empty())
        }
    } else if starts_with(query, body_key()) {
        (Seq::empty(), query.skip(body_key().len() as int))
    } else {
        (Seq::empty(), Seq::empty())
    }
}

/// Address, subject and body of an e-mail URI, given what follows its
/// scheme. The address reaches to the first question mark.
pub open spec fn email_of(rest: Seq<u8>) -> (Seq<u8>, Seq<u8>, Seq<u8>) {
    let q = first_index(rest, QUESTION, 0);
    if q >= rest.len() {
        (rest, Seq::empty(), Seq::empty())
    } else {
        (rest.take(q), query_parts(rest.skip(q + 1)).0, query_parts(rest.skip(q + 1)).1)
    }
}

/// What follows the number in an SMS URI: nothing when there is no message.
pub open spec fn sms_tail(message: Seq<u8>) -> Seq<u8> {
    if message.len() == 0 {
        Seq::empty()
    } else {
        seq![QUESTION] + (body_key() + message)
    }
}

/// What follows the scheme in an SMS URI.
pub open spec fn sms_rest(phone: Seq<u8>, message: Seq<u8>) -> Seq<u8> {
    phone + sms_tail(message)
}

/// The URI of an SMS.
pub open spec fn sms_uri(phone: Seq<u8>, message: Seq<u8>) -> Seq<u8> {
    sms_scheme() + sms_rest(phone, message)
}

/// Number and message of an SMS URI, given what follows its scheme. The
/// number reaches to the first question mark.
pub open spec fn sms_of(rest: Seq<u8>) -> (Seq<u8>, Seq<u8>) {
    let q = first_index(rest, QUESTION, 0);
    if q >= rest.len() {
        (rest, Seq::empty())
    } else if starts_with(rest.skip(q + 1), body_key()) {
        (rest.take(q), rest.skip(q + 1 + body_key().len()))
    } else {
        (rest.take(q), Seq::empty())
    }
}

/// The URI of a phone number.
pub open spec fn tel_uri(number: Seq<u8>) -> Seq<u8> {
    tel_scheme() + number
}

/// Writes the URI of an e-mail.
pub fn build_email_uri(address: &[u8], subject: &[u8], body: &[u8]) -> (uri: Vec<u8>)
    ensures
        uri@ == email_uri(address@, subject@, body@),
{
    let mut uri: Vec<u8> = Vec::new();
    append(&mut uri, "mailto:".as_bytes());
    append(&mut uri, address);
    if subject.len() > 0 || body.len() > 0 {
        uri.push(QUESTION);
        append(&mut uri, "subject=".as_bytes());
        append(&mut uri, subject);
        uri.push(AMPERSAND);
        append(&mut uri, "body=".as_bytes());
        append(&mut uri, body);
    }
    assert(uri@ =~= email_uri(address@, subject@, body@));
    uri
}

/// Writes the URI of an SMS.
pub fn build_sms_uri(phone: &[u8], message: &[u8]) -> (uri: Vec<u8>)
    ensures
        uri@ == sms_uri(phone@, message@),
{
    let mut uri: Vec<u8> = Vec::new();
    append(&mut uri, "sms:".as_bytes());
    append(&mut uri, phone);
    if message.len() > 0 {
        uri.push(QUESTION);
        append(&mut uri, "body=".as_bytes());
        append(&mut uri, message);
    }
    assert(uri@ =~= sms_uri(phone@, message@));
    uri
}

/// Writes the URI of a phone number.
pub fn build_tel_uri(number: &[u8]) -> (uri: Vec<u8>)
    ensures
        uri@ == tel_uri(number@),
{
    let mut uri: Vec<u8> = Vec::new();
    append(&mut uri, "tel:".as_bytes());
    append(&mut uri, number);
    uri
}

/// Reads subject and body from a query.
pub fn parse_query(query: &[u8]) -> (r: (Vec<u8>, Vec<u8>))
    ensures
        (r.0@, r.1@) == query_parts(query@),
{
    let subject_key = "subject=".as_bytes();
    let body_key = "body=".as_bytes();
    if has_prefix(query, subject_key) {
        let v = slice_subrange(query, subject_key.len(), query.len());
        assert(v@ =~= query@.skip(subject_key@.len() as int));
        let a = find_byte(v, AMPERSAND, 0);
        let subject = copy_range(v, 0, a);
        assert(subject@ =~= v@.take(a as int));
        if a < v.len() {
            let after = slice_subrange(v, a + 1, v.len());
            assert(after@ =~= v@.skip(a + 1));
            if has_prefix(after, body_key) {
                let body = copy_range(after, body_key.len(), after.len());
                assert(body@ =~= v@.skip(a + 1 + body_key@.len()));
                return (subject, body);
            }
        }
        (subject, Vec::new())
    } else if has_prefix(query, body_key) {
        let body = copy_range(query, body_key.len(), query.len());
        assert(body@ =~= query@.skip(body_key@.len() as int));
        (Vec::new(), body)
    } else {
        (Vec::new(), Vec::new())
    }
}

/// Reads address, subject and body from what follows the scheme of an
/// e-mail URI.
pub fn parse_email(rest: &[u8]) -> (r: (Vec<u8>, Vec<u8>, Vec<u8>))
    ensures
        (r.0@, r.1@, r.2@) == email_of(rest@),
{
    let q = find_byte(rest, QUESTION, 0);
    if q >= rest.len() {
        let address = copy_range(rest, 0, rest.len());
        assert(address@ =~= rest@);
        (address, Vec::new(), Vec::new())
    } else {
        let address = copy_range(rest, 0, q);
        assert(address@ =~= rest@.take(q as int));
        let query = slice_subrange(rest, q + 1, rest.len());
        assert(query@ =~= rest@.skip(q + 1));
        let (subject, body) = parse_query(query);
        (address, subject, body)
    }
}

/// Reads number and message from what follows the scheme of an SMS URI.
pub fn parse_sms(rest: &[u8]) -> (r: (Vec<u8>, Vec<u8>))
    ensures
        (r.0@, r.1@) == sms_of(rest@),
{
    let body_key = "body=".as_bytes();
    let q = find_byte(rest, QUESTION, 0);
    if q >= rest.len() {
        let phone = copy_range(rest, 0, rest.len());
        assert(phone@ =~= rest@);
        (phone, Vec::new())
    } else {
        let phone = copy_range(rest, 0, q);
        assert(phone@ =~= rest@.take(q as int));
        let query = slice_subrange(rest, q + 1, rest.len());
        assert(query@ =~= rest@.skip(q + 1));
        if has_prefix(query, body_key) {
            let message = copy_range(query, body_key.len(), query.len());
            assert(message@ =~= rest@.skip(q + 1 + body_key@.len()));
            (phone, message)
        } else {
            (phone, Vec::new())
        }
    }
}

/// What is known of the schemes and keys: their lengths and first letters.
pub proof fn lemma_schemes()
    ensures
        mailto_scheme().len() == 7,
        sms_scheme().len() == 4,
        tel_scheme().len() == 4,
        subject_key().len() == 8,
        body_key().len() == 5,
        mailto_scheme()[0] == 0x6D,
        sms_scheme()[0] == 0x73,
        tel_scheme()[0] == 0x74,
        subject_key()[0] == 0x73,
        body_key()[0] == 0x62,
{
    reveal_strlit("mailto:");
    reveal_strlit("sms:");
    reveal_strlit("tel:");
    reveal_strlit("subject=");
    reveal_strlit("body=");
    crate::bytes::lemma_ascii_bytes("mailto:");
    crate::bytes::lemma_ascii_bytes("sms:");
    crate::bytes::lemma_ascii_bytes("tel:");
    crate::bytes::lemma_ascii_bytes("subject=");
    crate::bytes::lemma_ascii_bytes("body=");
}

/// A string that is joined from two begins with the first, and the second is
/// what follows.
pub proof fn lemma_prefixed(p: Seq<u8>, rest: Seq<u8>)
    ensures
        starts_with(p + rest, p),
        (p + rest).skip(p.len() as int) == rest,
        (p + rest).take(p.len() as int) == p,
{
    assert((p + rest).take(p.len() as int) =~= p);
    assert((p + rest).skip(p.len() as int) =~= rest);
}

/// In a string joined from `a`, the byte `b` and more, the first `b` stands
/// right after `a`, provided that `a` holds none.
pub proof fn lemma_split_at(a: Seq<u8>, b: u8, more: Seq<u8>)
    requires
        lacks(a, b),
    ensures
        first_index(a + (seq![b] + more), b, 0) == a.len(),
        (a + (seq![b] + more)).take(a.len() as int) == a,
        (a + (seq![b] + more)).skip(a.len() as int + 1) == more,
{
    let s = a + (seq![b] + more);
    assert forall|i: int| 0 <= i < a.len() implies s[i] != b by {
        assert(s[i] == a[i]);
    }
    assert(s[a.len() as int] == b);
    lemma_first_index(s, b, 0, a.len() as int);
    assert(s.take(a.len() as int) =~= a);
    assert(s.skip(a.len() as int + 1) =~= more);
}

/// A string that holds no `b` has its first `b` at its end.
pub proof fn lemma_no_split(a: Seq<u8>, b: u8)
    requires
        lacks(a, b),
    ensures
        first_index(a, b, 0) == a.len(),
{
    lemma_first_index(a, b, 0, a.len() as int);
}

/// The parts of an e-mail URI are read back as they were written, provided
/// that the address holds no question mark and the subject no ampersand.
pub proof fn lemma_email_roundtrip(address: Seq<u8>, subject: Seq<u8>, body: Seq<u8>)
    requires
        lacks(address, QUESTION),
        lacks(subject, AMPERSAND),
    ensures
        email_of(email_rest(address, subject, body)) == (address, subject, body),
{
    lemma_schemes();
    let rest = email_rest(address, subject, body);
    if subject.len() == 0 && body.len() == 0 {
        assert(rest =~= address);
        lemma_no_split(address, QUESTION);
        assert(subject =~= Seq::<u8>::empty());
        assert(body =~= Seq::<u8>::empty());
    } else {
        let after_subject = seq![AMPERSAND] + (body_key() + body);
        let v = subject + after_subject;
        let query = subject_key() + v;
        lemma_split_at(address, QUESTION, query);
        lemma_prefixed(subject_key(), v);
        lemma_split_at(subject, AMPERSAND, body_key() + body);
        lemma_prefixed(body_key(), body);
        assert(v.skip(subject.len() as int + 1 + body_key().len()) =~= (body_key() + body).skip(
            body_key().len() as int,
        ));
    }
}

/// The parts of an SMS URI are read back as they were written, provided that
/// the number holds no question mark.
pub proof fn lemma_sms_roundtrip(phone: Seq<u8>, message: Seq<u8>)
    requires
        lacks(phone, QUESTION),
    ensures
        sms_of(sms_rest(phone, message)) == (phone, message),
{
    lemma_schemes();
    let rest = sms_rest(phone, message);
    if message.len() == 0 {
        assert(rest =~= phone);
        lemma_no_split(phone, QUESTION);
        assert(message =~= Seq::<u8>::empty());
    } else {
        let query = body_key() + message;
        lemma_split_at(phone, QUESTION, query);
        lemma_prefixed(body_key(), message);
        assert(rest.skip(phone.len() as int + 1 + body_key().len()) =~= query.skip(
            body_key().len() as int,
        ));
    }
}

} // verus!
