//! vCard records: a short vCard 3.0 text block, written line by line and read
//! back line by line.

use vstd::prelude::*;
use vstd::slice::slice_subrange;
use vstd::string::StringSliceAdditionalSpecFns;
use crate::bytes::{
    append, copy_range, find_byte, first_index, has_prefix_nocase, lacks, lemma_ascii_bytes,
    lemma_first_index, starts_with_nocase, upper,
};

verus! {

/// Carriage return.
pub const CR: u8 = 0x0D;

/// Line feed.
pub const LF: u8 = 0x0A;

/// The type of a vCard record.
pub open spec fn vcard_type() -> Seq<u8> {
    "text/vcard".spec_bytes()
}

/// The end of every line that is written.
pub open spec fn crlf() -> Seq<u8> {
    seq![CR, LF]
}

/// The line that opens a card.
pub open spec fn begin_tag() -> Seq<u8> {
    "BEGIN:VCARD".spec_bytes()
}

/// The line that names the version.
pub open spec fn version_tag() -> Seq<u8> {
    "VERSION:3.0".spec_bytes()
}

/// The line that closes a card.
pub open spec fn end_tag() -> Seq<u8> {
    "END:VCARD".spec_bytes()
}

/// The start of the line that holds the formatted name.
pub open spec fn fn_tag() -> Seq<u8> {
    "FN:".spec_bytes()
}

/// The start of the line that holds the structured name.
pub open spec fn n_tag() -> Seq<u8> {
    "N:".spec_bytes()
}

/// The start of the line that holds the phone number.
pub open spec fn tel_tag() -> Seq<u8> {
    "TEL:".spec_bytes()
}

/// The start of the line that holds the e-mail address.
pub open spec fn email_tag() -> Seq<u8> {
    "EMAIL:".spec_bytes()
}

/// The start of the line that holds the organization.
pub open spec fn org_tag() -> Seq<u8> {
    "ORG:".spec_bytes()
}

/// The line for one field; no line at all for an empty field.
pub open spec fn field_line(tag: Seq<u8>, value: Seq<u8>) -> Seq<u8> {
    if value.len() == 0 {
        Seq::empty()
    } else {
        tag + value + crlf()
    }
}

/// The text of the card with the given fields.
pub open spec fn vcard_text(name: Seq<u8>, phone: Seq<u8>, email: Seq<u8>, org: Seq<u8>) -> Seq<u8> {
    begin_tag() + crlf() + (version_tag() + crlf() + (field_line(fn_tag(), name) + (field_line(
        tel_tag(),
        phone,
    ) + (field_line(email_tag(), email) + (field_line(org_tag(), org) + (end_tag() + crlf()))))))
}

/// What the lines of a card have said so far.
pub struct CardParts {
    pub full_name: Seq<u8>,
    pub name: Seq<u8>,
    pub phone: Seq<u8>,
    pub email: Seq<u8>,
    pub org: Seq<u8>,
}

/// A card of which no line has been read.
pub open spec fn no_card() -> CardParts {
    CardParts {
        full_name: Seq::empty(),
        name: Seq::empty(),
        phone: Seq::empty(),
        email: Seq::empty(),
        org: Seq::empty(),
    }
}

/// `line` without the carriage return it may end with.
pub open spec fn strip_cr(line: Seq<u8>) -> Seq<u8> {
    if line.len() > 0 && line.last() == CR {
        line.drop_last()
    } else {
        line
    }
}

/// `parts` after `line` has been read. The start of the line decides, in
/// either case of its letters, which field the rest of it is; a later line
/// replaces an earlier one for the same field, and a line that begins with
/// none of the five tags changes nothing.
pub open spec fn with_line(parts: CardParts, line: Seq<u8>) -> CardParts {
    if starts_with_nocase(line, fn_tag()) {
        CardParts { full_name: line.skip(fn_tag().len() as int), ..parts }
    } else if starts_with_nocase(line, n_tag()) {
        CardParts { name: line.skip(n_tag().len() as int), ..parts }
    } else if starts_with_nocase(line, tel_tag()) {
        CardParts { phone: line.skip(tel_tag().len() as int), ..parts }
    } else if starts_with_nocase(line, email_tag()) {
        CardParts { email: line.skip(email_tag().len() as int), ..parts }
    } else if starts_with_nocase(line, org_tag()) {
        CardParts { org: line.skip(org_tag().len() as int), ..parts }
    } else {
        parts
    }
}

/// What the lines of `text` from `pos` on add to `parts`.
pub open spec fn scan_lines(text: Seq<u8>, pos: int, parts: CardParts) -> CardParts
    decreases text.len() - pos,
{
    let end = first_index(text, LF, pos);
    if pos < 0 || pos >= text.len() || end < pos {
        parts
    } else if end >= text.len() {
        with_line(parts, strip_cr(text.skip(pos)))
    } else {
        scan_lines(text, end + 1, with_line(parts, strip_cr(text.subrange(pos, end))))
    }
}

/// The name that a card gives: the formatted name, or the structured name
/// where there is no formatted one.
pub open spec fn card_name(parts: CardParts) -> Seq<u8> {
    if parts.full_name.len() > 0 {
        parts.full_name
    } else {
        parts.name
    }
}

/// Name, phone, e-mail and organization of the card in `text`.
pub open spec fn card_fields(text: Seq<u8>) -> (Seq<u8>, Seq<u8>, Seq<u8>, Seq<u8>) {
    let parts = scan_lines(text, 0, no_card());
    (card_name(parts), parts.phone, parts.email, parts.org)
}

/// Appends the line for one field.
fn push_field(out: &mut Vec<u8>, tag: &[u8], value: &[u8])
    ensures
        final(out)@ == old(out)@ + field_line(tag@, value@),
{
    if value.len() > 0 {
        append(out, tag);
        append(out, value);
        out.push(CR);
        out.push(LF);
        assert(out@ =~= old(out)@ + field_line(tag@, value@));
    } else {
        assert(out@ =~= old(out)@ + field_line(tag@, value@));
    }
}

/// Appends a line with the given text.
fn push_line(out: &mut Vec<u8>, text: &[u8])
    ensures
        final(out)@ == old(out)@ + (text@ + crlf()),
{
    append(out, text);
    out.push(CR);
    out.push(LF);
    assert(out@ =~= old(out)@ + (text@ + crlf()));
}

/// Joining three strings gives the same whichever two are joined first.
pub proof fn lemma_join(a: Seq<u8>, b: Seq<u8>, c: Seq<u8>)
    ensures
        (a + b) + c == a + (b + c),
{
    assert((a + b) + c =~= a + (b + c));
}

/// Writes the text of the card with the given fields.
pub fn build_vcard(name: &[u8], phone: &[u8], email: &[u8], org: &[u8]) -> (text: Vec<u8>)
    ensures
        text@ == vcard_text(name@, phone@, email@, org@),
{
    let mut text: Vec<u8> = Vec::new();
    push_line(&mut text, "BEGIN:VCARD".as_bytes());
    push_line(&mut text, "VERSION:3.0".as_bytes());
    push_field(&mut text, "FN:".as_bytes(), name);
    push_field(&mut text, "TEL:".as_bytes(), phone);
    push_field(&mut text, "EMAIL:".as_bytes(), email);
    push_field(&mut text, "ORG:".as_bytes(), org);
    push_line(&mut text, "END:VCARD".as_bytes());
    proof {
        let a = begin_tag() + crlf();
        let b = version_tag() + crlf();
        let c = field_line(fn_tag(), name@);
        let d = field_line(tel_tag(), phone@);
        let e = field_line(email_tag(), email@);
        let f = field_line(org_tag(), org@);
        let g = end_tag() + crlf();
        assert(Seq::<u8>::empty() + a =~= a);
        assert(text@ == (((((a + b) + c) + d) + e) + f) + g);
        lemma_join((((a + b) + c) + d) + e, f, g);
        lemma_join(((a + b) + c) + d, e, f + g);
        lemma_join((a + b) + c, d, e + (f + g));
        lemma_join(a + b, c, d + (e + (f + g)));
        lemma_join(a, b, c + (d + (e + (f + g))));
    }
    text
}

/// The fields of a card as they were read.
#[derive(Debug)]
pub struct CardFields {
    pub name: Vec<u8>,
    pub phone: Vec<u8>,
    pub email: Vec<u8>,
    pub organization: Vec<u8>,
}

/// Reads name, phone, e-mail and organization from the text of a card.
pub fn parse_vcard(text: &[u8]) -> (r: CardFields)
    ensures
        (r.name@, r.phone@, r.email@, r.organization@) == card_fields(text@),
{
    let mut full_name: Vec<u8> = Vec::new();
    let mut name: Vec<u8> = Vec::new();
    let mut phone: Vec<u8> = Vec::new();
    let mut email: Vec<u8> = Vec::new();
    let mut org: Vec<u8> = Vec::new();
    let mut pos: usize = 0;
    assert(CardParts {
        full_name: full_name@,
        name: name@,
        phone: phone@,
        email: email@,
        org: org@,
    } == no_card());
    while pos < text.len()
        invariant
            pos <= text@.len(),
            scan_lines(text@, 0, no_card()) == scan_lines(
                text@,
                pos as int,
                CardParts {
                    full_name: full_name@,
                    name: name@,
                    phone: phone@,
                    email: email@,
                    org: org@,
                },
            ),
        decreases text@.len() - pos,
    {
        let end = find_byte(text, LF, pos);
        proof {
            crate::bytes::lemma_first_index_bounds(text@, LF, pos as int);
        }
        let mut stop: usize = end;
        if stop > pos && text[stop - 1] == CR {
            stop = stop - 1;
        }
        let line = slice_subrange(text, pos, stop);
        assert(line@ =~= strip_cr(text@.subrange(pos as int, end as int)));
        assert(end == text@.len() ==> text@.subrange(pos as int, end as int) =~= text@.skip(
            pos as int,
        ));
        if has_prefix_nocase(line, "FN:".as_bytes()) {
            full_name = copy_range(line, "FN:".as_bytes().len(), line.len());
        } else if has_prefix_nocase(line, "N:".as_bytes()) {
            name = copy_range(line, "N:".as_bytes().len(), line.len());
        } else if has_prefix_nocase(line, "TEL:".as_bytes()) {
            phone = copy_range(line, "TEL:".as_bytes().len(), line.len());
        } else if has_prefix_nocase(line, "EMAIL:".as_bytes()) {
            email = copy_range(line, "EMAIL:".as_bytes().len(), line.len());
        } else if has_prefix_nocase(line, "ORG:".as_bytes()) {
            org = copy_range(line, "ORG:".as_bytes().len(), line.len());
        }
        if end == text.len() {
            pos = end;
        } else {
            pos = end + 1;
        }
    }
    if full_name.len() > 0 {
        CardFields { name: full_name, phone, email, organization: org }
    } else {
        CardFields { name, phone, email, organization: org }
    }
}

/// What is known of the tags: their lengths and first letters, and that
/// none of the three fixed lines begins with a tag or holds a line feed.
pub proof fn lemma_tags()
    ensures
        begin_tag().len() == 11,
        version_tag().len() == 11,
        end_tag().len() == 9,
        fn_tag().len() == 3,
        n_tag().len() == 2,
        tel_tag().len() == 4,
        email_tag().len() == 6,
        org_tag().len() == 4,
        fn_tag()[0] == 0x46,
        n_tag()[0] == 0x4E,
        tel_tag()[0] == 0x54,
        email_tag()[0] == 0x45,
        email_tag()[1] == 0x4D,
        org_tag()[0] == 0x4F,
        begin_tag()[0] == 0x42,
        version_tag()[0] == 0x56,
        end_tag()[0] == 0x45,
        end_tag()[1] == 0x4E,
        lacks(begin_tag(), LF),
        lacks(version_tag(), LF),
        lacks(end_tag(), LF),
        lacks(fn_tag(), LF),
        lacks(tel_tag(), LF),
        lacks(email_tag(), LF),
        lacks(org_tag(), LF),
{
    reveal_strlit("BEGIN:VCARD");
    reveal_strlit("VERSION:3.0");
    reveal_strlit("END:VCARD");
    reveal_strlit("FN:");
    reveal_strlit("N:");
    reveal_strlit("TEL:");
    reveal_strlit("EMAIL:");
    reveal_strlit("ORG:");
    lemma_ascii_bytes("BEGIN:VCARD");
    lemma_ascii_bytes("VERSION:3.0");
    lemma_ascii_bytes("END:VCARD");
    lemma_ascii_bytes("FN:");
    lemma_ascii_bytes("N:");
    lemma_ascii_bytes("TEL:");
    lemma_ascii_bytes("EMAIL:");
    lemma_ascii_bytes("ORG:");
}

/// Looking for a byte in the second of two joined strings finds what
/// looking in the second alone finds.
pub proof fn lemma_first_index_shift(x: Seq<u8>, rest: Seq<u8>, b: u8, q: int)
    requires
        0 <= q <= rest.len(),
    ensures
        first_index(x + rest, b, x.len() + q) == x.len() + first_index(rest, b, q),
    decreases rest.len() - q,
{
    if q < rest.len() {
        assert((x + rest)[x.len() + q] == rest[q]);
        if rest[q] != b {
            lemma_first_index_shift(x, rest, b, q + 1);
        }
    }
}

/// Scanning the second of two joined texts adds what scanning the second
/// alone adds.
pub proof fn lemma_scan_shift(x: Seq<u8>, rest: Seq<u8>, q: int, parts: CardParts)
    requires
        0 <= q <= rest.len(),
    ensures
        scan_lines(x + rest, x.len() + q, parts) == scan_lines(rest, q, parts),
    decreases rest.len() - q,
{
    if q < rest.len() {
        let end = first_index(rest, LF, q);
        lemma_first_index_shift(x, rest, LF, q);
        crate::bytes::lemma_first_index_bounds(rest, LF, q);
        if end >= rest.len() {
            assert((x + rest).skip(x.len() + q) =~= rest.skip(q));
        } else {
            assert((x + rest).subrange(x.len() + q, x.len() + end) =~= rest.subrange(q, end));
            lemma_scan_shift(
                x,
                rest,
                end + 1,
                with_line(parts, strip_cr(rest.subrange(q, end))),
            );
        }
    }
}

/// Scanning passes over the line that a text begins with and takes note of
/// it.
pub proof fn lemma_scan_front(content: Seq<u8>, rest: Seq<u8>, parts: CardParts)
    requires
        lacks(content, LF),
    ensures
        scan_lines(content + crlf() + rest, 0, parts) == scan_lines(
            rest,
            0,
            with_line(parts, content),
        ),
{
    let line = content + crlf();
    let text = line + rest;
    let k = content.len() as int + 1;
    assert forall|i: int| 0 <= i < k implies text[i] != LF by {
        assert(text[i] == line[i]);
    }
    assert(text[k] == line[k]);
    lemma_first_index(text, LF, 0, k);
    assert(text.subrange(0, k) =~= content.push(CR));
    assert(content.push(CR).drop_last() =~= content);
    lemma_scan_shift(line, rest, 0, with_line(parts, content));
}

/// Scanning passes over the line of a field, if the field has one, and
/// takes note of it.
pub proof fn lemma_scan_field(tag: Seq<u8>, value: Seq<u8>, rest: Seq<u8>, parts: CardParts)
    requires
        lacks(tag, LF),
        lacks(value, LF),
    ensures
        scan_lines(field_line(tag, value) + rest, 0, parts) == (if value.len() == 0 {
            scan_lines(rest, 0, parts)
        } else {
            scan_lines(rest, 0, with_line(parts, tag + value))
        }),
{
    if value.len() == 0 {
        assert(field_line(tag, value) + rest =~= rest);
    } else {
        lemma_scan_front(tag + value, rest, parts);
    }
}

/// A line that begins with one tag, in the case in which it is written,
/// begins with it in any case.
pub proof fn lemma_tagged(tag: Seq<u8>, value: Seq<u8>)
    ensures
        starts_with_nocase(tag + value, tag),
        (tag + value).skip(tag.len() as int) == value,
{
    assert((tag + value).skip(tag.len() as int) =~= value);
}

/// A line does not begin with a tag whose first letter differs from its own.
pub proof fn lemma_not_tagged(line: Seq<u8>, tag: Seq<u8>, at: int)
    requires
        0 <= at < tag.len(),
        at < line.len(),
        upper(line[at]) != upper(tag[at]),
    ensures
        !starts_with_nocase(line, tag),
{
}

/// None of the three fixed lines of a card is the line of a field.
pub proof fn lemma_fixed_lines(parts: CardParts)
    ensures
        with_line(parts, begin_tag()) == parts,
        with_line(parts, version_tag()) == parts,
        with_line(parts, end_tag()) == parts,
{
    lemma_tags();
    lemma_not_tagged(begin_tag(), fn_tag(), 0);
    lemma_not_tagged(begin_tag(), n_tag(), 0);
    lemma_not_tagged(begin_tag(), tel_tag(), 0);
    lemma_not_tagged(begin_tag(), email_tag(), 0);
    lemma_not_tagged(begin_tag(), org_tag(), 0);
    lemma_not_tagged(version_tag(), fn_tag(), 0);
    lemma_not_tagged(version_tag(), n_tag(), 0);
    lemma_not_tagged(version_tag(), tel_tag(), 0);
    lemma_not_tagged(version_tag(), email_tag(), 0);
    lemma_not_tagged(version_tag(), org_tag(), 0);
    lemma_not_tagged(end_tag(), fn_tag(), 0);
    lemma_not_tagged(end_tag(), n_tag(), 0);
    lemma_not_tagged(end_tag(), tel_tag(), 0);
    lemma_not_tagged(end_tag(), email_tag(), 1);
    lemma_not_tagged(end_tag(), org_tag(), 0);
}

/// The line of each field is taken for that field and no other.
pub proof fn lemma_field_lines(parts: CardParts, value: Seq<u8>)
    ensures
        with_line(parts, fn_tag() + value) == (CardParts { full_name: value, ..parts }),
        with_line(parts, tel_tag() + value) == (CardParts { phone: value, ..parts }),
        with_line(parts, email_tag() + value) == (CardParts { email: value, ..parts }),
        with_line(parts, org_tag() + value) == (CardParts { org: value, ..parts }),
{
    lemma_tags();
    lemma_tagged(fn_tag(), value);
    lemma_tagged(tel_tag(), value);
    lemma_tagged(email_tag(), value);
    lemma_tagged(org_tag(), value);
    lemma_not_tagged(tel_tag() + value, fn_tag(), 0);
    lemma_not_tagged(tel_tag() + value, n_tag(), 0);
    lemma_not_tagged(email_tag() + value, fn_tag(), 0);
    lemma_not_tagged(email_tag() + value, n_tag(), 0);
    lemma_not_tagged(email_tag() + value, tel_tag(), 0);
    lemma_not_tagged(org_tag() + value, fn_tag(), 0);
    lemma_not_tagged(org_tag() + value, n_tag(), 0);
    lemma_not_tagged(org_tag() + value, tel_tag(), 0);
    lemma_not_tagged(org_tag() + value, email_tag(), 0);
}

/// A card that was written is read back with the fields it was written
/// with, provided that no field holds a line feed.
pub proof fn lemma_vcard_roundtrip(name: Seq<u8>, phone: Seq<u8>, email: Seq<u8>, org: Seq<u8>)
    requires
        lacks(name, LF),
        lacks(phone, LF),
        lacks(email, LF),
        lacks(org, LF),
    ensures
        card_fields(vcard_text(name, phone, email, org)) == (name, phone, email, org),
{
    lemma_tags();
    let card0 = no_card();
    let t6 = end_tag() + crlf();
    let t5 = field_line(org_tag(), org) + t6;
    let t4 = field_line(email_tag(), email) + t5;
    let t3 = field_line(tel_tag(), phone) + t4;
    let t2 = field_line(fn_tag(), name) + t3;
    let t1 = version_tag() + crlf() + t2;
    let t0 = begin_tag() + crlf() + t1;
    assert(t0 == vcard_text(name, phone, email, org));
    lemma_fixed_lines(card0);
    lemma_scan_front(begin_tag(), t1, card0);
    lemma_scan_front(version_tag(), t2, card0);
    let card1 = CardParts { full_name: name, ..card0 };
    lemma_scan_field(fn_tag(), name, t3, card0);
    lemma_field_lines(card0, name);
    assert(name.len() == 0 ==> card1 == card0) by {
        if name.len() == 0 {
            assert(name =~= Seq::<u8>::empty());
        }
    }
    assert(scan_lines(t0, 0, card0) == scan_lines(t3, 0, card1));
    let card2 = CardParts { phone: phone, ..card1 };
    lemma_scan_field(tel_tag(), phone, t4, card1);
    lemma_field_lines(card1, phone);
    assert(phone.len() == 0 ==> card2 == card1) by {
        if phone.len() == 0 {
            assert(phone =~= Seq::<u8>::empty());
        }
    }
    assert(scan_lines(t0, 0, card0) == scan_lines(t4, 0, card2));
    let card3 = CardParts { email: email, ..card2 };
    lemma_scan_field(email_tag(), email, t5, card2);
    lemma_field_lines(card2, email);
    assert(email.len() == 0 ==> card3 == card2) by {
        if email.len() == 0 {
            assert(email =~= Seq::<u8>::empty());
        }
    }
    assert(scan_lines(t0, 0, card0) == scan_lines(t5, 0, card3));
    let card4 = CardParts { org: org, ..card3 };
    lemma_scan_field(org_tag(), org, t6, card3);
    lemma_field_lines(card3, org);
    assert(org.len() == 0 ==> card4 == card3) by {
        if org.len() == 0 {
            assert(org =~= Seq::<u8>::empty());
        }
    }
    assert(scan_lines(t0, 0, card0) == scan_lines(t6, 0, card4));
    lemma_fixed_lines(card4);
    lemma_scan_front(end_tag(), Seq::<u8>::empty(), card4);
    assert(end_tag() + crlf() + Seq::<u8>::empty() =~= t6);
    assert(scan_lines(Seq::<u8>::empty(), 0, card4) == card4);
    assert(card_name(card4) == name);
}

} // verus!
