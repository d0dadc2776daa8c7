//! Small operations on byte strings that the codecs share.

use vstd::prelude::*;
use vstd::slice::slice_subrange;
use vstd::string::StringSliceAdditionalSpecFns;
use vstd::utf8::{decode_utf8, encode_utf8, valid_utf8};

verus! {

/// Whether `s` begins with `p`.
pub open spec fn starts_with(s: Seq<u8>, p: Seq<u8>) -> bool {
    p.len() <= s.len() && s.take(p.len() as int) == p
}

/// The upper-case form of an ASCII letter, and any other byte unchanged.
pub open spec fn upper(b: u8) -> u8 {
    if 0x61 <= b <= 0x7A {
        (b - 0x20) as u8
    } else {
        b
    }
}

/// Whether `s` begins with `p` when ASCII letters are compared without
/// regard to case.
pub open spec fn starts_with_nocase(s: Seq<u8>, p: Seq<u8>) -> bool {
    p.len() <= s.len() && forall|i: int| 0 <= i < p.len() ==> upper(#[trigger] s[i]) == upper(p[i])
}

/// The position of the first `b` in `s` at or after `from`, or the length of
/// `s` if there is none.
pub open spec fn first_index(s: Seq<u8>, b: u8, from: int) -> int
    decreases s.len() - from,
{
    if from < 0 || from >= s.len() {
        s.len() as int
    } else if s[from] == b {
        from
    } else {
        first_index(s, b, from + 1)
    }
}

/// Whether `b` occurs nowhere in `s`.
pub open spec fn lacks(s: Seq<u8>, b: u8) -> bool {
    forall|i: int| 0 <= i < s.len() ==> s[i] != b
}

/// The result of the standard library's lossy conversion of a byte string
/// to text.
pub uninterp spec fn lossy_text(bytes: Seq<u8>) -> Seq<char>;

/// The text that a byte string stands for: its decoding where it is valid
/// UTF-8, and the lossy conversion otherwise.
pub open spec fn text_of(bytes: Seq<u8>) -> Seq<char> {
    if valid_utf8(bytes) {
        decode_utf8(bytes)
    } else {
        lossy_text(bytes)
    }
}

/// Calls `String::from_utf8_lossy`. The result is given a name, and the one
/// thing claimed of it is what the standard library documents: valid UTF-8 is
/// converted unchanged.
#[verifier::external_body]
pub(crate) fn text_from_bytes(bytes: &[u8]) -> (s: String)
    ensures
        s@ == lossy_text(bytes@),
        valid_utf8(bytes@) ==> s@ == decode_utf8(bytes@),
{
    String::from_utf8_lossy(bytes).into_owned()
}

/// Encoding a text and reading it back gives the same text.
pub proof fn lemma_text_roundtrip(chars: Seq<char>)
    ensures
        text_of(encode_utf8(chars)) == chars,
{
    vstd::utf8::encode_utf8_valid_utf8(chars);
    vstd::utf8::encode_utf8_decode_utf8(chars);
}

/// `first_index` finds `k` when no `b` stands between `from` and `k` and `k`
/// is either a `b` or the end.
pub proof fn lemma_first_index(s: Seq<u8>, b: u8, from: int, k: int)
    requires
        0 <= from <= k <= s.len(),
        forall|i: int| from <= i < k ==> s[i] != b,
        k == s.len() || s[k] == b,
    ensures
        first_index(s, b, from) == k,
    decreases k - from,
{
    if from < k {
        lemma_first_index(s, b, from + 1, k);
    }
}

/// `first_index` stays within the string and stops on a `b` or at the end.
pub proof fn lemma_first_index_bounds(s: Seq<u8>, b: u8, from: int)
    requires
        0 <= from <= s.len(),
    ensures
        from <= first_index(s, b, from) <= s.len(),
        forall|i: int| from <= i < first_index(s, b, from) ==> s[i] != b,
        first_index(s, b, from) < s.len() ==> s[first_index(s, b, from)] == b,
    decreases s.len() - from,
{
    if from < s.len() && s[from] != b {
        lemma_first_index_bounds(s, b, from + 1);
    }
}

/// Tells whether `s` begins with `p`.
pub fn has_prefix(s: &[u8], p: &[u8]) -> (r: bool)
    ensures
        r == starts_with(s@, p@),
{
    if p.len() > s.len() {
        return false;
    }
    let mut i: usize = 0;
    while i < p.len()
        invariant
            i <= p@.len() <= s@.len(),
            forall|j: int| 0 <= j < i ==> s@[j] == p@[j],
        decreases p@.len() - i,
    {
        if s[i] != p[i] {
            assert(s@.take(p@.len() as int)[i as int] != p@[i as int]);
            return false;
        }
        i = i + 1;
    }
    assert(s@.take(p@.len() as int) =~= p@);
    true
}

/// The upper-case form of an ASCII letter, and any other byte unchanged.
pub fn to_upper(b: u8) -> (r: u8)
    ensures
        r == upper(b),
{
    if 0x61 <= b && b <= 0x7A {
        b - 0x20
    } else {
        b
    }
}

/// Tells whether `s` begins with `p`, comparing ASCII letters without regard
/// to case.
pub fn has_prefix_nocase(s: &[u8], p: &[u8]) -> (r: bool)
    ensures
        r == starts_with_nocase(s@, p@),
{
    if p.len() > s.len() {
        return false;
    }
    let mut i: usize = 0;
    while i < p.len()
        invariant
            i <= p@.len() <= s@.len(),
            forall|j: int| 0 <= j < i ==> upper(#[trigger] s@[j]) == upper(p@[j]),
        decreases p@.len() - i,
    {
        if to_upper(s[i]) != to_upper(p[i]) {
            return false;
        }
        i = i + 1;
    }
    true
}

/// Finds the first `b` in `s` at or after `from`; the length of `s` if there
/// is none.
pub fn find_byte(s: &[u8], b: u8, from: usize) -> (k: usize)
    ensures
        k == first_index(s@, b, from as int),
        k <= s@.len(),
        from <= s@.len() ==> from <= k,
{
    if from >= s.len() {
        return s.len();
    }
    let mut i: usize = from;
    while i < s.len()
        invariant
            from <= i <= s@.len(),
            first_index(s@, b, from as int) == first_index(s@, b, i as int),
        decreases s@.len() - i,
    {
        if s[i] == b {
            return i;
        }
        i = i + 1;
    }
    i
}

/// Tells whether `b` occurs in `s`.
pub fn contains_byte(s: &[u8], b: u8) -> (r: bool)
    ensures
        r == !lacks(s@, b),
{
    let k = find_byte(s, b, 0);
    proof {
        lemma_first_index_bounds(s@, b, 0);
    }
    k < s.len()
}

/// Appends the bytes of `s` to `v`.
pub fn append(v: &mut Vec<u8>, s: &[u8])
    ensures
        final(v)@ == old(v)@ + s@,
{
    let mut i: usize = 0;
    while i < s.len()
        invariant
            i <= s@.len(),
            v@ == old(v)@ + s@.take(i as int),
        decreases s@.len() - i,
    {
        v.push(s[i]);
        i = i + 1;
        assert(v@ =~= old(v)@ + s@.take(i as int));
    }
    assert(s@.take(s@.len() as int) =~= s@);
}

/// Copies the bytes of `s` from position `from` up to, not including, `to`.
pub(crate) fn copy_range(s: &[u8], from: usize, to: usize) -> (r: Vec<u8>)
    requires
        from <= to <= s@.len(),
    ensures
        r@ == s@.subrange(from as int, to as int),
{
    let mut r: Vec<u8> = Vec::new();
    append(&mut r, slice_subrange(s, from, to));
    assert(r@ =~= s@.subrange(from as int, to as int));
    r
}

/// The bytes of a text that consists of ASCII characters are its characters,
/// one byte each.
pub proof fn lemma_ascii_bytes(s: &str)
    requires
        vstd::string::is_ascii(s),
    ensures
        s.spec_bytes().len() == s@.len(),
        forall|i: int| 0 <= i < s@.len() ==> #[trigger] s.spec_bytes()[i] == s@[i] as u8,
{
    vstd::string::is_ascii_spec_bytes(s);
}

} // verus!
