//! Numbers written as ASCII digits.

use vstd::prelude::*;

verus! {

/// The value of a hexadecimal digit, in either case.
pub open spec fn hex_value(b: u8) -> Option<int> {
    if 0x30 <= b <= 0x39 {
        Some(b - 0x30)
    } else if 0x41 <= b <= 0x46 {
        Some(b - 0x41 + 10)
    } else if 0x61 <= b <= 0x66 {
        Some(b - 0x61 + 10)
    } else {
        None
    }
}

/// The value of a digit in the given radix.
pub open spec fn digit_value(b: u8, radix: int) -> Option<int> {
    match hex_value(b) {
        Some(d) => if d < radix {
            Some(d)
        } else {
            None
        },
        None => None,
    }
}

/// The number that a string of digits denotes, if every byte is a digit of
/// the radix. The empty string denotes zero.
pub open spec fn digits_value(s: Seq<u8>, radix: int) -> Option<int>
    decreases s.len(),
{
    if s.len() == 0 {
        Some(0)
    } else {
        match (digits_value(s.drop_last(), radix), digit_value(s.last(), radix)) {
            (Some(v), Some(d)) => Some(v * radix + d),
            _ => None,
        }
    }
}

/// The digits of a number: what follows an optional leading `+`.
pub open spec fn unsigned_part(s: Seq<u8>) -> Seq<u8> {
    if s.len() > 0 && s[0] == 0x2B {
        s.skip(1)
    } else {
        s
    }
}

/// The number that `s` denotes in the given radix: an optional `+`, then at
/// least one digit, and a value of at most `max`.
pub open spec fn number_of(s: Seq<u8>, radix: int, max: int) -> Option<int> {
    if unsigned_part(s).len() == 0 {
        None
    } else {
        match digits_value(unsigned_part(s), radix) {
            Some(v) => if v <= max {
                Some(v)
            } else {
                None
            },
            None => None,
        }
    }
}

/// Whether every byte of `s` is a hexadecimal digit.
pub open spec fn all_hex(s: Seq<u8>) -> bool {
    forall|i: int| 0 <= i < s.len() ==> hex_value(#[trigger] s[i]) is Some
}

/// The value of a hexadecimal digit.
pub fn hex_digit(b: u8) -> (r: Option<u8>)
    ensures
        match r {
            Some(d) => hex_value(b) == Some(d as int),
            None => hex_value(b) is None,
        },
{
    if 0x30 <= b && b <= 0x39 {
        Some(b - 0x30)
    } else if 0x41 <= b && b <= 0x46 {
        Some(b - 0x41 + 10)
    } else if 0x61 <= b && b <= 0x66 {
        Some(b - 0x61 + 10)
    } else {
        None
    }
}

/// The digits of a valid number are each valid, and a longer string denotes
/// no less than what it begins with.
pub proof fn lemma_digits_prefix(s: Seq<u8>, radix: int, n: int)
    requires
        1 <= radix,
        0 <= n <= s.len(),
    ensures
        digits_value(s.take(n), radix) is None ==> digits_value(s, radix) is None,
        digits_value(s, radix) matches Some(v) ==> 0 <= digits_value(s.take(n), radix)->Some_0 <= v,
    decreases s.len() - n,
{
    if n == s.len() {
        assert(s.take(n) =~= s);
        lemma_digits_nonnegative(s, radix);
    } else {
        lemma_digits_prefix(s, radix, n + 1);
        let longer = s.take(n + 1);
        assert(longer.drop_last() =~= s.take(n));
        lemma_digits_nonnegative(s.take(n), radix);
        if digits_value(longer, radix) matches Some(w) {
            let v = digits_value(s.take(n), radix)->Some_0;
            assert(v * radix >= v) by (nonlinear_arith)
                requires
                    v >= 0,
                    radix >= 1,
            ;
        }
    }
}

/// A string of digits denotes a number that is not negative.
pub proof fn lemma_digits_nonnegative(s: Seq<u8>, radix: int)
    requires
        1 <= radix,
    ensures
        digits_value(s, radix) matches Some(v) ==> v >= 0,
    decreases s.len(),
{
    if s.len() > 0 {
        lemma_digits_nonnegative(s.drop_last(), radix);
        if digits_value(s, radix) matches Some(v) {
            let w = digits_value(s.drop_last(), radix)->Some_0;
            assert(w * radix >= 0) by (nonlinear_arith)
                requires
                    w >= 0,
                    radix >= 1,
            ;
        }
    }
}

/// Reads a number in radix 10 or 16 that is at most `max`.
pub(crate) fn parse_number(s: &[u8], radix: u64, max: u64) -> (r: Option<u64>)
    requires
        radix == 10 || radix == 16,
        max <= 0xFFFF_FFFF,
    ensures
        match r {
            Some(v) => number_of(s@, radix as int, max as int) == Some(v as int),
            None => number_of(s@, radix as int, max as int) is None,
        },
{
    let start: usize = if s.len() > 0 && s[0] == 0x2B {
        1
    } else {
        0
    };
    let digits = vstd::slice::slice_subrange(s, start, s.len());
    assert(digits@ =~= unsigned_part(s@));
    if digits.len() == 0 {
        return None;
    }
    let mut value: u64 = 0;
    let mut i: usize = 0;
    assert(digits@.take(0) =~= Seq::<u8>::empty());
    while i < digits.len()
        invariant
            radix == 10 || radix == 16,
            max <= 0xFFFF_FFFF,
            i <= digits@.len(),
            digits@.len() > 0,
            digits@ == unsigned_part(s@),
            value <= max,
            digits_value(digits@.take(i as int), radix as int) == Some(value as int),
        decreases digits@.len() - i,
    {
        let ghost longer = digits@.take(i + 1);
        proof {
            assert(longer.drop_last() =~= digits@.take(i as int));
            assert(longer.last() == digits@[i as int]);
            lemma_digits_prefix(digits@, radix as int, i + 1);
        }
        let d: u64 = match hex_digit(digits[i]) {
            Some(d) => d as u64,
            None => {
                return None;
            },
        };
        if d >= radix {
            return None;
        }
        assert(value * radix + d <= 0xFFFF_FFFF * 16 + 16) by (nonlinear_arith)
            requires
                value <= 0xFFFF_FFFF,
                radix <= 16,
                d < 16,
        ;
        let next: u64 = value * radix + d;
        if next > max {
            return None;
        }
        value = next;
        i = i + 1;
    }
    assert(digits@.take(digits@.len() as int) =~= digits@);
    Some(value)
}

/// Tells whether every byte of `s` is a hexadecimal digit.
pub fn is_all_hex(s: &[u8]) -> (r: bool)
    ensures
        r == all_hex(s@),
{
    let mut i: usize = 0;
    while i < s.len()
        invariant
            i <= s@.len(),
            forall|j: int| 0 <= j < i ==> hex_value(#[trigger] s@[j]) is Some,
        decreases s@.len() - i,
    {
        if hex_digit(s[i]).is_none() {
            return false;
        }
        i = i + 1;
    }
    true
}

} // verus!
