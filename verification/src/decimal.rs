//! Decimal numbers as they stand in a `Content-Length` header.

use vstd::prelude::*;

verus! {

/// `0`
pub const ZERO: u8 = 0x30;

/// `9`
pub const NINE: u8 = 0x39;

/// `+`
pub const PLUS: u8 = 0x2b;

/// Whether `b` is an ASCII digit.
pub open spec fn is_digit(b: u8) -> bool {
    ZERO <= b <= NINE
}

/// Whether `s` is one or more ASCII digits.
pub open spec fn is_digits(s: Seq<u8>) -> bool {
    s.len() > 0 && forall|i: int| 0 <= i < s.len() ==> is_digit(#[trigger] s[i])
}

/// The number that a string of digits spells, most significant digit first.
pub open spec fn decimal_value(s: Seq<u8>) -> nat
    decreases s.len(),
{
    if s.len() == 0 {
        0
    } else {
        decimal_value(s.drop_last()) * 10 + (s.last() - ZERO) as nat
    }
}

/// The number that `s` spells: an optional `+`, then one or more digits and
/// nothing else. `None` for every other text.
pub open spec fn spec_parse_decimal(s: Seq<u8>) -> Option<nat> {
    let digits = if s.len() > 0 && s[0] == PLUS {
        s.skip(1)
    } else {
        s
    };
    if is_digits(digits) {
        Some(decimal_value(digits))
    } else {
        None
    }
}

/// The digits of `n`, most significant first, without leading zeros.
pub open spec fn decimal_digits(n: nat) -> Seq<u8>
    decreases n,
{
    if n < 10 {
        seq![(ZERO + n) as u8]
    } else {
        decimal_digits(n / 10).push((ZERO + n % 10) as u8)
    }
}

/// A string of digits spells at least what any of its prefixes spells.
pub proof fn lemma_decimal_value_grows(s: Seq<u8>, k: int)
    requires
        0 <= k <= s.len(),
        forall|i: int| 0 <= i < s.len() ==> is_digit(#[trigger] s[i]),
    ensures
        decimal_value(s.take(k)) <= decimal_value(s),
    decreases s.len() - k,
{
    if k == s.len() {
        assert(s.take(k) =~= s);
    } else {
        let t = s.take(k + 1);
        lemma_decimal_value_grows(s, k + 1);
        assert(t.drop_last() =~= s.take(k));
        assert(is_digit(t.last())) by {
            assert(t.last() == s[k]);
        }
        assert(decimal_value(t) == decimal_value(s.take(k)) * 10 + (t.last() - ZERO) as nat);
    }
}

/// The digits of a number are digits, and spell that number.
pub proof fn lemma_digits_spell(n: nat)
    ensures
        is_digits(decimal_digits(n)),
        decimal_value(decimal_digits(n)) == n,
    decreases n,
{
    if n < 10 {
        let s = decimal_digits(n);
        assert(s.drop_last() =~= Seq::<u8>::empty());
        assert(decimal_value(s.drop_last()) == 0);
    } else {
        lemma_digits_spell(n / 10);
        let head = decimal_digits(n / 10);
        let s = decimal_digits(n);
        assert(s.drop_last() =~= head);
        assert forall|i: int| 0 <= i < s.len() implies is_digit(#[trigger] s[i]) by {
            if i < head.len() {
                assert(s[i] == head[i]);
            }
        }
    }
}

/// Rendering then parsing gives the number back.
pub proof fn lemma_decimal_roundtrip(n: nat)
    ensures
        spec_parse_decimal(decimal_digits(n)) == Some(n),
{
    lemma_digits_spell(n);
    let s = decimal_digits(n);
    assert(is_digit(s[0]));
}

/// Parses an optional `+` and one or more ASCII digits into a number.
/// `None` when `bytes` is any other text, or spells a number too large for
/// `usize`.
pub fn parse_decimal(bytes: &[u8]) -> (r: Option<usize>)
    ensures
        match spec_parse_decimal(bytes@) {
            Some(n) => if n <= usize::MAX {
                r == Some(n as usize)
            } else {
                r is None
            },
            None => r is None,
        },
{
    let start: usize = if bytes.len() > 0 && bytes[0] == PLUS {
        1
    } else {
        0
    };
    let ghost digits = bytes@.skip(start as int);
    assert(bytes@.skip(0) =~= bytes@);
    if start == bytes.len() {
        return None;
    }
    let mut value: usize = 0;
    let mut i: usize = start;
    while i < bytes.len()
        invariant
            start <= i <= bytes.len(),
            start < bytes.len(),
            start == if bytes@.len() > 0 && bytes@[0] == PLUS {
                1int
            } else {
                0int
            },
            digits == bytes@.skip(start as int),
            bytes@.skip(0) == bytes@,
            forall|j: int| 0 <= j < i - start ==> is_digit(#[trigger] digits[j]),
            value == decimal_value(digits.take(i - start)),
        decreases bytes.len() - i,
    {
        let b = bytes[i];
        if b < ZERO || b > NINE {
            assert(!is_digit(digits[i - start]));
            return None;
        }
        let d: usize = (b - ZERO) as usize;
        let ghost next = digits.take(i - start + 1);
        proof {
            assert(next.drop_last() =~= digits.take(i - start));
            assert(next.last() == b);
            assert(decimal_value(next) == value * 10 + d);
        }
        if value > (usize::MAX - d) / 10 {
            proof {
                assert(decimal_value(next) > usize::MAX);
                if is_digits(digits) {
                    lemma_decimal_value_grows(digits, i - start + 1);
                }
            }
            return None;
        }
        value = value * 10 + d;
        i += 1;
    }
    proof {
        assert(digits.take(i - start) =~= digits);
    }
    Some(value)
}

/// Whether `bytes` is an optional `+` and one or more ASCII digits, whatever
/// the size of the number.
pub fn is_decimal(bytes: &[u8]) -> (r: bool)
    ensures
        r == spec_parse_decimal(bytes@).is_some(),
{
    let start: usize = if bytes.len() > 0 && bytes[0] == PLUS {
        1
    } else {
        0
    };
    let ghost digits = bytes@.skip(start as int);
    assert(bytes@.skip(0) =~= bytes@);
    if start == bytes.len() {
        return false;
    }
    let mut i: usize = start;
    while i < bytes.len()
        invariant
            start <= i <= bytes.len(),
            start < bytes.len(),
            start == if bytes@.len() > 0 && bytes@[0] == PLUS {
                1int
            } else {
                0int
            },
            digits == bytes@.skip(start as int),
            bytes@.skip(0) == bytes@,
            forall|j: int| 0 <= j < i - start ==> is_digit(#[trigger] digits[j]),
        decreases bytes.len() - i,
    {
        let b = bytes[i];
        if b < ZERO || b > NINE {
            assert(!is_digit(digits[i - start]));
            return false;
        }
        i += 1;
    }
    true
}

/// Renders `n` in decimal, without leading zeros.
pub fn render_decimal(n: usize) -> (r: Vec<u8>)
    ensures
        r@ == decimal_digits(n as nat),
    decreases n,
{
    if n < 10 {
        let mut out: Vec<u8> = Vec::new();
        out.push(ZERO + n as u8);
        assert(out@ =~= decimal_digits(n as nat));
        out
    } else {
        let mut out = render_decimal(n / 10);
        out.push(ZERO + (n % 10) as u8);
        out
    }
}

} // verus!
