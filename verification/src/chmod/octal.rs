//! Octal numerals.

use vstd::prelude::*;

verus! {

/// Whether `c` is one of the digits `0` to `7`.
pub open spec fn is_octal_digit(c: char) -> bool {
    '0' <= c <= '7'
}

/// The value of an octal digit.
pub open spec fn digit_value(c: char) -> nat {
    (c as u32 - '0' as u32) as nat
}

/// Whether every character of `digits` is an octal digit.
pub open spec fn all_octal(digits: Seq<char>) -> bool {
    forall|i: int| 0 <= i < digits.len() ==> is_octal_digit(#[trigger] digits[i])
}

/// The number that a sequence of octal digits writes, most significant digit first.
pub open spec fn octal_value(digits: Seq<char>) -> nat
    decreases digits.len(),
{
    if digits.len() == 0 {
        0
    } else {
        8 * octal_value(digits.drop_last()) + digit_value(digits.last())
    }
}

/// The number that `digits` writes in octal: there is one where `digits` is not
/// empty, holds octal digits only, and writes a number that fits in 32 bits.
pub open spec fn spec_parse_octal(digits: Seq<char>) -> Option<u32> {
    if digits.len() > 0 && all_octal(digits) && octal_value(digits) <= u32::MAX {
        Some(octal_value(digits) as u32)
    } else {
        None
    }
}

/// A numeral is worth at least as much as any of its prefixes.
pub proof fn lemma_octal_value_monotonic(digits: Seq<char>, n: int)
    requires
        0 <= n <= digits.len(),
    ensures
        octal_value(digits.take(n)) <= octal_value(digits),
    decreases digits.len(),
{
    if n == digits.len() {
        assert(digits.take(n) =~= digits);
    } else {
        lemma_octal_value_monotonic(digits.drop_last(), n);
        assert(digits.drop_last().take(n) =~= digits.take(n));
    }
}

/// Reads an octal numeral.
pub fn parse_octal(digits: &[char]) -> (res: Option<u32>)
    ensures
        res == spec_parse_octal(digits@),
{
    if digits.len() == 0 {
        return None;
    }
    let mut value: u32 = 0;
    let mut i: usize = 0;
    while i < digits.len()
        invariant
            i <= digits@.len(),
            all_octal(digits@.take(i as int)),
            value == octal_value(digits@.take(i as int)),
        decreases digits@.len() - i,
    {
        let c: char = digits[i];
        if !('0' <= c && c <= '7') {
            assert(!is_octal_digit(digits@[i as int]));
            return None;
        }
        let digit: u32 = c as u32 - '0' as u32;
        proof {
            assert(digits@.take(i + 1).drop_last() =~= digits@.take(i as int));
            assert(digits@.take(i + 1).last() == c);
        }
        if value > (u32::MAX - digit) / 8 {
            proof {
                lemma_octal_value_monotonic(digits@, i + 1);
            }
            return None;
        }
        value = 8 * value + digit;
        i = i + 1;
    }
    assert(digits@.take(i as int) =~= digits@);
    Some(value)
}

} // verus!
