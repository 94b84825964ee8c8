//! Decimal numbers written in ASCII digits.

use vstd::prelude::*;
use crate::chars::CharClass;

verus! {

/// The value of one decimal digit.
pub open spec fn digit_value(c: char) -> nat {
    (c as u32 - '0' as u32) as nat
}

/// The number that a sequence of decimal digits writes; leading zeros count
/// for nothing and the empty sequence writes zero.
pub open spec fn decimal_value(digits: Seq<char>) -> nat
    decreases digits.len(),
{
    if digits.len() == 0 {
        0
    } else {
        decimal_value(digits.drop_last()) * 10 + digit_value(digits.last())
    }
}

/// A number is at least the number written by any of its leading digits.
pub proof fn lemma_decimal_prefix(digits: Seq<char>, n: int)
    requires
        0 <= n <= digits.len(),
    ensures
        decimal_value(digits.take(n)) <= decimal_value(digits),
    decreases digits.len() - n,
{
    if n == digits.len() {
        assert(digits.take(n) =~= digits);
    } else {
        let next = digits.take(n + 1);
        assert(next.drop_last() =~= digits.take(n));
        lemma_decimal_prefix(digits, n + 1);
    }
}

/// Reads the decimal number that `s` holds from `from` up to `to`, if it is
/// at most `max`.
pub fn read_decimal(s: &[char], from: usize, to: usize, max: u64) -> (r: Option<u64>)
    requires
        from <= to <= s.len(),
        CharClass::Digit.fills(s@, from as int, to as int),
    ensures
        r == if decimal_value(s@.subrange(from as int, to as int)) <= max {
            Some(decimal_value(s@.subrange(from as int, to as int)) as u64)
        } else {
            None
        },
{
    let ghost digits = s@.subrange(from as int, to as int);
    let mut acc: u64 = 0;
    let mut i: usize = from;
    while i < to
        invariant
            from <= i <= to <= s.len(),
            digits == s@.subrange(from as int, to as int),
            CharClass::Digit.fills(s@, from as int, to as int),
            acc == decimal_value(digits.take(i - from)),
            acc <= max,
        decreases to - i,
    {
        let c: char = s[i];
        assert(CharClass::Digit.has(s@[i as int]));
        let d: u64 = (c as u32 - '0' as u32) as u64;
        proof {
            let next = digits.take(i - from + 1);
            assert(next.drop_last() =~= digits.take(i - from));
            assert(next.last() == c);
            assert(decimal_value(next) == acc * 10 + d);
            lemma_decimal_prefix(digits, i - from + 1);
        }
        if d > max || acc > (max - d) / 10 {
            return None;
        }
        acc = acc * 10 + d;
        i += 1;
    }
    proof {
        assert(digits.take(to - from) =~= digits);
    }
    Some(acc)
}

} // verus!
