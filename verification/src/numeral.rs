//! Decimal numerals: the text of an integer and the integer of a text.

use vstd::prelude::*;

verus! {

/// The character of a decimal digit.
pub open spec fn digit_char(d: int) -> char {
    if d == 0 {
        '0'
    } else if d == 1 {
        '1'
    } else if d == 2 {
        '2'
    } else if d == 3 {
        '3'
    } else if d == 4 {
        '4'
    } else if d == 5 {
        '5'
    } else if d == 6 {
        '6'
    } else if d == 7 {
        '7'
    } else if d == 8 {
        '8'
    } else {
        '9'
    }
}

/// Whether a character is a decimal digit.
pub open spec fn is_digit(c: char) -> bool {
    '0' <= c && c <= '9'
}

/// The number a decimal digit stands for.
pub open spec fn digit_value(c: char) -> int {
    c as int - '0' as int
}

/// The digits of a natural number, most significant first, without leading zeros.
pub open spec fn digits(n: nat) -> Seq<char>
    decreases n,
{
    if n < 10 {
        seq![digit_char(n as int)]
    } else {
        digits(n / 10).push(digit_char((n % 10) as int))
    }
}

/// The decimal text of an integer: its digits, after a `-` where it is negative.
pub open spec fn decimal(n: int) -> Seq<char> {
    if n < 0 {
        seq!['-'] + digits((-n) as nat)
    } else {
        digits(n as nat)
    }
}

/// Whether every character is a decimal digit.
pub open spec fn all_digits(s: Seq<char>) -> bool {
    forall|i: int| 0 <= i < s.len() ==> is_digit(#[trigger] s[i])
}

/// Whether a text is an integer literal: an optional `-`, then one digit or more.
pub open spec fn is_numeral(s: Seq<char>) -> bool {
    if s.len() > 0 && s[0] == '-' {
        s.len() >= 2 && all_digits(s.subrange(1, s.len() as int))
    } else {
        s.len() >= 1 && all_digits(s)
    }
}

/// The number that a run of digits stands for.
pub open spec fn digits_value(s: Seq<char>) -> int
    decreases s.len(),
{
    if s.len() == 0 {
        0
    } else {
        digits_value(s.drop_last()) * 10 + digit_value(s.last())
    }
}

/// The number that an integer literal stands for.
pub open spec fn numeral_value(s: Seq<char>) -> int {
    if s.len() > 0 && s[0] == '-' {
        -digits_value(s.subrange(1, s.len() as int))
    } else {
        digits_value(s)
    }
}

/// The 32-bit integer that an integer literal stands for, if it fits.
pub open spec fn numeral_i32(s: Seq<char>) -> Option<i32> {
    if i32::MIN <= numeral_value(s) <= i32::MAX {
        Some(numeral_value(s) as i32)
    } else {
        None
    }
}

/// The digits of a number are digits, and stand for that number.
pub proof fn lemma_digits(n: nat)
    ensures
        digits(n).len() >= 1,
        all_digits(digits(n)),
        digits_value(digits(n)) == n,
        digits(n)[0] != '-',
    decreases n,
{
    if n < 10 {
        let s = digits(n);
        assert(s.drop_last() =~= Seq::<char>::empty());
        assert(digits_value(s.drop_last()) == 0);
    } else {
        lemma_digits(n / 10);
        let s = digits(n);
        assert(s.drop_last() =~= digits(n / 10));
        assert(s.last() == digit_char((n % 10) as int));
    }
}

/// The decimal text of an integer is an integer literal that stands for it.
pub proof fn lemma_decimal(n: int)
    ensures
        is_numeral(decimal(n)),
        numeral_value(decimal(n)) == n,
{
    if n < 0 {
        lemma_digits((-n) as nat);
        let s = decimal(n);
        assert(s.subrange(1, s.len() as int) =~= digits((-n) as nat));
    } else {
        lemma_digits(n as nat);
    }
}

/// The decimal text of a 32-bit integer: its digits without leading zeros, after a `-`
/// where it is negative. This is what `i32`'s `to_string` of std returns.
#[verifier::external_body]
pub(crate) fn int_to_string(n: i32) -> (r: String)
    ensures
        r@ == decimal(n as int),
{
    n.to_string()
}

/// The 32-bit integer of an integer literal, or nothing where it does not fit. This is
/// what `str::parse::<i32>` of std returns on an optional `-` followed by digits; of
/// other texts nothing is claimed.
#[verifier::external_body]
pub(crate) fn parse_i32(text: &str) -> (r: Option<i32>)
    ensures
        is_numeral(text@) ==> r == numeral_i32(text@),
{
    text.parse::<i32>().ok()
}

} // verus!
