//! Unsigned numbers written in base 10.

use vstd::prelude::*;

verus! {

/// Whether `c` is one of the ten decimal digits `0` to `9`.
pub open spec fn is_digit(c: char) -> bool {
    '0' <= c <= '9'
}

/// The number that a decimal digit stands for.
pub open spec fn digit_value(c: char) -> nat
    recommends
        is_digit(c),
{
    if is_digit(c) {
        (c as int - '0' as int) as nat
    } else {
        0
    }
}

/// The character that writes a digit from 0 to 9.
pub open spec fn digit_char(digit: nat) -> char
    recommends
        digit < 10,
{
    ('0' as nat + digit) as char
}

/// Whether every character of `text` is a decimal digit.
pub open spec fn all_digits(text: Seq<char>) -> bool {
    forall|i: int| 0 <= i < text.len() ==> is_digit(#[trigger] text[i])
}

/// The number written by a string of decimal digits, most significant first.
pub open spec fn decimal_value(digits: Seq<char>) -> nat
    recommends
        all_digits(digits),
    decreases digits.len(),
{
    if digits.len() == 0 {
        0
    } else {
        decimal_value(digits.drop_last()) * 10 + digit_value(digits.last())
    }
}

/// The decimal digits that write `number`, without sign or leading zeros.
pub open spec fn decimal_digits(number: nat) -> Seq<char>
    decreases number,
{
    if number < 10 {
        seq![digit_char(number)]
    } else {
        decimal_digits(number / 10).push(digit_char(number % 10))
    }
}

/// The digits of a number: the text without the `+` that may precede them.
pub open spec fn unsigned_part(text: Seq<char>) -> Seq<char> {
    if text.len() > 0 && text[0] == '+' {
        text.skip(1)
    } else {
        text
    }
}

/// The unsigned 32-bit number that `text` writes in base 10, if it writes one.
///
/// A number is one or more decimal digits, which a single `+` may precede,
/// and whose value does not exceed `u32::MAX`. Leading zeros are allowed.
/// Nothing else is a number: not the empty text, not a lone `+`, nor a text
/// with a space, a `-` or any other character in it. These are the texts
/// that `str::parse::<u32>` reads, with the same values.
pub open spec fn number_of(text: Seq<char>) -> Option<u32> {
    let digits = unsigned_part(text);
    if digits.len() > 0 && all_digits(digits) && decimal_value(digits) <= u32::MAX {
        Some(decimal_value(digits) as u32)
    } else {
        None
    }
}

/// A string of digits is worth no less than any of its beginnings.
pub proof fn lemma_decimal_value_grows(digits: Seq<char>, len: int)
    requires
        0 <= len <= digits.len(),
    ensures
        decimal_value(digits.take(len)) <= decimal_value(digits),
    decreases digits.len(),
{
    if len == digits.len() {
        assert(digits.take(len) == digits);
    } else {
        lemma_decimal_value_grows(digits.drop_last(), len);
        assert(digits.drop_last().take(len) == digits.take(len));
    }
}

/// What is written in decimal digits reads back as the same number.
pub proof fn lemma_decimal_digits_value(number: nat)
    ensures
        decimal_digits(number).len() > 0,
        all_digits(decimal_digits(number)),
        decimal_value(decimal_digits(number)) == number,
    decreases number,
{
    let digits = decimal_digits(number);
    if number < 10 {
        assert(digits.drop_last() == Seq::<char>::empty());
        assert(decimal_value(digits.drop_last()) == 0);
    } else {
        lemma_decimal_digits_value(number / 10);
        assert(digits.drop_last() == decimal_digits(number / 10));
    }
}

/// Every unsigned 32-bit number, written in decimal digits, is read back by
/// [`number_of`].
pub proof fn lemma_number_round_trip(number: u32)
    ensures
        number_of(decimal_digits(number as nat)) == Some(number),
{
    lemma_decimal_digits_value(number as nat);
    assert(is_digit(decimal_digits(number as nat)[0]));
}

/// Reads an unsigned 32-bit number written in base 10.
///
/// Returns the number where `text` writes one, and `None` for every other
/// text: see [`number_of`].
pub fn parse_number(text: &[char]) -> (r: Option<u32>)
    ensures
        r == number_of(text@),
{
    let len: usize = text.len();
    let first: usize = if len > 0 && text[0] == '+' {
        1
    } else {
        0
    };
    if first == len {
        return None;
    }
    let ghost digits = unsigned_part(text@);
    let mut value: u32 = 0;
    let mut at: usize = first;
    proof {
        assert(text@.skip(0) == text@);
        assert(digits.take(0) == Seq::<char>::empty());
    }
    while at < len
        invariant
            first <= at <= len,
            len == text@.len(),
            digits == unsigned_part(text@),
            digits == text@.skip(first as int),
            all_digits(digits.take(at - first)),
            value == decimal_value(digits.take(at - first)),
        decreases len - at,
    {
        let c = text[at];
        if c < '0' || c > '9' {
            assert(!is_digit(digits[at - first]));
            return None;
        }
        let digit: u32 = c as u32 - '0' as u32;
        proof {
            let read = digits.take(at - first + 1);
            assert(read.drop_last() == digits.take(at - first));
            assert(read.last() == c);
            assert(decimal_value(read) == value * 10 + digit);
            lemma_decimal_value_grows(digits, at - first + 1);
        }
        if value > (u32::MAX - digit) / 10 {
            return None;
        }
        value = value * 10 + digit;
        at = at + 1;
    }
    proof {
        assert(digits.take(at - first) == digits);
    }
    Some(value)
}

} // verus!
