//! Dotted-decimal IPv4 addresses.

use crate::error::ParseError;
use crate::number::{
    decimal_digits, is_digit, lemma_decimal_digits_value, lemma_number_round_trip, number_of,
    parse_number,
};
use crate::text::{
    chars_of, lemma_split_joined, lemma_split_none, part_views, split, split_chars,
};
use vstd::prelude::*;

verus! {

/// Number of components in a dotted-decimal address.
pub const IP32_CHUNKS_COUNT: usize = 4;

/// Number of bits that each component of an address occupies.
pub const IP32_CHUNK_LENGTH: usize = 8;

/// The octet that `text` writes in base 10, if it writes one: a number no
/// greater than 255.
pub open spec fn octet_of(text: Seq<char>) -> Option<u8> {
    match number_of(text) {
        Some(number) => if number <= 255 {
            Some(number as u8)
        } else {
            None
        },
        None => None,
    }
}

/// The address made of four octets, the first of them in the most
/// significant place: the octet at position `i` (from the left, starting at
/// 0) occupies bits `(3 - i) * 8` to `(3 - i) * 8 + 7`.
pub open spec fn pack(a: u8, b: u8, c: u8, d: u8) -> u32 {
    (a as u32) << 24 | (b as u32) << 16 | (c as u32) << 8 | (d as u32)
}

/// The octet at position `index` of an address, position 0 being the most
/// significant.
pub open spec fn octet_at(address: u32, index: u32) -> u8
    recommends
        index < 4,
{
    ((address >> ((3 - index) * 8) as u32) & 0xFF) as u8
}

/// What [`ip_to_binary`] returns for each text.
///
/// An address is four octets separated by three dots. A text with fewer or
/// more components is rejected, as is one with a component that is not an
/// octet.
pub open spec fn address_of(text: Seq<char>) -> Result<u32, ParseError> {
    let parts = split(text, '.');
    if parts.len() == 4 {
        match (octet_of(parts[0]), octet_of(parts[1]), octet_of(parts[2]), octet_of(parts[3])) {
            (Some(a), Some(b), Some(c), Some(d)) => Ok(pack(a, b, c, d)),
            _ => Err(ParseError::MalformedAddress),
        }
    } else {
        Err(ParseError::MalformedAddress)
    }
}

/// The dotted-decimal text of an address: its four octets in decimal digits,
/// separated by dots.
pub open spec fn dotted_decimal(a: u8, b: u8, c: u8, d: u8) -> Seq<char> {
    decimal_digits(a as nat) + seq!['.'] + (decimal_digits(b as nat) + seq!['.'] + (decimal_digits(
        c as nat,
    ) + seq!['.'] + decimal_digits(d as nat)))
}

/// An octet written in decimal digits is read back by [`octet_of`], and its
/// text holds no dot.
pub proof fn lemma_octet_round_trip(octet: u8)
    ensures
        octet_of(decimal_digits(octet as nat)) == Some(octet),
        !decimal_digits(octet as nat).contains('.'),
{
    lemma_number_round_trip(octet as u32);
    lemma_decimal_digits_value(octet as nat);
    let digits = decimal_digits(octet as nat);
    assert forall|i: int| 0 <= i < digits.len() implies digits[i] != '.' by {
        assert(is_digit(digits[i]));
    }
}

/// Unpacking what [`pack`] has packed gives the four octets back.
pub proof fn lemma_unpack(a: u8, b: u8, c: u8, d: u8)
    by (bit_vector)
    ensures
        octet_at(pack(a, b, c, d), 0) == a,
        octet_at(pack(a, b, c, d), 1) == b,
        octet_at(pack(a, b, c, d), 2) == c,
        octet_at(pack(a, b, c, d), 3) == d,
{
}

/// Every four octets, written as a dotted-decimal text, parse, and the
/// address they parse to unpacks into the same four octets.
pub proof fn lemma_address_round_trip(a: u8, b: u8, c: u8, d: u8)
    ensures
        address_of(dotted_decimal(a, b, c, d)) == Ok::<u32, ParseError>(pack(a, b, c, d)),
        octet_at(pack(a, b, c, d), 0) == a,
        octet_at(pack(a, b, c, d), 1) == b,
        octet_at(pack(a, b, c, d), 2) == c,
        octet_at(pack(a, b, c, d), 3) == d,
{
    let (ta, tb, tc, td) = (
        decimal_digits(a as nat),
        decimal_digits(b as nat),
        decimal_digits(c as nat),
        decimal_digits(d as nat),
    );
    lemma_octet_round_trip(a);
    lemma_octet_round_trip(b);
    lemma_octet_round_trip(c);
    lemma_octet_round_trip(d);
    lemma_split_none(td, '.');
    lemma_split_joined(tc, '.', td);
    lemma_split_joined(tb, '.', tc + seq!['.'] + td);
    lemma_split_joined(ta, '.', tb + seq!['.'] + (tc + seq!['.'] + td));
    assert(split(dotted_decimal(a, b, c, d), '.') == seq![ta, tb, tc, td]);
    lemma_unpack(a, b, c, d);
}

/// The octet at `index` once the first `done` components have been read,
/// and zero before.
spec fn octet_read(parts: Seq<Seq<char>>, index: int, done: int) -> u8 {
    if index < done {
        octet_of(parts[index])->0
    } else {
        0
    }
}

/// Putting an octet into its place in an address that is still zero there.
proof fn lemma_place_octet(a: u8, b: u8, c: u8, d: u8, octet: u32, index: u32)
    by (bit_vector)
    requires
        index < 4,
        octet <= 255,
        index == 0 ==> a == 0,
        index == 1 ==> b == 0,
        index == 2 ==> c == 0,
        index == 3 ==> d == 0,
    ensures
        pack(a, b, c, d) | octet << (((3 - index) * 8) as u32) == pack(
            if index == 0 { octet as u8 } else { a },
            if index == 1 { octet as u8 } else { b },
            if index == 2 { octet as u8 } else { c },
            if index == 3 { octet as u8 } else { d },
        ),
{
}

/// Parses the characters of a dotted-decimal IPv4 address into a 32-bit
/// integer, the first component in the most significant octet.
///
/// The text must consist of exactly four components separated by dots, each
/// of them a decimal number from 0 to 255 (see [`number_of`] for what a
/// number is). Anything else is rejected with
/// [`ParseError::MalformedAddress`]: a text with fewer or more than four
/// components, and one with a component that is empty, not a number, or
/// greater than 255.
pub fn parse_address(ip: &[char]) -> (r: Result<u32, ParseError>)
    ensures
        r == address_of(ip@),
{
    let chunks = split_chars(ip, '.');
    if chunks.len() != IP32_CHUNKS_COUNT {
        return Err(ParseError::MalformedAddress);
    }
    let ghost parts = split(ip@, '.');
    let mut ip_binary: u32 = 0;
    let mut i: usize = 0;
    proof {
        assert(pack(0, 0, 0, 0) == 0) by (bit_vector);
    }
    while i < IP32_CHUNKS_COUNT
        invariant
            i <= 4,
            parts == split(ip@, '.'),
            parts == part_views(chunks@),
            parts.len() == 4,
            forall|k: int| 0 <= k < i ==> octet_of(#[trigger] parts[k]) is Some,
            ip_binary == pack(
                octet_read(parts, 0, i as int),
                octet_read(parts, 1, i as int),
                octet_read(parts, 2, i as int),
                octet_read(parts, 3, i as int),
            ),
        decreases 4 - i,
    {
        assert(parts[i as int] == chunks@[i as int]@);
        match parse_number(chunks[i].as_slice()) {
            Some(a) => {
                if a > 255 {
                    return Err(ParseError::MalformedAddress);
                }
                proof {
                    lemma_place_octet(
                        octet_read(parts, 0, i as int),
                        octet_read(parts, 1, i as int),
                        octet_read(parts, 2, i as int),
                        octet_read(parts, 3, i as int),
                        a,
                        i as u32,
                    );
                }
                ip_binary |= a << ((IP32_CHUNKS_COUNT - i - 1) * IP32_CHUNK_LENGTH);
            },
            None => return Err(ParseError::MalformedAddress),
        }
        i += 1;
    }
    Ok(ip_binary)
}

/// Parses a dotted-decimal IPv4 address, such as `192.168.1.121`, into a
/// 32-bit integer, the first component in the most significant octet.
///
/// See [`parse_address`] for what is accepted.
pub fn ip_to_binary(ip: &str) -> (r: Result<u32, ParseError>)
    ensures
        r == address_of(ip@),
{
    let chars = chars_of(ip);
    parse_address(chars.as_slice())
}

} // verus!
