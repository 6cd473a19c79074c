//! Subnets in CIDR notation: an address, a `/` and a prefix length.

use crate::address::{address_of, parse_address};
use crate::error::ParseError;
use crate::mask::{is_subnet_mask, mask_of, mask_to_binary, prefix_mask};
use crate::number::{number_of, parse_number};
use crate::text::{chars_of, part_views, split, split_chars};
use vstd::prelude::*;

verus! {

/// What [`parse_subnet`] returns for each text: the base address of the
/// network and its mask, or the first thing found wrong with the text.
///
/// The text is looked at in this order. It must split at `/` into exactly
/// two parts. The first part must be an address. The second part must be a
/// number, and that number a prefix length from 1 to 31. The base address is
/// the address with every bit outside the mask cleared.
pub open spec fn subnet_of(text: Seq<char>) -> Result<(u32, u32), ParseError> {
    let parts = split(text, '/');
    if parts.len() != 2 {
        Err(ParseError::MalformedSubnet)
    } else {
        match address_of(parts[0]) {
            Err(e) => Err(e),
            Ok(address) => match number_of(parts[1]) {
                None => Err(ParseError::MalformedMask),
                Some(prefix) => match mask_of(prefix) {
                    Err(e) => Err(e),
                    Ok(mask) => Ok((address & mask, mask)),
                },
            },
        }
    }
}

/// Whether a base address and a mask make a subnet: the mask is that of a
/// prefix length from 1 to 31, and the base address has no bit set outside it.
pub open spec fn is_subnet(base: u32, mask: u32) -> bool {
    is_subnet_mask(mask) && base & mask == base
}

/// Every text that parses as a subnet gives a base address and a mask that
/// make a subnet.
pub proof fn lemma_subnet_of_is_subnet(text: Seq<char>)
    requires
        subnet_of(text) is Ok,
    ensures
        is_subnet(subnet_of(text)->Ok_0.0, subnet_of(text)->Ok_0.1),
{
    let parts = split(text, '/');
    let address = address_of(parts[0])->Ok_0;
    let prefix = number_of(parts[1])->0;
    let mask = prefix_mask(prefix);
    assert((address & mask) & mask == address & mask) by (bit_vector);
}

/// Parsing depends on the text alone: two texts with the same characters
/// parse to the same address and to the same subnet, or fail with the same
/// error, however often and wherever they are parsed.
pub proof fn lemma_same_text_same_result(first: Seq<char>, second: Seq<char>)
    requires
        first =~= second,
    ensures
        address_of(first) == address_of(second),
        subnet_of(first) == subnet_of(second),
{
}

/// Parses a subnet in CIDR notation, `a.b.c.d/n`, into the base address of
/// the network and its mask.
///
/// Host bits that the text has set are cleared in the base address, so that
/// `192.168.1.5/24` gives the base `192.168.1.0`.
pub fn parse_subnet(subnet: &str) -> (r: Result<(u32, u32), ParseError>)
    ensures
        r == subnet_of(subnet@),
        r matches Ok((base, mask)) ==> is_subnet(base, mask),
{
    proof {
        if subnet_of(subnet@) is Ok {
            lemma_subnet_of_is_subnet(subnet@);
        }
    }
    let chars = chars_of(subnet);
    let subnet_chunks = split_chars(chars.as_slice(), '/');
    if subnet_chunks.len() != 2 {
        return Err(ParseError::MalformedSubnet);
    }
    proof {
        let parts = part_views(subnet_chunks@);
        assert(parts[0] == subnet_chunks@[0]@);
        assert(parts[1] == subnet_chunks@[1]@);
    }
    let mut subnet_min_ip: u32 = match parse_address(subnet_chunks[0].as_slice()) {
        Ok(a) => a,
        Err(e) => return Err(e),
    };
    let mask: u32 = match parse_number(subnet_chunks[1].as_slice()) {
        Some(a) => match mask_to_binary(a) {
            Ok(b) => b,
            Err(e) => return Err(e),
        },
        None => return Err(ParseError::MalformedMask),
    };
    subnet_min_ip = subnet_min_ip & mask;

    Ok((subnet_min_ip, mask))
}

} // verus!
