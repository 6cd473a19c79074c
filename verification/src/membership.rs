//! Whether an address lies in a subnet, decided in two ways that agree.

use crate::address::{address_of, ip_to_binary};
use crate::error::ParseError;
use crate::mask::{is_prefix_length, prefix_mask};
use crate::subnet::{is_subnet, lemma_subnet_of_is_subnet, parse_subnet, subnet_of};
use vstd::prelude::*;

verus! {

/// Membership by range: the address lies between the base address of the
/// network and its highest address, which has every bit outside the mask set.
pub open spec fn in_range(address: u32, base: u32, mask: u32) -> bool {
    base <= address <= (!mask | base)
}

/// Membership by mask: the bits of the address under the mask are the base
/// address of the network.
pub open spec fn under_mask(address: u32, base: u32, mask: u32) -> bool {
    base == address & mask
}

/// What [`is_in_subnet_hard_way`] returns for each pair of texts.
///
/// The address is looked at first: where both texts are wrong, the error is
/// that of the address.
pub open spec fn range_test(address: Seq<char>, subnet: Seq<char>) -> Result<bool, ParseError> {
    match address_of(address) {
        Err(e) => Err(e),
        Ok(address) => match subnet_of(subnet) {
            Err(e) => Err(e),
            Ok((base, mask)) => Ok(in_range(address, base, mask)),
        },
    }
}

/// What [`is_in_subnet_easy_way`] returns for each pair of texts.
///
/// The address is looked at first: where both texts are wrong, the error is
/// that of the address.
pub open spec fn mask_test(address: Seq<char>, subnet: Seq<char>) -> Result<bool, ParseError> {
    match address_of(address) {
        Err(e) => Err(e),
        Ok(address) => match subnet_of(subnet) {
            Err(e) => Err(e),
            Ok((base, mask)) => Ok(under_mask(address, base, mask)),
        },
    }
}

/// Membership by range and membership by mask are the same where the mask
/// is that of the prefix length `prefix`.
proof fn lemma_range_is_mask_of_prefix(address: u32, base: u32, prefix: u32)
    by (bit_vector)
    requires
        prefix <= 32,
        base & prefix_mask(prefix) == base,
    ensures
        in_range(address, base, prefix_mask(prefix)) == under_mask(
            address,
            base,
            prefix_mask(prefix),
        ),
{
}

/// For every subnet, membership by range and membership by mask are the
/// same.
pub proof fn lemma_range_is_mask(address: u32, base: u32, mask: u32)
    requires
        is_subnet(base, mask),
    ensures
        in_range(address, base, mask) == under_mask(address, base, mask),
{
    let prefix = choose|prefix: u32|
        is_prefix_length(prefix) && mask == #[trigger] prefix_mask(prefix);
    lemma_range_is_mask_of_prefix(address, base, prefix);
}

/// The two membership tests agree on every pair of texts: they accept the
/// same pairs, give the same answer on them, and reject every other pair
/// with the same error.
pub proof fn lemma_tests_agree(address: Seq<char>, subnet: Seq<char>)
    ensures
        range_test(address, subnet) == mask_test(address, subnet),
{
    if address_of(address) is Ok && subnet_of(subnet) is Ok {
        lemma_subnet_of_is_subnet(subnet);
        let (base, mask) = subnet_of(subnet)->Ok_0;
        lemma_range_is_mask(address_of(address)->Ok_0, base, mask);
    }
}

/// Decides by range whether the address `ip` lies in `subnet`: whether it is
/// no smaller than the base address of the network and no greater than its
/// highest address.
///
/// A text that does not parse is reported with its error, that of the
/// address before that of the subnet.
pub fn is_in_subnet_hard_way(ip: &str, subnet: &str) -> (r: Result<bool, ParseError>)
    ensures
        r == range_test(ip@, subnet@),
{
    let ip_binary: u32 = match ip_to_binary(ip) {
        Ok(a) => a,
        Err(e) => return Err(e),
    };
    match parse_subnet(subnet) {
        Ok((subnet_min_ip, mask)) => {
            let subnet_max_ip: u32 = !mask | subnet_min_ip;
            Ok(subnet_min_ip <= ip_binary && ip_binary <= subnet_max_ip)
        },
        Err(e) => Err(e),
    }
}

/// Decides by mask whether the address `ip` lies in `subnet`: whether its
/// bits under the mask are the base address of the network.
///
/// A text that does not parse is reported with its error, that of the
/// address before that of the subnet.
pub fn is_in_subnet_easy_way(ip: &str, subnet: &str) -> (r: Result<bool, ParseError>)
    ensures
        r == mask_test(ip@, subnet@),
{
    let ip_binary: u32 = match ip_to_binary(ip) {
        Ok(a) => a,
        Err(e) => return Err(e),
    };
    match parse_subnet(subnet) {
        Ok((subnet_min_ip, mask)) => Ok(subnet_min_ip == ip_binary & mask),
        Err(e) => Err(e),
    }
}

} // verus!
