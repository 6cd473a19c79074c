//! Prefix lengths and the contiguous masks they stand for.

use crate::error::ParseError;
use vstd::prelude::*;

verus! {

/// Number of bits in an IPv4 address.
pub const IP32_LENGTH: u32 = 32;

/// Whether `prefix` is a prefix length that a subnet may have.
///
/// The two extremes, 0 (every address) and 32 (a single host), are
/// deliberately not accepted.
pub open spec fn is_prefix_length(prefix: u32) -> bool {
    1 <= prefix <= 31
}

/// The mask of a prefix length: the 32-bit value `0xFFFF_FFFF << (32 - prefix)`,
/// whose top `prefix` bits are set and whose other bits are clear.
pub open spec fn prefix_mask(prefix: u32) -> u32
    recommends
        prefix <= 32,
{
    0xFFFF_FFFFu32 << ((32 - prefix) as u32)
}

/// Whether `mask` is the mask of a prefix length that a subnet may have.
pub open spec fn is_subnet_mask(mask: u32) -> bool {
    exists|prefix: u32| is_prefix_length(prefix) && mask == #[trigger] prefix_mask(prefix)
}

/// Whether bit `index` of `value` is set, bit 0 being the least significant.
pub open spec fn bit_is_set(value: u32, index: u32) -> bool
    recommends
        index < 32,
{
    (value >> index) & 1 == 1
}

/// Whether `value` consists of exactly `ones` one-bits, starting at the most
/// significant bit, followed by `32 - ones` zero-bits.
pub open spec fn has_leading_ones(value: u32, ones: u32) -> bool
    recommends
        ones <= 32,
{
    forall|index: u32| index < 32 ==> (#[trigger] bit_is_set(value, index) <==> index + ones >= 32)
}

/// What [`mask_to_binary`] returns for each prefix length.
pub open spec fn mask_of(prefix: u32) -> Result<u32, ParseError> {
    if is_prefix_length(prefix) {
        Ok(prefix_mask(prefix))
    } else {
        Err(ParseError::InvalidMask)
    }
}

/// Each bit of a prefix mask: set exactly in the top `prefix` positions.
pub proof fn lemma_prefix_mask_bit(prefix: u32, index: u32)
    by (bit_vector)
    requires
        prefix <= 32,
        index < 32,
    ensures
        bit_is_set(prefix_mask(prefix), index) <==> index + prefix >= 32,
{
}

/// A prefix mask of length `prefix` has `prefix` leading one-bits and nothing else.
pub proof fn lemma_prefix_mask_leading_ones(prefix: u32)
    requires
        prefix <= 32,
    ensures
        has_leading_ones(prefix_mask(prefix), prefix),
{
    assert forall|index: u32| index < 32 implies (#[trigger] bit_is_set(
        prefix_mask(prefix),
        index,
    ) <==> index + prefix >= 32) by {
        lemma_prefix_mask_bit(prefix, index);
    }
}

/// Converts a prefix length into its mask.
///
/// Prefix lengths from 1 to 31 are accepted; 0 and everything from 32 up are
/// rejected with [`ParseError::InvalidMask`]. The mask is built one bit at a
/// time: each round shifts what has been built one place to the right and
/// sets the top bit.
pub fn mask_to_binary(mask: u32) -> (r: Result<u32, ParseError>)
    ensures
        r == mask_of(mask),
        is_prefix_length(mask) <==> r is Ok,
        r matches Ok(binary_mask) ==> has_leading_ones(binary_mask, mask) && is_subnet_mask(
            binary_mask,
        ),
{
    let start: u32 = 0b1 << (IP32_LENGTH - 1);
    let mut binary_mask: u32 = 0;
    if mask > (IP32_LENGTH - 1) || mask < 1 {
        Err(ParseError::InvalidMask)
    } else {
        assert(1u32 << 31u32 == 0x8000_0000u32) by (bit_vector);
        assert(prefix_mask(0) == 0) by (bit_vector);
        let mut done: u32 = 0;
        while done < mask
            invariant
                done <= mask <= 31,
                start == 0x8000_0000u32,
                binary_mask == prefix_mask(done),
            decreases mask - done,
        {
            assert((prefix_mask(done) >> 1) | 0x8000_0000u32 == prefix_mask((done + 1) as u32))
                by (bit_vector)
                requires
                    done < 31,
            ;
            binary_mask = (binary_mask >> 1) | start;
            done = done + 1;
        }
        proof {
            lemma_prefix_mask_leading_ones(mask);
        }
        Ok(binary_mask)
    }
}

} // verus!
