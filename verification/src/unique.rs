//! The source of fresh identifier values.

use vstd::prelude::*;

verus! {

/// The bits that every version 4 UUID has in common: the version nibble is 4
/// and the two variant bits are `10`.
pub open spec fn is_random_uuid(bits: u128) -> bool {
    bits & 0x0000_0000_0000_f000_c000_0000_0000_0000u128
        == 0x0000_0000_0000_4000_8000_0000_0000_0000u128
}

/// Draws a version 4 UUID with `uuid::Uuid::new_v4` and hands it out as the
/// 128-bit number that `Uuid::as_u128` packs its bytes into.
///
/// Trusted: the 122 other bits come from the operating system's random number
/// generator, so nothing is claimed of them, and two draws may be equal.
/// `new_v4` panics if the operating system cannot deliver random bytes.
#[verifier::external_body]
pub(crate) fn random_uuid_bits() -> (bits: u128)
    ensures
        is_random_uuid(bits),
{
    uuid::Uuid::new_v4().as_u128()
}

} // verus!
