//! Task identifiers: random version-4 UUIDs from the `uuid` crate, held as
//! their 128-bit value.
use vstd::prelude::*;

verus! {

/// The bits that hold a UUID's version (4 high bits of byte 6) and variant
/// (2 high bits of byte 8), in the big-endian 128-bit value.
pub open spec fn version_variant_mask() -> u128 {
    0xF000_C000_0000_0000_0000u128
}

/// A fresh identifier: `uuid::Uuid::new_v4().as_u128()`.
///
/// Trusted: the value is random. As the crate's source shows, the version
/// nibble is 4 and the variant bits are `10`; nothing else is claimed.
#[verifier::external_body]
pub fn new_id() -> (r: u128)
    ensures
        r & version_variant_mask() == 0x4000_8000_0000_0000_0000u128,
{
    uuid::Uuid::new_v4().as_u128()
}

} // verus!
