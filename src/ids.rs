//! Random identifiers.

use vstd::prelude::*;

verus! {

/// The version nibble of `x` says 4 (random) and its variant bits say RFC 4122.
pub open spec fn is_v4(x: u128) -> bool {
    &&& (x >> 76u128) & 0xfu128 == 4
    &&& (x >> 62u128) & 3u128 == 2
}

/// Relies on `uuid::Uuid::new_v4`: random bits with the version and variant
/// bits set, read back whole by `as_u128`.
#[verifier::external_body]
fn random_v4() -> (r: u128)
    ensures
        is_v4(r),
{
    uuid::Uuid::new_v4().as_u128()
}

/// A random identifier, as its 128 bits.
#[derive(Debug)]
pub struct Uuid(pub u128);

impl Uuid {
    /// A fresh random identifier.
    pub fn new() -> (r: Self)
        ensures
            is_v4(r.0),
    {
        Uuid(random_v4())
    }
}

} // verus!
