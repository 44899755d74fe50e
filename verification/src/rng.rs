//! The library's only sources of randomness, taken on trust from the `rand`
//! crate. Nothing beyond the stated range is assumed of the values drawn:
//! every function that consumes them is verified for every value they could
//! take.

use vstd::prelude::*;

verus! {

/// Relies on `rand::random_range` over `lo..hi`: a value drawn from the
/// thread-local cryptographically secure generator, uniform over the range.
/// `random_range` panics on an empty range, which the precondition rules
/// out.
#[verifier::external_body]
pub(crate) fn random_in_range(lo: u64, hi: u64) -> (r: u64)
    requires
        lo < hi,
    ensures
        lo <= r < hi,
{
    rand::random_range(lo..hi)
}

/// Relies on `rand::random`: a fresh identifier drawn from the
/// thread-local cryptographically secure generator. Nothing is assumed of
/// the value.
#[verifier::external_body]
pub(crate) fn random_u64() -> u64 {
    rand::random()
}

/// Relies on `rand::fill`: fills the slice with bytes from the thread-local
/// cryptographically secure generator.
#[verifier::external_body]
pub(crate) fn random_bytes_32() -> (b: Vec<u8>)
    ensures
        b@.len() == 32,
{
    let mut buf = [0u8; 32];
    rand::fill(&mut buf[..]);
    buf.to_vec()
}

} // verus!
