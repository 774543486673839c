//! The thread-local random source of the `rand` crate, behind trusted
//! wrappers. Nothing is assumed about the values drawn beyond their ranges.

use vstd::prelude::*;

verus! {

/// The thread-local generator type of the `rand` crate. Opaque here: values
/// drawn from it are random, so no call through it promises a value.
#[verifier::external_type_specification]
#[verifier::external_body]
pub struct ExThreadRng(rand::rngs::ThreadRng);

/// Relies on rand's thread_rng to hand out the thread-local generator.
#[verifier::external_body]
pub fn new_rng() -> rand::rngs::ThreadRng {
    rand::thread_rng()
}

/// Relies on rand's Rng::gen_range over `lo..hi`, which returns a value in
/// that half-open range and panics only when the range is empty.
#[verifier::external_body]
pub fn rng_range(rng: &mut rand::rngs::ThreadRng, lo: usize, hi: usize) -> (r: usize)
    requires
        lo < hi,
    ensures
        lo <= r < hi,
{
    rand::Rng::gen_range(rng, lo..hi)
}

/// Relies on rand's RngCore::fill_bytes, which overwrites the buffer in place
/// with random bytes and keeps its length.
#[verifier::external_body]
pub fn rng_fill(rng: &mut rand::rngs::ThreadRng, buf: &mut Vec<u8>)
    ensures
        final(buf)@.len() == old(buf)@.len(),
{
    rand::RngCore::fill_bytes(rng, buf.as_mut_slice())
}

} // verus!
