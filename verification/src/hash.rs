//! SHA3-256 hashing of search inputs, through the `tiny_keccak` crate.

use vstd::prelude::*;
use crate::id::{U256, ID_BYTES};

verus! {

/// The SHA3-256 digest of a byte string. The digest is a pure function of the
/// input bytes; its 32 bytes are computed by an outside crate and are not
/// otherwise specified here.
pub uninterp spec fn sha3_of(data: Seq<u8>) -> Seq<u8>;

/// Relies on tiny_keccak's sha3_256, which returns the 32-byte SHA3-256
/// digest of the input; the digest depends on the input bytes alone.
#[verifier::external_body]
pub fn sha3_256(data: &[u8]) -> (r: U256)
    ensures
        r@ == sha3_of(data@),
        r@.len() == ID_BYTES,
{
    let digest: [u8; 32] = tiny_keccak::sha3_256(data);
    U256::from_bytes(digest.to_vec()).unwrap()
}

} // verus!
