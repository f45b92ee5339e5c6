use vstd::prelude::*;
use sha2::Digest;
use std::hash::Hasher;

verus! {

/// The SHA-256 digest of a byte string.
pub uninterp spec fn sha256_of(b: Seq<u8>) -> Seq<u8>;

/// The 64-bit XxHash (seed 0) of a byte string.
pub uninterp spec fn xxhash64_of(b: Seq<u8>) -> u64;

/// Relies on `sha2::Sha256::digest`: the digest of the bytes, 32 bytes long.
#[verifier::external_body]
pub(crate) fn sha256(b: &[u8]) -> (r: Vec<u8>)
    ensures
        r@ == sha256_of(b@),
        r@.len() == 32,
{
    sha2::Sha256::digest(b).to_vec()
}

/// Relies on `twox_hash::XxHash64` seeded with 0, fed the bytes once: the 64-bit hash.
#[verifier::external_body]
pub(crate) fn xxhash64(b: &[u8]) -> (r: u64)
    ensures
        r == xxhash64_of(b@),
{
    let mut h = twox_hash::XxHash64::with_seed(0);
    h.write(b);
    h.finish()
}

} // verus!
