//! The outside hash functions the library calls, and the names of what they
//! compute.

use vstd::prelude::*;
use sha2::Digest;

verus! {

/// The SHA-256 digest of a byte string.
pub uninterp spec fn spec_sha256(data: Seq<u8>) -> Seq<u8>;

/// The BLAKE3 hash of a byte string.
pub uninterp spec fn spec_blake3(data: Seq<u8>) -> Seq<u8>;

/// Calls `sha2::Sha256::digest` on `data`. The contract claims only that the
/// result is the SHA-256 digest of these bytes, a function of them alone;
/// nothing about SHA-256 itself is stated.
#[verifier::external_body]
pub(crate) fn sha256(data: &[u8]) -> (r: [u8; 32])
    ensures
        r@ == spec_sha256(data@),
{
    sha2::Sha256::digest(data).into()
}

/// Calls `blake3::hash` on `data`. The contract claims only that the result
/// is the BLAKE3 hash of these bytes, a function of them alone.
#[verifier::external_body]
pub(crate) fn blake3_hash(data: &[u8]) -> (r: [u8; 32])
    ensures
        r@ == spec_blake3(data@),
{
    blake3::hash(data).into()
}

} // verus!
