//! The hash function that identifies candidates.

use sp_core::Hasher;
use vstd::prelude::*;

verus! {

/// The Blake2b-256 digest of `data`, as `sp_core::Blake2Hasher` computes it.
pub uninterp spec fn blake2_256_digest(data: Seq<u8>) -> Seq<u8>;

/// `<sp_core::Blake2Hasher as Hasher>::hash`, which digests the bytes that it is given.
///
/// Trusted: the digest is a function of the bytes alone. Nothing is claimed of which digest
/// belongs to which bytes.
#[verifier::external_body]
pub(crate) fn blake2_256(data: &[u8]) -> (digest: [u8; 32])
    ensures
        digest@ == blake2_256_digest(data@),
{
    sp_core::Blake2Hasher::hash(data).0
}

} // verus!
