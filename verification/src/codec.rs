//! The byte encoding of what authorities sign.

use parity_scale_codec::Encode;
use vstd::prelude::*;

verus! {

/// `parity_scale_codec::Encode::encode` on a pair of a variant's index and a hash.
///
/// Trusted: a pair is encoded as its parts one after the other, a `u8` as itself, and an array
/// of bytes as these bytes without a length.
#[verifier::external_body]
pub(crate) fn encode_tagged_hash(index: u8, hash: &[u8; 32]) -> (bytes: Vec<u8>)
    ensures
        bytes@ == seq![index] + hash@,
{
    (index, *hash).encode()
}

} // verus!
