//! Ed25519 keys and signatures.

use sp_core::Pair as _;
use vstd::prelude::*;

verus! {

/// The public key that belongs to a secret seed.
pub uninterp spec fn ed25519_public_key(seed: Seq<u8>) -> Seq<u8>;

/// The signature on `message` by the key pair of a secret seed.
pub uninterp spec fn ed25519_signature(seed: Seq<u8>, message: Seq<u8>) -> Seq<u8>;

/// Whether `signature` is accepted on `message` for the holder of `public`.
pub uninterp spec fn ed25519_verifies(
    signature: Seq<u8>,
    message: Seq<u8>,
    public: Seq<u8>,
) -> bool;

/// A key pair, held as the secret seed that it is derived from.
#[derive(Clone, Copy)]
pub struct Pair {
    pub seed: [u8; 32],
}

impl Pair {
    /// The key pair of a secret seed.
    pub fn from_seed(seed: [u8; 32]) -> (pair: Self)
        ensures
            pair.seed == seed,
    {
        Pair { seed }
    }

    /// The public key of this pair.
    pub fn public(&self) -> (public: [u8; 32])
        ensures
            public@ == ed25519_public_key(self.seed@),
    {
        public_key(&self.seed)
    }
}

/// `sp_core::ed25519::Pair::public` of the pair that `Pair::from_seed` makes of `seed`.
///
/// Trusted: the public key is a function of the seed alone. `from_seed` panics only on a seed
/// whose length is not 32 bytes, which the type rules out.
#[verifier::external_body]
pub(crate) fn public_key(seed: &[u8; 32]) -> (public: [u8; 32])
    ensures
        public@ == ed25519_public_key(seed@),
{
    sp_core::ed25519::Pair::from_seed(seed).public().0
}

/// `sp_core::ed25519::Pair::sign` with the pair that `Pair::from_seed` makes of `seed`.
///
/// Trusted: signing is deterministic, so the signature is a function of seed and message; and
/// the signature is accepted on that message for the public key of the same seed. Nothing is
/// claimed of other messages or other keys.
#[verifier::external_body]
pub(crate) fn sign(seed: &[u8; 32], message: &[u8]) -> (signature: [u8; 64])
    ensures
        signature@ == ed25519_signature(seed@, message@),
        ed25519_verifies(signature@, message@, ed25519_public_key(seed@)),
{
    sp_core::ed25519::Pair::from_seed(seed).sign(message).0
}

/// `sp_core::ed25519::Pair::verify`, which answers `false` where the key or the signature does
/// not parse.
///
/// Trusted: the answer is a function of signature, message and public key alone.
#[verifier::external_body]
pub(crate) fn verify(signature: &[u8; 64], message: &[u8], public: &[u8; 32]) -> (good: bool)
    ensures
        good == ed25519_verifies(signature@, message@, public@),
{
    sp_core::ed25519::Pair::verify(
        &sp_core::ed25519::Signature::from_raw(*signature),
        message,
        &sp_core::ed25519::Public::from_raw(*public),
    )
}

} // verus!
