//! Statements about candidates, and signatures on them.

use vstd::prelude::*;

use crate::codec::encode_tagged_hash;
use crate::ed25519;
use crate::ed25519::{ed25519_public_key, ed25519_signature, ed25519_verifies, Pair};
use crate::primitives::{CandidateReceipt, CollatorSignature, H256, SessionKey};

verus! {

/// A statement about a candidate `C`, or about the candidate that a digest `D` identifies.
#[derive(Debug, PartialEq, Eq)]
pub enum GenericStatement<C, D> {
    /// Broadcast by an authority to propose its candidate.
    Candidate(C),
    /// The candidate is valid.
    Valid(D),
    /// The candidate is invalid.
    Invalid(D),
}

impl<C: Clone, D: Clone> Clone for GenericStatement<C, D> {
    fn clone(&self) -> (copy: Self)
        ensures
            match (*self, copy) {
                (GenericStatement::Candidate(a), GenericStatement::Candidate(b)) => cloned::<C>(
                    a,
                    b,
                ),
                (GenericStatement::Valid(a), GenericStatement::Valid(b)) => cloned::<D>(a, b),
                (GenericStatement::Invalid(a), GenericStatement::Invalid(b)) => cloned::<D>(a, b),
                _ => false,
            },
    {
        match self {
            GenericStatement::Candidate(candidate) => GenericStatement::Candidate(
                candidate.clone(),
            ),
            GenericStatement::Valid(digest) => GenericStatement::Valid(digest.clone()),
            GenericStatement::Invalid(digest) => GenericStatement::Invalid(digest.clone()),
        }
    }
}

/// A statement about a parachain candidate.
pub type Statement = GenericStatement<CandidateReceipt, H256>;

/// The index of [`GenericStatement::Candidate`] in the encoding that the runtime expects.
pub const CANDIDATE_INDEX: u8 = 1;

/// The index of [`GenericStatement::Valid`] in the encoding that the runtime expects.
pub const VALID_INDEX: u8 = 2;

/// The index of [`GenericStatement::Invalid`] in the encoding that the runtime expects.
pub const INVALID_INDEX: u8 = 3;

/// The encoding of a statement: the index of its variant, then what it is about.
pub open spec fn encoded_statement(statement: Statement) -> Seq<u8> {
    match statement {
        GenericStatement::Candidate(receipt) => seq![CANDIDATE_INDEX] + receipt.encoded@,
        GenericStatement::Valid(hash) => seq![VALID_INDEX] + hash@,
        GenericStatement::Invalid(hash) => seq![INVALID_INDEX] + hash@,
    }
}

/// The message that is signed: the encoded statement concatenated with the parent hash.
pub open spec fn signed_message(statement: Statement, parent_hash: H256) -> Seq<u8> {
    encoded_statement(statement) + parent_hash@
}

/// Whether `signature` is `signer`'s on the statement, made against the parent hash.
pub open spec fn statement_signed(
    statement: Statement,
    signature: CollatorSignature,
    signer: Seq<u8>,
    parent_hash: H256,
) -> bool {
    ed25519_verifies(signature@, signed_message(statement, parent_hash), signer)
}

/// Whether two statements say the same: they are of the same kind, and about the same encoded
/// receipt or the same hash.
pub open spec fn same_statement(a: Statement, b: Statement) -> bool {
    match (a, b) {
        (GenericStatement::Candidate(x), GenericStatement::Candidate(y)) => x.encoded@
            == y.encoded@,
        (GenericStatement::Valid(x), GenericStatement::Valid(y)) => x == y,
        (GenericStatement::Invalid(x), GenericStatement::Invalid(y)) => x == y,
        _ => false,
    }
}

/// The bytes that are signed for a statement made against a parent hash.
pub fn statement_message(statement: &Statement, parent_hash: &H256) -> (message: Vec<u8>)
    ensures
        message@ == signed_message(*statement, *parent_hash),
{
    let mut encoded: Vec<u8> = match statement {
        GenericStatement::Candidate(receipt) => {
            let mut bytes: Vec<u8> = Vec::new();
            bytes.push(CANDIDATE_INDEX);
            bytes.extend_from_slice(receipt.encoded.as_slice());
            assert(bytes@ =~= seq![CANDIDATE_INDEX] + receipt.encoded@);
            bytes
        },
        GenericStatement::Valid(hash) => encode_tagged_hash(VALID_INDEX, hash),
        GenericStatement::Invalid(hash) => encode_tagged_hash(INVALID_INDEX, hash),
    };
    let ghost before = encoded@;
    encoded.extend_from_slice(parent_hash.as_slice());
    assert(encoded@ =~= before + parent_hash@);
    encoded
}

/// Sign a table statement against a parent hash.
/// The actual message signed is the encoded statement concatenated with the
/// parent hash.
///
/// [`check_statement`] accepts the signature for the public key of `key`, on the same
/// statement and parent hash.
pub fn sign_table_statement(statement: &Statement, key: &Pair, parent_hash: &H256) -> (signature:
    CollatorSignature)
    ensures
        signature@ == ed25519_signature(key.seed@, signed_message(*statement, *parent_hash)),
        statement_signed(*statement, signature, ed25519_public_key(key.seed@), *parent_hash),
{
    let message = statement_message(statement, parent_hash);
    ed25519::sign(&key.seed, message.as_slice())
}

/// Check signature on table statement.
pub fn check_statement(
    statement: &Statement,
    signature: &CollatorSignature,
    signer: SessionKey,
    parent_hash: &H256,
) -> (good: bool)
    ensures
        good == statement_signed(*statement, *signature, signer@, *parent_hash),
{
    let message = statement_message(statement, parent_hash);
    ed25519::verify(signature, message.as_slice(), &signer)
}

/// A signed message determines what was signed: two statements with the same message were made
/// against the same parent hash and say the same.
pub proof fn lemma_message_determines_statement(
    a: Statement,
    a_parent: H256,
    b: Statement,
    b_parent: H256,
)
    requires
        signed_message(a, a_parent) == signed_message(b, b_parent),
    ensures
        a_parent == b_parent,
        same_statement(a, b),
{
    let m = signed_message(a, a_parent);
    let n = signed_message(b, b_parent);
    let cut = m.len() - 32;
    assert(m.subrange(cut, m.len() as int) =~= a_parent@);
    assert(n.subrange(cut, n.len() as int) =~= b_parent@);
    assert forall|i: int| 0 <= i < 32 implies a_parent[i] == b_parent[i] by {
        assert(a_parent@[i] == b_parent@[i]);
    }
    assert(a_parent =~= b_parent);
    assert(m.subrange(0, cut) =~= encoded_statement(a));
    assert(n.subrange(0, cut) =~= encoded_statement(b));
    let x = encoded_statement(a);
    let y = encoded_statement(b);
    assert(x[0] == y[0]);
    match (a, b) {
        (GenericStatement::Candidate(p), GenericStatement::Candidate(q)) => {
            assert(x.subrange(1, cut) =~= p.encoded@);
            assert(y.subrange(1, cut) =~= q.encoded@);
        },
        (GenericStatement::Valid(p), GenericStatement::Valid(q)) => {
            lemma_tagged_hash_determines_hash(VALID_INDEX, p, q);
        },
        (GenericStatement::Invalid(p), GenericStatement::Invalid(q)) => {
            lemma_tagged_hash_determines_hash(INVALID_INDEX, p, q);
        },
        _ => {},
    }
}

proof fn lemma_tagged_hash_determines_hash(index: u8, p: H256, q: H256)
    requires
        seq![index] + p@ == seq![index] + q@,
    ensures
        p == q,
{
    let x = seq![index] + p@;
    let y = seq![index] + q@;
    assert forall|i: int| 0 <= i < 32 implies p[i] == q[i] by {
        assert(x[i + 1] == p@[i]);
        assert(y[i + 1] == q@[i]);
    }
    assert(p =~= q);
}

/// The layout of a signed message, byte by byte. It starts with 1 for a candidate, 2 for a valid
/// and 3 for an invalid one; then come the bytes of the receipt or of the hash, and last the 32
/// bytes of the parent hash, all in their own order, with nothing between or after.
pub proof fn lemma_message_layout(statement: Statement, parent_hash: H256)
    ensures
        statement matches GenericStatement::Candidate(receipt) ==> {
            let message = signed_message(statement, parent_hash);
            let size = receipt.encoded@.len();
            &&& message.len() == size + 33
            &&& message[0] == 1
            &&& forall|i: int| 0 <= i < size ==> message[i + 1] == #[trigger] receipt.encoded@[i]
            &&& forall|i: int| 0 <= i < 32 ==> message[size + 1 + i] == #[trigger] parent_hash@[i]
        },
        statement matches GenericStatement::Valid(hash) ==> {
            let message = signed_message(statement, parent_hash);
            &&& message.len() == 65
            &&& message[0] == 2
            &&& forall|i: int| 0 <= i < 32 ==> message[i + 1] == #[trigger] hash@[i]
            &&& forall|i: int| 0 <= i < 32 ==> message[i + 33] == #[trigger] parent_hash@[i]
        },
        statement matches GenericStatement::Invalid(hash) ==> {
            let message = signed_message(statement, parent_hash);
            &&& message.len() == 65
            &&& message[0] == 3
            &&& forall|i: int| 0 <= i < 32 ==> message[i + 1] == #[trigger] hash@[i]
            &&& forall|i: int| 0 <= i < 32 ==> message[i + 33] == #[trigger] parent_hash@[i]
        },
{
}

/// A signature on a statement of validity is one on the bytes 2, the hash and the parent hash;
/// one on a statement of invalidity, on the same with 3 in front. Whoever accepts the one for a
/// signer accepts the other.
pub proof fn lemma_vote_signature(
    hash: H256,
    valid: bool,
    signature: CollatorSignature,
    signer: Seq<u8>,
    parent_hash: H256,
    bytes: Seq<u8>,
)
    requires
        bytes.len() == 65,
        bytes[0] == if valid { 2u8 } else { 3u8 },
        bytes.subrange(1, 33) == hash@,
        bytes.subrange(33, 65) == parent_hash@,
    ensures
        valid ==> (statement_signed(
            GenericStatement::Valid(hash),
            signature,
            signer,
            parent_hash,
        ) <==> ed25519_verifies(signature@, bytes, signer)),
        !valid ==> (statement_signed(
            GenericStatement::Invalid(hash),
            signature,
            signer,
            parent_hash,
        ) <==> ed25519_verifies(signature@, bytes, signer)),
{
    assert forall|i: int| 0 <= i < 32 implies bytes[i + 1] == hash@[i] && bytes[i + 33]
        == parent_hash@[i] by {
        assert(bytes.subrange(1, 33)[i] == hash@[i]);
        assert(bytes.subrange(33, 65)[i] == parent_hash@[i]);
    }
    let statement: Statement = if valid {
        GenericStatement::Valid(hash)
    } else {
        GenericStatement::Invalid(hash)
    };
    let message = signed_message(statement, parent_hash);
    lemma_message_layout(statement, parent_hash);
    assert forall|k: int| 0 <= k < 65 implies message[k] == bytes[k] by {
        if 1 <= k < 33 {
            assert(bytes[(k - 1) + 1] == hash@[k - 1]);
        } else if 33 <= k {
            assert(bytes[(k - 33) + 33] == parent_hash@[k - 33]);
        }
    }
    assert(message =~= bytes);
}

/// A signature on a candidate is one on the byte 1, the receipt's bytes and the parent hash.
/// Whoever accepts the one for a signer accepts the other.
pub proof fn lemma_candidate_signature(
    receipt: CandidateReceipt,
    signature: CollatorSignature,
    signer: Seq<u8>,
    parent_hash: H256,
    bytes: Seq<u8>,
)
    requires
        bytes.len() == receipt.encoded@.len() + 33,
        bytes[0] == 1,
        bytes.subrange(1, bytes.len() - 32) == receipt.encoded@,
        bytes.subrange(bytes.len() - 32, bytes.len() as int) == parent_hash@,
    ensures
        statement_signed(GenericStatement::Candidate(receipt), signature, signer, parent_hash)
            <==> ed25519_verifies(signature@, bytes, signer),
{
    let size = receipt.encoded@.len() as int;
    let statement: Statement = GenericStatement::Candidate(receipt);
    let message = signed_message(statement, parent_hash);
    lemma_message_layout(statement, parent_hash);
    assert forall|k: int| 0 <= k < message.len() implies message[k] == bytes[k] by {
        if 1 <= k <= size {
            assert(bytes.subrange(1, bytes.len() - 32)[k - 1] == receipt.encoded@[k - 1]);
        } else if size < k {
            let i = k - size - 1;
            assert(bytes.subrange(bytes.len() - 32, bytes.len() as int)[i] == parent_hash@[i]);
        }
    }
    assert(message =~= bytes);
}

} // verus!
