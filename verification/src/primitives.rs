//! The values that validation works on: hashes, keys, duties, candidates and messages.

use vstd::prelude::*;

use crate::hashing::{blake2_256, blake2_256_digest};

verus! {

/// A hash of a block or of a candidate.
pub type H256 = [u8; 32];

/// The number of a relay chain block.
pub type BlockNumber = u64;

/// The public key with which an authority signs statements in a session.
pub type SessionKey = [u8; 32];

/// The public key that identifies an authority.
pub type AuthorityId = [u8; 32];

/// A signature on a candidate or on a statement about one.
pub type CollatorSignature = [u8; 64];

/// The identifier of a parachain.
pub type ParaId = u32;

/// The chain that a validator is assigned to.
#[derive(Debug, Clone, Copy, PartialEq, Eq)]
pub enum Chain {
    /// The relay chain.
    Relay,
    /// A parachain of the given identifier.
    Parachain(ParaId),
}

/// The assignment of validators to chains: entry `i` is the duty of authority `i`.
#[derive(Debug, Clone, PartialEq, Eq)]
pub struct DutyRoster {
    pub validator_duty: Vec<Chain>,
}

/// A message that a parachain has received.
#[derive(Debug, PartialEq, Eq)]
pub struct Message(pub Vec<u8>);

/// A message from one parachain to another.
#[derive(Debug, PartialEq, Eq)]
pub struct OutgoingMessage {
    /// The parachain that the message is for.
    pub target: ParaId,
    /// The content of the message.
    pub data: Vec<u8>,
}

/// What an [`OutgoingMessage`] says: its target and its bytes.
#[verifier::ext_equal]
pub struct OutgoingMessageView {
    pub target: ParaId,
    pub data: Seq<u8>,
}

impl View for OutgoingMessage {
    type V = OutgoingMessageView;

    open spec fn view(&self) -> OutgoingMessageView {
        OutgoingMessageView { target: self.target, data: self.data@ }
    }
}

impl Clone for OutgoingMessage {
    fn clone(&self) -> (copy: Self)
        ensures
            copy@ == self@,
            copy.target == self.target,
            copy.data@ == self.data@,
    {
        let data = copy_bytes(&self.data);
        OutgoingMessage { target: self.target, data }
    }
}

/// The data that executing a candidate produces beside the candidate itself.
#[derive(Debug, PartialEq, Eq)]
pub struct ParachainExtrinsic {
    /// The messages that the candidate sends to other parachains.
    pub outgoing_messages: Vec<OutgoingMessage>,
}

impl View for ParachainExtrinsic {
    type V = Seq<OutgoingMessageView>;

    open spec fn view(&self) -> Seq<OutgoingMessageView> {
        self.outgoing_messages@.map_values(|m: OutgoingMessage| m@)
    }
}

impl Clone for ParachainExtrinsic {
    fn clone(&self) -> (copy: Self)
        ensures
            copy@ == self@,
            copy.outgoing_messages@.len() == self.outgoing_messages@.len(),
            forall|i: int|
                0 <= i < self.outgoing_messages@.len() ==> (
                #[trigger] copy.outgoing_messages@[i]).target == self.outgoing_messages@[i].target
                    && copy.outgoing_messages@[i].data@ == self.outgoing_messages@[i].data@,
    {
        let mut messages: Vec<OutgoingMessage> = Vec::new();
        for i in 0..self.outgoing_messages.len()
            invariant
                messages@.len() == i,
                forall|j: int|
                    0 <= j < i ==> (#[trigger] messages@[j])@ == self.outgoing_messages@[j]@
                        && messages@[j].target == self.outgoing_messages@[j].target
                        && messages@[j].data@ == self.outgoing_messages@[j].data@,
        {
            messages.push(self.outgoing_messages[i].clone());
        }
        let copy = ParachainExtrinsic { outgoing_messages: messages };
        assert(copy@ =~= self@);
        copy
    }
}

/// Incoming messages; a series of sorted (ParaId, Message) pairs.
pub type Incoming = Vec<(ParaId, Vec<Message>)>;

/// Outgoing messages from various candidates.
pub type Outgoing = Vec<MessagesFrom>;

/// Some messages from a parachain.
#[derive(Debug, PartialEq, Eq)]
pub struct MessagesFrom {
    /// The parachain originating the messages.
    pub from: ParaId,
    /// The messages themselves.
    pub messages: ParachainExtrinsic,
}

impl MessagesFrom {
    /// Construct from the raw messages.
    pub fn from_messages(from: ParaId, messages: Vec<OutgoingMessage>) -> (res: Self)
        ensures
            res.from == from,
            res.messages.outgoing_messages == messages,
    {
        MessagesFrom { from, messages: ParachainExtrinsic { outgoing_messages: messages } }
    }
}

/// A candidate for inclusion, as its collator describes it.
///
/// The receipt is kept in its encoded form, which is what is signed and hashed, next to the
/// parachain that it is for.
#[derive(Debug, PartialEq, Eq)]
pub struct CandidateReceipt {
    /// The parachain that this is a candidate for.
    pub parachain_index: ParaId,
    /// The SCALE encoding of the whole receipt.
    pub encoded: Vec<u8>,
}

impl CandidateReceipt {
    /// The hash that identifies the candidate: the Blake2b-256 digest of its encoding.
    pub fn hash(&self) -> (hash: H256)
        ensures
            hash@ == blake2_256_digest(self.encoded@),
    {
        blake2_256(self.encoded.as_slice())
    }
}

impl Clone for CandidateReceipt {
    fn clone(&self) -> (copy: Self)
        ensures
            copy.parachain_index == self.parachain_index,
            copy.encoded@ == self.encoded@,
    {
        CandidateReceipt {
            parachain_index: self.parachain_index,
            encoded: copy_bytes(&self.encoded),
        }
    }
}

/// The block that proves a candidate valid.
#[derive(Debug, PartialEq, Eq)]
pub struct PoVBlock {
    /// The raw block data.
    pub block_data: Vec<u8>,
}

/// A candidate with the block that proves it.
#[derive(Debug, PartialEq, Eq)]
pub struct Collation {
    /// The candidate.
    pub receipt: CandidateReceipt,
    /// Its proof-of-validity block.
    pub pov: PoVBlock,
}

impl Clone for PoVBlock {
    fn clone(&self) -> (copy: Self)
        ensures
            copy.block_data@ == self.block_data@,
    {
        PoVBlock { block_data: copy_bytes(&self.block_data) }
    }
}

impl Clone for Collation {
    fn clone(&self) -> (copy: Self)
        ensures
            copy.receipt.parachain_index == self.receipt.parachain_index,
            copy.receipt.encoded@ == self.receipt.encoded@,
            copy.pov.block_data@ == self.pov.block_data@,
    {
        Collation { receipt: self.receipt.clone(), pov: self.pov.clone() }
    }
}

/// Whether two 32-byte values, hashes or keys, are the same.
pub fn same_bytes(a: &[u8; 32], b: &[u8; 32]) -> (same: bool)
    ensures
        same == (*a == *b),
{
    for i in 0..32usize
        invariant
            forall|j: int| 0 <= j < i ==> a[j] == b[j],
    {
        if a[i] != b[i] {
            return false;
        }
    }
    assert(*a =~= *b);
    true
}

/// A vector with the same bytes.
pub(crate) fn copy_bytes(bytes: &Vec<u8>) -> (copy: Vec<u8>)
    ensures
        copy@ == bytes@,
{
    let mut copy: Vec<u8> = Vec::new();
    copy.extend_from_slice(bytes.as_slice());
    assert(copy@ =~= bytes@);
    copy
}

/// Two extrinsics that look the same have the same messages: as many, and each with the same
/// target and the same bytes, in the same order.
pub proof fn lemma_same_extrinsic(a: ParachainExtrinsic, b: ParachainExtrinsic)
    requires
        a@ == b@,
    ensures
        a.outgoing_messages@.len() == b.outgoing_messages@.len(),
        forall|i: int|
            0 <= i < a.outgoing_messages@.len() ==> (#[trigger] a.outgoing_messages@[i]).target
                == b.outgoing_messages@[i].target,
        forall|i: int|
            0 <= i < a.outgoing_messages@.len() ==> (#[trigger] a.outgoing_messages@[i]).data@
                == b.outgoing_messages@[i].data@,
{
    assert(a@.len() == a.outgoing_messages@.len());
    assert(b@.len() == b.outgoing_messages@.len());
    assert forall|i: int| 0 <= i < a.outgoing_messages@.len() implies (
    #[trigger] a.outgoing_messages@[i])@ == b.outgoing_messages@[i]@ by {
        assert(a@[i] == a.outgoing_messages@[i]@);
        assert(b@[i] == b.outgoing_messages@[i]@);
    }
}

} // verus!
