//! The work of a validator on its own parachain: fetch a collation, make its data available,
//! and hand it to the statement table.
//!
//! As with sessions, each stage takes the outcome of one piece of outside work and gives the
//! next stage. A stage that gives `None` ends the work: what failed is logged, and nothing else
//! depends on it.

use vstd::prelude::*;

use crate::hashing::blake2_256_digest;
use crate::primitives::{
    copy_bytes, lemma_same_extrinsic, Collation, H256, ParaId, ParachainExtrinsic,
};

verus! {

/// Work that waits for the router of its statement table.
#[derive(Debug, PartialEq, Eq)]
pub struct CollationWork {
    /// The relay chain block that the work is for.
    pub relay_parent: H256,
    /// The parachain to collate for.
    pub validation_para: ParaId,
    /// The largest block data that a collation may have, if there is a limit.
    pub max_block_data_size: Option<u64>,
}

/// Work that waits for a collation from connected collators.
pub struct AwaitingCollation {
    /// The work that the collation is for.
    pub work: CollationWork,
}

/// Work that waits for its collation's data to be stored.
pub struct AwaitingStorage {
    pub collation: Collation,
    pub extrinsic: ParachainExtrinsic,
}

/// Data about a candidate that has to be kept available.
pub struct AvailableData {
    /// The relay chain block that the candidate is for.
    pub relay_parent: H256,
    /// The parachain of the candidate.
    pub parachain_id: ParaId,
    /// The hash that identifies the candidate.
    pub candidate_hash: H256,
    /// The candidate's block data.
    pub block_data: Vec<u8>,
    /// The candidate's extrinsic data, if it is known.
    pub extrinsic: Option<ParachainExtrinsic>,
}

impl AvailableData {
    /// Whether this is the data of the given collation and extrinsic at the given relay chain
    /// block.
    pub open spec fn belongs_to(
        self,
        relay_parent: H256,
        collation: Collation,
        extrinsic: ParachainExtrinsic,
    ) -> bool {
        &&& self.relay_parent == relay_parent
        &&& self.parachain_id == collation.receipt.parachain_index
        &&& self.candidate_hash@ == blake2_256_digest(collation.receipt.encoded@)
        &&& self.block_data@ == collation.pov.block_data@
        &&& self.extrinsic matches Some(kept) && kept@ == extrinsic@
    }
}

impl CollationWork {
    /// The router is there, or could not be built.
    pub fn router_built(self, built: Result<(), String>) -> (next: Option<AwaitingCollation>)
        ensures
            match built {
                Ok(_) => next == Some(AwaitingCollation { work: self }),
                Err(_) => next is None,
            },
    {
        match built {
            Ok(_) => Some(AwaitingCollation { work: self }),
            Err(_) => None,
        }
    }
}

impl AwaitingCollation {
    /// A collation has arrived: its data is to be made available first. Or none could be had.
    pub fn collation_fetched(
        self,
        fetched: Result<(Collation, ParachainExtrinsic), String>,
    ) -> (next: Option<(AvailableData, AwaitingStorage)>)
        ensures
            match fetched {
                Ok((collation, extrinsic)) => {
                    &&& next matches Some((data, stage))
                    &&& data.belongs_to(self.work.relay_parent, collation, extrinsic)
                    &&& data.extrinsic matches Some(kept)
                    &&& kept.outgoing_messages@.len() == extrinsic.outgoing_messages@.len()
                    &&& forall|i: int|
                        0 <= i < kept.outgoing_messages@.len() ==> (
                        #[trigger] kept.outgoing_messages@[i]).target
                            == extrinsic.outgoing_messages@[i].target
                            && kept.outgoing_messages@[i].data@
                            == extrinsic.outgoing_messages@[i].data@
                    &&& stage.collation == collation
                    &&& stage.extrinsic == extrinsic
                },
                Err(_) => next is None,
            },
    {
        match fetched {
            Ok((collation, extrinsic)) => {
                let data = AvailableData {
                    relay_parent: self.work.relay_parent,
                    parachain_id: collation.receipt.parachain_index,
                    candidate_hash: collation.receipt.hash(),
                    block_data: copy_bytes(&collation.pov.block_data),
                    extrinsic: Some(extrinsic.clone()),
                };
                Some((data, AwaitingStorage { collation, extrinsic }))
            },
            Err(_) => None,
        }
    }
}

impl AwaitingStorage {
    /// The data is stored: the collation, with its extrinsic, is to be handed to the router.
    /// Where storing failed it is not.
    pub fn stored(self, outcome: Result<(), String>) -> (local: Option<
        (Collation, ParachainExtrinsic),
    >)
        ensures
            match outcome {
                Ok(_) => local == Some((self.collation, self.extrinsic)),
                Err(_) => local is None,
            },
    {
        match outcome {
            Ok(_) => Some((self.collation, self.extrinsic)),
            Err(_) => None,
        }
    }
}

/// The data that is kept for a collation is all of it: the relay chain block, the parachain and
/// the digest of the receipt, every byte of the block data, and every outgoing message with its
/// target and its bytes, in order.
pub proof fn lemma_available_data_is_whole(
    data: AvailableData,
    relay_parent: H256,
    collation: Collation,
    extrinsic: ParachainExtrinsic,
)
    requires
        data.belongs_to(relay_parent, collation, extrinsic),
    ensures
        data.relay_parent == relay_parent,
        data.parachain_id == collation.receipt.parachain_index,
        data.candidate_hash@ == blake2_256_digest(collation.receipt.encoded@),
        data.block_data@.len() == collation.pov.block_data@.len(),
        forall|i: int|
            0 <= i < data.block_data@.len() ==> #[trigger] data.block_data@[i]
                == collation.pov.block_data@[i],
        data.extrinsic is Some,
        data.extrinsic->0.outgoing_messages@.len() == extrinsic.outgoing_messages@.len(),
        forall|i: int|
            0 <= i < extrinsic.outgoing_messages@.len() ==> (
            #[trigger] data.extrinsic->0.outgoing_messages@[i]).target
                == extrinsic.outgoing_messages@[i].target,
        forall|i: int|
            0 <= i < extrinsic.outgoing_messages@.len() ==> (
            #[trigger] data.extrinsic->0.outgoing_messages@[i]).data@
                == extrinsic.outgoing_messages@[i].data@,
{
    lemma_same_extrinsic(data.extrinsic->0, extrinsic);
}

} // verus!
