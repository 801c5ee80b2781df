//! The proposer of relay chain blocks: how a proposal is set up.

use vstd::prelude::*;

use crate::ed25519::{ed25519_public_key, Pair};
use crate::error::Error;
use crate::primitives::{BlockNumber, H256};
use crate::sessions::SessionRequest;
use crate::timing::ProposalTiming;

verus! {

/// The time between two attempts to propose, in nanoseconds.
pub const ATTEMPT_PROPOSE_EVERY: u128 = 100_000_000;

/// Wait up to this fraction of the slot for candidates.
pub const SLOT_DURATION_DENOMINATOR: u64 = 3;

/// This fraction of the time for a proposal is left for its finalisation.
pub const FINALISATION_DENOMINATOR: u128 = 3;

/// The time until the first wakeup where the candidates are sufficient from the start, in
/// nanoseconds.
pub const SHORTEST_WAKEUP: u128 = 1_000_000;

/// What the local authority brings to every block that it proposes.
pub struct ProposerFactory {
    /// The key that the authority signs with.
    pub key: Pair,
    /// The duration of a slot, in seconds.
    pub aura_slot_duration: u64,
    /// The largest block data that a collation may have, if there is a limit.
    pub max_block_data_size: Option<u64>,
}

/// The header of the block to build on, as far as a proposal depends on it.
pub struct ParentHeader {
    /// The hash of the block.
    pub hash: H256,
    /// The hash of its parent.
    pub parent_hash: H256,
    /// Its number.
    pub number: BlockNumber,
}

impl ProposerFactory {
    /// Create a new proposer factory.
    pub fn new(key: Pair, aura_slot_duration: u64, max_block_data_size: Option<u64>) -> (factory:
        Self)
        ensures
            factory.key == key,
            factory.aura_slot_duration == aura_slot_duration,
            factory.max_block_data_size == max_block_data_size,
    {
        ProposerFactory { key, aura_slot_duration, max_block_data_size }
    }

    /// Prepare to propose on top of a block: the session to get or to start, and the proposer
    /// to use once it runs.
    pub fn init(&self, parent_header: &ParentHeader) -> (prepared: (SessionRequest, Proposer))
        ensures
            prepared.0.parent_hash == parent_header.hash,
            prepared.0.grandparent_hash == parent_header.parent_hash,
            prepared.0.sign_with == self.key,
            prepared.0.local_id@ == ed25519_public_key(self.key.seed@),
            prepared.0.max_block_data_size == self.max_block_data_size,
            prepared.1.parent_hash == parent_header.hash,
            prepared.1.parent_number == parent_header.number,
            prepared.1.slot_duration == self.aura_slot_duration,
    {
        let request = SessionRequest::new(
            parent_header.hash,
            parent_header.parent_hash,
            self.key,
            self.max_block_data_size,
        );
        let proposer = Proposer {
            parent_hash: parent_header.hash,
            parent_number: parent_header.number,
            slot_duration: self.aura_slot_duration,
        };
        (request, proposer)
    }
}

/// The Polkadot proposer logic.
pub struct Proposer {
    /// The hash of the block to build on.
    pub parent_hash: H256,
    /// The number of that block.
    pub parent_number: BlockNumber,
    /// The duration of a slot, in seconds.
    pub slot_duration: u64,
}

/// What is seen of the world as a proposal is set up.
pub struct Observed {
    /// The number of includable candidates.
    pub initial_included: usize,
    /// The time after which that many candidates are enough, in nanoseconds; `None` if they are
    /// sufficient now.
    pub acceptable_in: Option<u128>,
    /// The timestamp of the inherent data, in seconds, or why it could not be read.
    pub believed_timestamp: Result<u64, String>,
    /// The current time, in seconds.
    pub current_timestamp: u64,
    /// The time allowed for the whole proposal, in nanoseconds.
    pub max_duration: u128,
}

/// The delays that a proposal waits for.
#[derive(Debug, Clone, Copy, PartialEq, Eq)]
pub struct ProposalDelays {
    /// The time until the believed timestamp, in seconds, if it lies ahead.
    pub minimum: Option<u64>,
    /// The time between two attempts, in nanoseconds.
    pub attempt_propose: u128,
    /// The time until there are enough candidates, in nanoseconds.
    pub enough_candidates: u128,
}

/// A proposal on its way. `I` is the inherent data, which making the block uses up.
pub struct CreateProposal<I> {
    pub parent_hash: H256,
    pub parent_number: BlockNumber,
    /// The state of the timing.
    pub timing: ProposalTiming,
    /// The delays to start with.
    pub delays: ProposalDelays,
    /// The timestamp that the block must not be older than, in seconds.
    pub believed_minimum_timestamp: u64,
    pub inherent_data: Option<I>,
    /// The time after which no more transactions are added, in nanoseconds from the creation of
    /// the proposal.
    pub deadline: u128,
}

/// The delay until the next allowed timestamp, if it lies ahead.
pub open spec fn minimum_delay(current: u64, believed: u64) -> Option<u64> {
    if current >= believed {
        None
    } else {
        Some((believed - current) as u64)
    }
}

impl Proposer {
    /// The time to wait for candidates before an empty block is allowed, in seconds: a part of
    /// the slot.
    pub fn inclusion_window(&self) -> (seconds: u64)
        ensures
            seconds == self.slot_duration / SLOT_DURATION_DENOMINATOR,
            3 * seconds <= self.slot_duration < 3 * seconds + 3,
    {
        self.slot_duration / SLOT_DURATION_DENOMINATOR
    }

    /// Set up a proposal, or say why the inherent data cannot be used.
    pub fn propose<I>(&self, inherent_data: I, observed: Observed) -> (proposal: Result<
        CreateProposal<I>,
        Error,
    >)
        ensures
            match observed.believed_timestamp {
                Err(message) => proposal == Err::<CreateProposal<I>, Error>(
                    Error::InherentError(message),
                ),
                Ok(believed) => {
                    &&& proposal matches Ok(created)
                    &&& created.parent_hash == self.parent_hash
                    &&& created.parent_number == self.parent_number
                    &&& created.inherent_data == Some(inherent_data)
                    &&& created.believed_minimum_timestamp == believed
                    &&& created.delays.minimum == minimum_delay(
                        observed.current_timestamp,
                        believed,
                    )
                    &&& created.delays.attempt_propose == ATTEMPT_PROPOSE_EVERY
                    &&& created.delays.enough_candidates == match observed.acceptable_in {
                        Some(delay) => delay,
                        None => SHORTEST_WAKEUP,
                    }
                    &&& created.timing.minimum == (observed.current_timestamp < believed)
                    &&& created.timing.last_included == observed.initial_included
                    &&& created.deadline == observed.max_duration - observed.max_duration
                        / FINALISATION_DENOMINATOR
                    &&& 3 * (observed.max_duration - created.deadline) <= observed.max_duration
                    &&& observed.max_duration < 3 * (observed.max_duration - created.deadline) + 3
                    &&& created.delays.attempt_propose == 100_000_000
                    &&& observed.acceptable_in is None ==> created.delays.enough_candidates
                        == 1_000_000
                    &&& match created.delays.minimum {
                        Some(delay) => observed.current_timestamp < believed
                            && observed.current_timestamp + delay == believed,
                        None => believed <= observed.current_timestamp,
                    }
                    &&& created.timing.minimum <==> created.delays.minimum is Some
                },
            },
    {
        let enough_candidates: u128 = match observed.acceptable_in {
            Some(delay) => delay,
            None => SHORTEST_WAKEUP,
        };
        let believed = match observed.believed_timestamp {
            Ok(timestamp) => timestamp,
            Err(message) => return Err(Error::InherentError(message)),
        };
        let minimum: Option<u64> = if observed.current_timestamp >= believed {
            None
        } else {
            Some(believed - observed.current_timestamp)
        };
        Ok(
            CreateProposal {
                parent_hash: self.parent_hash,
                parent_number: self.parent_number,
                timing: ProposalTiming {
                    minimum: minimum.is_some(),
                    last_included: observed.initial_included,
                },
                delays: ProposalDelays {
                    minimum,
                    attempt_propose: ATTEMPT_PROPOSE_EVERY,
                    enough_candidates,
                },
                believed_minimum_timestamp: believed,
                inherent_data: Some(inherent_data),
                deadline: observed.max_duration - observed.max_duration / FINALISATION_DENOMINATOR,
            },
        )
    }
}

/// Waiting for the minimum delay takes one exactly to the believed timestamp, and there is no
/// delay where that is not ahead.
pub proof fn lemma_minimum_delay_reaches_timestamp(current: u64, believed: u64)
    ensures
        current < believed ==> minimum_delay(current, believed) is Some && current + minimum_delay(
            current,
            believed,
        )->0 == believed,
        believed <= current ==> minimum_delay(current, believed) is None,
{
}

/// The fixed times of a proposal: an attempt every tenth of a second, a third of the slot for
/// candidates, a third of the allowed time for finalisation, and a wakeup after a thousandth of a
/// second where the candidates are sufficient from the start.
pub proof fn lemma_fixed_times()
    ensures
        10 * ATTEMPT_PROPOSE_EVERY == 1_000_000_000,
        SLOT_DURATION_DENOMINATOR == 3,
        FINALISATION_DENOMINATOR == 3,
        1_000 * SHORTEST_WAKEUP == 1_000_000_000,
{
}

} // verus!
