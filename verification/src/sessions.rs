//! Starting an attestation session on top of a relay chain block.
//!
//! A session needs answers of the runtime that arrive one after the other. Each stage below
//! holds what is known so far; handing it the next answer gives the next stage, or the error
//! with which the attempt ends. Nothing is recorded among the live instances before the last
//! stage, so an attempt that ends in an error leaves no trace.

use std::collections::HashMap;

use vstd::prelude::*;

use crate::collation_work::CollationWork;
use crate::ed25519::{ed25519_public_key, Pair};
use crate::error::Error;
use crate::groups::{
    are_groups, is_local_duty, last_position, lemma_group_votes, lemma_groups_are_the_assignments,
    lemma_local_duty_in_group, lemma_local_duty_is_the_last, lemma_local_duty_of_an_authority,
    make_group_info, GroupInfo, LocalDuty,
};
use crate::hashing::blake2_256_digest;
use crate::instances::LiveInstances;
use crate::primitives::{
    AuthorityId, CandidateReceipt, Chain, DutyRoster, H256, MessagesFrom, Outgoing,
    ParachainExtrinsic, ParaId,
};

verus! {

/// What a session is to be started for.
pub struct SessionRequest {
    /// The block to build on.
    pub parent_hash: H256,
    /// The parent of that block.
    pub grandparent_hash: H256,
    /// The key that the local authority signs with.
    pub sign_with: Pair,
    /// The public key of the local authority.
    pub local_id: AuthorityId,
    /// The largest block data that a collation may have, if there is a limit.
    pub max_block_data_size: Option<u64>,
}

impl SessionRequest {
    /// The local authority is the holder of the signing key.
    pub open spec fn wf(self) -> bool {
        self.local_id@ == ed25519_public_key(self.sign_with.seed@)
    }

    /// A request for the authority that signs with the given key.
    pub fn new(
        parent_hash: H256,
        grandparent_hash: H256,
        sign_with: Pair,
        max_block_data_size: Option<u64>,
    ) -> (request: Self)
        ensures
            request.wf(),
            request.local_id@ == ed25519_public_key(sign_with.seed@),
            request.parent_hash == parent_hash,
            request.grandparent_hash == grandparent_hash,
            request.sign_with == sign_with,
            request.max_block_data_size == max_block_data_size,
    {
        let local_id = sign_with.public();
        SessionRequest { parent_hash, grandparent_hash, sign_with, local_id, max_block_data_size }
    }
}

/// Whether a session is running already.
pub enum Lookup<'a, T> {
    /// This one runs on top of the parent.
    Live(&'a T),
    /// None does: one has to be started.
    Missing(AwaitingAuthorities),
}

/// Waiting for the authorities at the parent block.
pub struct AwaitingAuthorities {
    pub request: SessionRequest,
}

/// Waiting for the candidates that the parent block includes.
pub struct AwaitingCandidates {
    pub request: SessionRequest,
    pub authorities: Vec<AuthorityId>,
}

/// Waiting for the extrinsic data of the parent's candidates.
pub struct AwaitingExtrinsics {
    pub request: SessionRequest,
    pub authorities: Vec<AuthorityId>,
    /// The candidates of the parent block, as far as they are known.
    pub candidates: Vec<CandidateReceipt>,
}

/// Waiting for the duty roster at the parent block.
pub struct AwaitingRoster {
    pub request: SessionRequest,
    pub authorities: Vec<AuthorityId>,
    /// The messages of the parent's candidates, to be passed on to peers.
    pub outgoing: Outgoing,
}

/// Waiting for the parachains that are active at the parent block.
pub struct AwaitingParachains {
    pub start: SessionStart,
}

/// All that a session is started with.
pub struct SessionStart {
    pub request: SessionRequest,
    pub authorities: Vec<AuthorityId>,
    /// The messages of the parent's candidates, to be passed on to peers.
    pub outgoing: Outgoing,
    /// The group of each parachain.
    pub groups: HashMap<ParaId, GroupInfo>,
    /// The chain that the local authority is to check.
    pub local_duty: LocalDuty,
}

/// The candidates of the parent block: none where fetching them failed or where the block is
/// not known to have any.
pub open spec fn known_candidates(
    fetched: Result<Option<Vec<CandidateReceipt>>, String>,
) -> Seq<CandidateReceipt> {
    match fetched {
        Ok(Some(candidates)) => candidates@,
        _ => Seq::empty(),
    }
}

/// The messages of those candidates for which extrinsic data is held, in the order of the
/// candidates, each with the parachain that it comes from.
pub open spec fn messages_of(
    candidates: Seq<CandidateReceipt>,
    extrinsics: Seq<Option<ParachainExtrinsic>>,
) -> Seq<MessagesFrom>
    decreases candidates.len(),
{
    if candidates.len() == 0 {
        Seq::empty()
    } else {
        let earlier = messages_of(candidates.drop_last(), extrinsics);
        match extrinsics[candidates.len() - 1] {
            Some(messages) => earlier.push(
                MessagesFrom { from: candidates.last().parachain_index, messages },
            ),
            None => earlier,
        }
    }
}

impl SessionStart {
    /// The work to launch: for the parachain that is the local duty, at the parent block and
    /// within the size limit of the request; none where the duty is the relay chain.
    pub open spec fn work(self) -> Option<CollationWork> {
        match self.local_duty.validation {
            Chain::Parachain(id) => Some(
                CollationWork {
                    relay_parent: self.request.parent_hash,
                    validation_para: id,
                    max_block_data_size: self.request.max_block_data_size,
                },
            ),
            Chain::Relay => None,
        }
    }

    /// The groups and the local duty come from one roster with a duty for each authority.
    pub open spec fn wf(self) -> bool {
        exists|duties: Seq<Chain>| #[trigger] self.follows(duties)
    }

    /// The groups and the local duty are those of the given duties.
    pub open spec fn follows(self, duties: Seq<Chain>) -> bool {
        &&& duties.len() == self.authorities@.len()
        &&& are_groups(self.groups@, self.authorities@, duties)
        &&& is_local_duty(
            self.local_duty.validation,
            self.authorities@,
            duties,
            self.request.local_id,
        )
    }
}

/// The session that runs on top of a parent, if there is one.
pub open spec fn found_in<T>(live: Map<H256, T>, parent_hash: H256) -> Option<T> {
    if live.contains_key(parent_hash) {
        Some(live[parent_hash])
    } else {
        None
    }
}

/// Get the attestation session for a parent hash, or the first stage of starting one if none
/// has been started yet.
pub fn look_up<'a, T>(live: &'a LiveInstances<T>, request: SessionRequest) -> (found: Lookup<'a, T>)
    ensures
        match found {
            Lookup::Live(tracker) => {
                &&& found_in(live@, request.parent_hash) == Some(*tracker)
                &&& live@.contains_key(request.parent_hash)
                &&& live@[request.parent_hash] == *tracker
            },
            Lookup::Missing(stage) => {
                &&& found_in(live@, request.parent_hash) is None
                &&& !live@.contains_key(request.parent_hash)
                &&& stage.request == request
            },
        },
{
    match live.get(&request.parent_hash) {
        Some(tracker) => Lookup::Live(tracker),
        None => Lookup::Missing(AwaitingAuthorities { request }),
    }
}

impl AwaitingAuthorities {
    /// What follows the answer for the authorities.
    pub open spec fn leads_to(
        self,
        fetched: Result<Vec<AuthorityId>, String>,
        next: Result<AwaitingCandidates, Error>,
    ) -> bool {
        match fetched {
            Ok(authorities) => next == Ok::<AwaitingCandidates, Error>(
                AwaitingCandidates { request: self.request, authorities },
            ),
            Err(message) => next == Err::<AwaitingCandidates, Error>(Error::Client(message)),
        }
    }

    /// Go on with the authorities, or end with the error of fetching them.
    pub fn authorities(self, fetched: Result<Vec<AuthorityId>, String>) -> (next: Result<
        AwaitingCandidates,
        Error,
    >)
        ensures
            self.leads_to(fetched, next),
    {
        match fetched {
            Ok(authorities) => Ok(AwaitingCandidates { request: self.request, authorities }),
            Err(message) => Err(Error::Client(message)),
        }
    }
}

impl AwaitingCandidates {
    /// What follows the answer for the parent's candidates.
    pub open spec fn leads_to(
        self,
        fetched: Result<Option<Vec<CandidateReceipt>>, String>,
        next: AwaitingExtrinsics,
    ) -> bool {
        &&& next.request == self.request
        &&& next.authorities == self.authorities
        &&& next.candidates@ == known_candidates(fetched)
    }

    /// Go on with the parent's candidates, if they are known. That they cannot be had is no
    /// error: there is nothing to pass on then.
    pub fn parent_candidates(
        self,
        fetched: Result<Option<Vec<CandidateReceipt>>, String>,
    ) -> (next: AwaitingExtrinsics)
        ensures
            self.leads_to(fetched, next),
    {
        let candidates: Vec<CandidateReceipt> = match fetched {
            Ok(Some(candidates)) => candidates,
            _ => Vec::new(),
        };
        AwaitingExtrinsics { request: self.request, authorities: self.authorities, candidates }
    }
}

/// The messages to pass on, where the given extrinsic data is held; none where there was no
/// session to ask.
pub open spec fn messages_held(
    candidates: Seq<CandidateReceipt>,
    held: Option<Vec<Option<ParachainExtrinsic>>>,
) -> Seq<MessagesFrom> {
    match held {
        Some(extrinsics) => messages_of(candidates, extrinsics@),
        None => Seq::empty(),
    }
}

impl AwaitingExtrinsics {
    /// What follows the answer for the extrinsic data.
    pub open spec fn leads_to(
        self,
        held: Option<Vec<Option<ParachainExtrinsic>>>,
        next: AwaitingRoster,
    ) -> bool {
        &&& next.request == self.request
        &&& next.authorities == self.authorities
        &&& next.outgoing@ == messages_held(self.candidates@, held)
    }

    /// The session whose table is to be asked for extrinsic data, with the hashes of the
    /// candidates to ask for: the one on top of the grandparent, if it is live.
    pub fn extrinsic_queries<'a, T>(&self, live: &'a LiveInstances<T>) -> (queries: Option<
        (&'a T, Vec<H256>),
    >)
        ensures
            match queries {
                Some((tracker, hashes)) => {
                    &&& found_in(live@, self.request.grandparent_hash) == Some(*tracker)
                    &&& live@.contains_key(self.request.grandparent_hash)
                    &&& live@[self.request.grandparent_hash] == *tracker
                    &&& hashes@.len() == self.candidates@.len()
                    &&& forall|i: int|
                        0 <= i < hashes@.len() ==> (#[trigger] hashes@[i])@ == blake2_256_digest(
                            self.candidates@[i].encoded@,
                        )
                },
                None => {
                    &&& found_in(live@, self.request.grandparent_hash) is None
                    &&& !live@.contains_key(self.request.grandparent_hash)
                },
            },
    {
        match live.get(&self.request.grandparent_hash) {
            Some(tracker) => {
                let mut hashes: Vec<H256> = Vec::new();
                for i in 0..self.candidates.len()
                    invariant
                        hashes@.len() == i,
                        forall|j: int|
                            0 <= j < i ==> (#[trigger] hashes@[j])@ == blake2_256_digest(
                                self.candidates@[j].encoded@,
                            ),
                {
                    hashes.push(self.candidates[i].hash());
                }
                Some((tracker, hashes))
            },
            None => None,
        }
    }

    /// Go on with the extrinsic data of the candidates, entry `i` for candidate `i`; `None`
    /// where there was no session to ask.
    pub fn extrinsics(self, held: Option<Vec<Option<ParachainExtrinsic>>>) -> (next: AwaitingRoster)
        requires
            held matches Some(extrinsics) ==> extrinsics@.len() == self.candidates@.len(),
        ensures
            self.leads_to(held, next),
    {
        let mut outgoing: Outgoing = Vec::new();
        if let Some(extrinsics) = held {
            let ghost given = extrinsics@;
            let mut remaining = extrinsics;
            assert(self.candidates@.take(0).len() == 0);
            for i in 0..self.candidates.len()
                invariant
                    given.len() == self.candidates@.len(),
                    remaining@.len() == given.len(),
                    forall|j: int| i <= j < given.len() ==> remaining@[j] == given[j],
                    outgoing@ == messages_of(self.candidates@.take(i as int), given),
            {
                let ghost seen = self.candidates@.take(i as int + 1);
                assert(seen.drop_last() =~= self.candidates@.take(i as int));
                if let Some(messages) = remaining[i].take() {
                    outgoing.push(
                        MessagesFrom { from: self.candidates[i].parachain_index, messages },
                    );
                }
            }
            assert(self.candidates@.take(self.candidates@.len() as int) =~= self.candidates@);
        }
        AwaitingRoster { request: self.request, authorities: self.authorities, outgoing }
    }
}

impl AwaitingRoster {
    /// What follows the answer for the duty roster.
    pub open spec fn leads_to(
        self,
        fetched: Result<DutyRoster, String>,
        next: Result<AwaitingParachains, Error>,
    ) -> bool {
        match fetched {
            Err(message) => next == Err::<AwaitingParachains, Error>(Error::Client(message)),
            Ok(roster) => match next {
                Ok(stage) => {
                    &&& stage.start.request == self.request
                    &&& stage.start.authorities == self.authorities
                    &&& stage.start.outgoing == self.outgoing
                    &&& stage.start.follows(roster.validator_duty@)
                },
                Err(Error::InvalidDutyRosterLength { expected, got }) => {
                    &&& expected == self.authorities@.len()
                    &&& got == roster.validator_duty@.len()
                    &&& expected != got
                },
                Err(Error::NotValidator(id)) => {
                    &&& id == self.request.local_id
                    &&& roster.validator_duty@.len() == self.authorities@.len()
                    &&& !self.authorities@.contains(id)
                },
                Err(_) => false,
            },
        }
    }

    /// Go on with the duty roster, or end with the error of fetching it or of working out the
    /// groups from it.
    pub fn duty_roster(self, fetched: Result<DutyRoster, String>) -> (next: Result<
        AwaitingParachains,
        Error,
    >)
        ensures
            self.leads_to(fetched, next),
    {
        let roster = match fetched {
            Ok(roster) => roster,
            Err(message) => return Err(Error::Client(message)),
        };
        match make_group_info(roster, self.authorities.as_slice(), self.request.local_id) {
            Ok((groups, local_duty)) => {
                let start = SessionStart {
                    request: self.request,
                    authorities: self.authorities,
                    outgoing: self.outgoing,
                    groups,
                    local_duty,
                };
                Ok(AwaitingParachains { start })
            },
            Err(error) => Err(error),
        }
    }
}

impl AwaitingParachains {
    /// What follows the answer for the active parachains.
    pub open spec fn leads_to(
        self,
        fetched: Result<Vec<ParaId>, String>,
        next: Result<SessionStart, Error>,
    ) -> bool {
        match fetched {
            Ok(_) => next == Ok::<SessionStart, Error>(self.start),
            Err(message) => next == Err::<SessionStart, Error>(Error::Client(message)),
        }
    }

    /// Go on once the active parachains are known, or end with the error of fetching them.
    pub fn active_parachains(self, fetched: Result<Vec<ParaId>, String>) -> (next: Result<
        SessionStart,
        Error,
    >)
        ensures
            self.leads_to(fetched, next),
    {
        match fetched {
            Ok(_) => Ok(self.start),
            Err(message) => Err(Error::Client(message)),
        }
    }
}

impl SessionStart {
    /// The work to launch in the session, if the local duty is a parachain.
    pub fn collation_work(&self) -> (work: Option<CollationWork>)
        ensures
            work == self.work(),
            work is Some <==> self.local_duty.validation is Parachain,
            work matches Some(launched) ==> {
                &&& launched.relay_parent == self.request.parent_hash
                &&& self.local_duty.validation == Chain::Parachain(launched.validation_para)
                &&& launched.max_block_data_size == self.request.max_block_data_size
            },
    {
        match self.local_duty.validation {
            Chain::Parachain(id) => Some(
                CollationWork {
                    relay_parent: self.request.parent_hash,
                    validation_para: id,
                    max_block_data_size: self.request.max_block_data_size,
                },
            ),
            Chain::Relay => None,
        }
    }

    /// Record the session, now that it runs, under its parent hash.
    pub fn record<T>(self, live: &mut LiveInstances<T>, tracker: T)
        ensures
            final(live)@ == old(live)@.insert(self.request.parent_hash, tracker),
    {
        live.insert(self.request.parent_hash, tracker);
    }
}

/// A roster is accepted if and only if it has a duty for each authority and the local key is
/// one of them.
pub proof fn lemma_roster_accepted(
    stage: AwaitingRoster,
    roster: DutyRoster,
    next: Result<AwaitingParachains, Error>,
)
    requires
        stage.leads_to(Ok(roster), next),
    ensures
        next is Ok <==> {
            &&& roster.validator_duty@.len() == stage.authorities@.len()
            &&& stage.authorities@.contains(stage.request.local_id)
        },
{
    if let Ok(after) = next {
        let duties = roster.validator_duty@;
        let i = choose|i: int|
            #[trigger] last_position(stage.authorities@, stage.request.local_id, i)
                && after.start.local_duty.validation == duties[i];
        assert(stage.authorities@[i] == stage.request.local_id);
    }
}

/// What a session is started with, over all stages: the request and the authorities as they
/// were given, the groups and the local duty of the roster, and the messages of the parent's
/// candidates.
pub proof fn lemma_session_start(
    first: AwaitingAuthorities,
    authorities: Vec<AuthorityId>,
    second: AwaitingCandidates,
    candidates: Result<Option<Vec<CandidateReceipt>>, String>,
    third: AwaitingExtrinsics,
    held: Option<Vec<Option<ParachainExtrinsic>>>,
    fourth: AwaitingRoster,
    roster: DutyRoster,
    fifth: AwaitingParachains,
    parachains: Vec<ParaId>,
    start: SessionStart,
)
    requires
        first.leads_to(Ok(authorities), Ok(second)),
        second.leads_to(candidates, third),
        third.leads_to(held, fourth),
        fourth.leads_to(Ok(roster), Ok(fifth)),
        fifth.leads_to(Ok(parachains), Ok(start)),
    ensures
        start.wf(),
        start.request == first.request,
        start.authorities == authorities,
        start.follows(roster.validator_duty@),
        start.outgoing@ == messages_held(known_candidates(candidates), held),
{
    assert(start.follows(roster.validator_duty@));
}

/// A session that has been recorded is the one that is found for its parent hash from then on,
/// so that none is started a second time; what is found for other parents stays as it was.
pub proof fn lemma_recorded_session_is_found<T>(
    live: Map<H256, T>,
    start: SessionStart,
    tracker: T,
    parent_hash: H256,
)
    ensures
        found_in(live.insert(start.request.parent_hash, tracker), parent_hash) == if parent_hash
            == start.request.parent_hash {
            Some(tracker)
        } else {
            found_in(live, parent_hash)
        },
{
}

/// The answers that an attempt to start a session may be given, in the order in which they are
/// asked for.
pub struct Answers {
    pub authorities: Result<Vec<AuthorityId>, String>,
    pub candidates: Result<Option<Vec<CandidateReceipt>>, String>,
    pub extrinsics: Option<Vec<Option<ParachainExtrinsic>>>,
    pub roster: Result<DutyRoster, String>,
    pub parachains: Result<Vec<ParaId>, String>,
}

impl AwaitingRoster {
    /// Whether an attempt that has come this far ends so, with these answers.
    pub open spec fn ends_in(self, answers: Answers, outcome: Result<SessionStart, Error>) -> bool {
        exists|next: Result<AwaitingParachains, Error>|
            {
                &&& #[trigger] self.leads_to(answers.roster, next)
                &&& match next {
                    Ok(stage) => stage.leads_to(answers.parachains, outcome),
                    Err(error) => outcome == Err::<SessionStart, Error>(error),
                }
            }
    }
}

impl AwaitingExtrinsics {
    /// Whether an attempt that has come this far ends so, with these answers.
    pub open spec fn ends_in(self, answers: Answers, outcome: Result<SessionStart, Error>) -> bool {
        exists|next: AwaitingRoster| #[trigger]
            self.leads_to(answers.extrinsics, next) && next.ends_in(answers, outcome)
    }
}

impl AwaitingCandidates {
    /// Whether an attempt that has come this far ends so, with these answers.
    pub open spec fn ends_in(self, answers: Answers, outcome: Result<SessionStart, Error>) -> bool {
        exists|next: AwaitingExtrinsics| #[trigger]
            self.leads_to(answers.candidates, next) && next.ends_in(answers, outcome)
    }
}

impl AwaitingAuthorities {
    /// Whether the attempt ends so, with these answers: each stage is handed its answer, until
    /// one gives an error or the last one gives what the session is started with.
    pub open spec fn ends_in(self, answers: Answers, outcome: Result<SessionStart, Error>) -> bool {
        exists|next: Result<AwaitingCandidates, Error>|
            {
                &&& #[trigger] self.leads_to(answers.authorities, next)
                &&& match next {
                    Ok(stage) => stage.ends_in(answers, outcome),
                    Err(error) => outcome == Err::<SessionStart, Error>(error),
                }
            }
    }
}

/// Whether the outcome is the first failure among the authorities, the roster, the groups and
/// the active parachains, with its error, or else what the session is started with.
pub open spec fn first_failure_or_start(
    request: SessionRequest,
    answers: Answers,
    outcome: Result<SessionStart, Error>,
) -> bool {
    match (answers.authorities, answers.roster) {
        (Err(message), _) => outcome == Err::<SessionStart, Error>(Error::Client(message)),
        (Ok(_), Err(message)) => outcome == Err::<SessionStart, Error>(Error::Client(message)),
        (Ok(authorities), Ok(roster)) => if roster.validator_duty@.len() != authorities@.len() {
            outcome == Err::<SessionStart, Error>(
                Error::InvalidDutyRosterLength {
                    expected: authorities@.len() as usize,
                    got: roster.validator_duty@.len() as usize,
                },
            )
        } else if !authorities@.contains(request.local_id) {
            outcome == Err::<SessionStart, Error>(Error::NotValidator(request.local_id))
        } else {
            match answers.parachains {
                Err(message) => outcome == Err::<SessionStart, Error>(Error::Client(message)),
                Ok(_) => {
                    &&& outcome matches Ok(start)
                    &&& start.wf()
                    &&& start.request == request
                    &&& start.authorities == authorities
                    &&& start.follows(roster.validator_duty@)
                    &&& start.outgoing@ == messages_held(
                        known_candidates(answers.candidates),
                        answers.extrinsics,
                    )
                },
            }
        },
    }
}

/// An attempt ends in the first failing of authorities, roster, groups and active parachains,
/// with that one's error, and starts a session if none fails. That the parent's candidates or
/// their extrinsic data cannot be had never ends it.
pub proof fn lemma_attempt_outcome(
    first: AwaitingAuthorities,
    answers: Answers,
    outcome: Result<SessionStart, Error>,
)
    requires
        first.ends_in(answers, outcome),
    ensures
        first_failure_or_start(first.request, answers, outcome),
{
    let after_first = choose|next: Result<AwaitingCandidates, Error>|
        {
            &&& #[trigger] first.leads_to(answers.authorities, next)
            &&& match next {
                Ok(stage) => stage.ends_in(answers, outcome),
                Err(error) => outcome == Err::<SessionStart, Error>(error),
            }
        };
    if let Ok(second) = after_first {
        let third = choose|next: AwaitingExtrinsics| #[trigger]
            second.leads_to(answers.candidates, next) && next.ends_in(answers, outcome);
        let fourth = choose|next: AwaitingRoster| #[trigger]
            third.leads_to(answers.extrinsics, next) && next.ends_in(answers, outcome);
        let after_fourth = choose|next: Result<AwaitingParachains, Error>|
            {
                &&& #[trigger] fourth.leads_to(answers.roster, next)
                &&& match next {
                    Ok(stage) => stage.leads_to(answers.parachains, outcome),
                    Err(error) => outcome == Err::<SessionStart, Error>(error),
                }
            };
        if let Ok(roster) = answers.roster {
            lemma_roster_accepted(fourth, roster, after_fourth);
            if let Ok(fifth) = after_fourth {
                assert(fifth.start.follows(roster.validator_duty@));
            }
        }
    }
}

/// What came of one call for the session of a parent.
pub enum SessionCall<T> {
    /// The session was found among the live ones.
    Found(T),
    /// There was none: one was started and recorded.
    Started(T),
    /// There was none, and starting one failed.
    Failed,
}

impl<T> SessionCall<T> {
    /// The session that the call returned, if it did not fail.
    pub open spec fn tracker(self) -> Option<T> {
        match self {
            SessionCall::Found(tracker) => Some(tracker),
            SessionCall::Started(tracker) => Some(tracker),
            SessionCall::Failed => None,
        }
    }

    /// Whether a call for `parent_hash` takes the live instances from `before` to `after`: what
    /// [`look_up`] finds is returned, and only [`SessionStart::record`] changes anything.
    pub open spec fn takes(
        self,
        parent_hash: H256,
        before: Map<H256, T>,
        after: Map<H256, T>,
    ) -> bool {
        match self {
            SessionCall::Found(tracker) => found_in(before, parent_hash) == Some(tracker) && after
                == before,
            SessionCall::Started(tracker) => found_in(before, parent_hash) is None && after
                == before.insert(parent_hash, tracker),
            SessionCall::Failed => found_in(before, parent_hash) is None && after == before,
        }
    }
}

/// Whether the calls were made one after the other, each for its parent, with `live[i]` the live
/// instances before call `i`, and nothing but the calls changed these. Calls from several threads
/// are such a sequence where each holds one lock from looking up to recording.
pub open spec fn are_calls<T>(
    live: Seq<Map<H256, T>>,
    parents: Seq<H256>,
    calls: Seq<SessionCall<T>>,
) -> bool {
    &&& live.len() == calls.len() + 1
    &&& parents.len() == calls.len()
    &&& forall|i: int|
        0 <= i < calls.len() ==> (#[trigger] calls[i]).takes(parents[i], live[i], live[i + 1])
}

/// A session that is live stays the one that is found, over any number of calls.
proof fn lemma_session_stays<T>(
    live: Seq<Map<H256, T>>,
    parents: Seq<H256>,
    calls: Seq<SessionCall<T>>,
    parent_hash: H256,
    i: int,
    j: int,
)
    requires
        are_calls(live, parents, calls),
        0 <= i <= j <= calls.len(),
        found_in(live[i], parent_hash) is Some,
    ensures
        found_in(live[j], parent_hash) == found_in(live[i], parent_hash),
    decreases j - i,
{
    if i < j {
        lemma_session_stays(live, parents, calls, parent_hash, i, j - 1);
        assert(calls[j - 1].takes(parents[j - 1], live[j - 1], live[j]));
    }
}

/// Any number of calls, for whatever parents, give one session for each parent: all that do not
/// fail return the same tracker.
pub proof fn lemma_one_session_for_each_parent<T>(
    live: Seq<Map<H256, T>>,
    parents: Seq<H256>,
    calls: Seq<SessionCall<T>>,
    i: int,
    j: int,
)
    requires
        are_calls(live, parents, calls),
        0 <= i < calls.len(),
        0 <= j < calls.len(),
        parents[i] == parents[j],
        calls[i].tracker() is Some,
        calls[j].tracker() is Some,
    ensures
        calls[i].tracker() == calls[j].tracker(),
{
    let parent_hash = parents[i];
    assert(calls[i].takes(parents[i], live[i], live[i + 1]));
    assert(calls[j].takes(parents[j], live[j], live[j + 1]));
    if i < j {
        lemma_session_stays(live, parents, calls, parent_hash, i + 1, j);
    } else if j < i {
        lemma_session_stays(live, parents, calls, parent_hash, j + 1, i);
    }
}

/// Over any number of calls, for whatever parents, a session is started for a parent exactly
/// once, if it was not live at first and some call for it did not fail; and never, if it was.
pub proof fn lemma_session_starts_once<T>(
    live: Seq<Map<H256, T>>,
    parents: Seq<H256>,
    calls: Seq<SessionCall<T>>,
    parent_hash: H256,
)
    requires
        are_calls(live, parents, calls),
    ensures
        found_in(live[0], parent_hash) is Some ==> forall|i: int|
            0 <= i < calls.len() && parents[i] == parent_hash ==> !(#[trigger] calls[i] is Started),
        found_in(live[0], parent_hash) is None && (exists|i: int|
            0 <= i < calls.len() && parents[i] == parent_hash && (
            #[trigger] calls[i]).tracker() is Some) ==> exists|k: int| #[trigger]
            only_start(parents, calls, parent_hash, k),
{
    if found_in(live[0], parent_hash) is Some {
        assert forall|i: int| 0 <= i < calls.len() && parents[i] == parent_hash implies !(
        #[trigger] calls[i] is Started) by {
            lemma_session_stays(live, parents, calls, parent_hash, 0, i);
            assert(calls[i].takes(parents[i], live[i], live[i + 1]));
        }
    } else if exists|i: int|
        0 <= i < calls.len() && parents[i] == parent_hash && (
        #[trigger] calls[i]).tracker() is Some {
        let i = choose|i: int|
            0 <= i < calls.len() && parents[i] == parent_hash && (
            #[trigger] calls[i]).tracker() is Some;
        assert(calls[i].takes(parents[i], live[i], live[i + 1]));
        let k = lemma_some_start(live, parents, calls, parent_hash, i + 1);
        assert forall|j: int|
            0 <= j < calls.len() && j != k && parents[j] == parent_hash implies !(
        #[trigger] calls[j] is Started) by {
            assert(calls[j].takes(parents[j], live[j], live[j + 1]));
            assert(calls[k].takes(parents[k], live[k], live[k + 1]));
            if j < k {
                if calls[j] is Started {
                    lemma_session_stays(live, parents, calls, parent_hash, j + 1, k);
                }
            } else {
                lemma_session_stays(live, parents, calls, parent_hash, k + 1, j);
            }
        }
        assert(only_start(parents, calls, parent_hash, k));
    }
}

/// Whether call `k` started the session of a parent, and no other call did.
pub open spec fn only_start<T>(
    parents: Seq<H256>,
    calls: Seq<SessionCall<T>>,
    parent_hash: H256,
    k: int,
) -> bool {
    &&& 0 <= k < calls.len()
    &&& parents[k] == parent_hash
    &&& calls[k] is Started
    &&& forall|j: int|
        0 <= j < calls.len() && j != k && parents[j] == parent_hash ==> !(
        #[trigger] calls[j] is Started)
}

/// A session that was not live at first and is after some calls was started by one of them.
proof fn lemma_some_start<T>(
    live: Seq<Map<H256, T>>,
    parents: Seq<H256>,
    calls: Seq<SessionCall<T>>,
    parent_hash: H256,
    n: int,
) -> (k: int)
    requires
        are_calls(live, parents, calls),
        0 <= n <= calls.len(),
        found_in(live[0], parent_hash) is None,
        found_in(live[n], parent_hash) is Some,
    ensures
        0 <= k < n,
        parents[k] == parent_hash,
        calls[k] is Started,
    decreases n,
{
    assert(n > 0);
    assert(calls[n - 1].takes(parents[n - 1], live[n - 1], live[n]));
    if found_in(live[n - 1], parent_hash) is Some {
        lemma_some_start(live, parents, calls, parent_hash, n - 1)
    } else {
        n - 1
    }
}

/// Work is launched only for a parachain whose group the local authority belongs to.
pub proof fn lemma_work_is_for_own_group(start: SessionStart, work: CollationWork)
    requires
        start.wf(),
        start.work() == Some(work),
    ensures
        start.groups@.contains_key(work.validation_para),
        start.groups@[work.validation_para].guarantors().contains(start.request.local_id),
{
    let duties = choose|duties: Seq<Chain>| #[trigger] start.follows(duties);
    lemma_local_duty_in_group(
        start.groups@,
        start.authorities@,
        duties,
        start.request.local_id,
        work.validation_para,
    );
}

/// Work is launched exactly where the local duty is a parachain. It is then for that parachain, at
/// the block that the session was requested for, and within the limit of the request: the same
/// limit where there is one, and no limit where there is none.
pub proof fn lemma_work_is_what_was_requested(start: SessionStart)
    ensures
        start.work() is None <==> start.local_duty.validation == Chain::Relay,
        start.work() matches Some(work) ==> {
            &&& start.local_duty.validation == Chain::Parachain(work.validation_para)
            &&& work.relay_parent == start.request.parent_hash
            &&& work.max_block_data_size == start.request.max_block_data_size
        },
{
}

/// A session is found for a parent exactly if one is live for it, and it is that one.
pub proof fn lemma_found_is_live<T>(live: Map<H256, T>, parent_hash: H256)
    ensures
        found_in(live, parent_hash) is Some <==> live.contains_key(parent_hash),
        live.contains_key(parent_hash) ==> found_in(live, parent_hash) == Some(live[parent_hash]),
{
}

/// Which messages are passed on: `positions` are those of all the candidates for which extrinsic
/// data is held, in ascending order, and the messages are these extrinsics, whole, each from the
/// parachain of its candidate.
pub proof fn lemma_messages_passed_on(
    candidates: Seq<CandidateReceipt>,
    extrinsics: Seq<Option<ParachainExtrinsic>>,
) -> (positions: Seq<int>)
    ensures
        positions.len() == messages_of(candidates, extrinsics).len(),
        forall|i: int, j: int|
            0 <= i < j < positions.len() ==> #[trigger] positions[i] < #[trigger] positions[j],
        forall|i: int|
            0 <= i < positions.len() ==> {
                &&& 0 <= #[trigger] positions[i] < candidates.len()
                &&& extrinsics[positions[i]] == Some(messages_of(candidates, extrinsics)[i].messages)
                &&& messages_of(candidates, extrinsics)[i].from
                    == candidates[positions[i]].parachain_index
            },
        forall|k: int|
            0 <= k < candidates.len() && #[trigger] extrinsics[k] is Some ==> positions.contains(k),
    decreases candidates.len(),
{
    if candidates.len() == 0 {
        Seq::empty()
    } else {
        let earlier = candidates.drop_last();
        let last = candidates.len() - 1;
        let before = lemma_messages_passed_on(earlier, extrinsics);
        let positions = if extrinsics[last] is Some {
            before.push(last)
        } else {
            before
        };
        assert forall|i: int| 0 <= i < positions.len() implies {
            &&& 0 <= #[trigger] positions[i] < candidates.len()
            &&& extrinsics[positions[i]] == Some(messages_of(candidates, extrinsics)[i].messages)
            &&& messages_of(candidates, extrinsics)[i].from
                == candidates[positions[i]].parachain_index
        } by {
            if i < before.len() {
                assert(positions[i] == before[i]);
                assert(earlier[before[i]] == candidates[before[i]]);
            }
        }
        assert forall|k: int|
            0 <= k < candidates.len() && #[trigger] extrinsics[k] is Some implies positions.contains(
            k,
        ) by {
            if k < last {
                let i = choose|i: int| 0 <= i < before.len() && before[i] == k;
                assert(positions[i] == k);
            } else {
                assert(positions[before.len() as int] == k);
            }
        }
        positions
    }
}

/// An attempt that ends in an error: it is the client's, with its message, if the authorities
/// could not be had, or else the roster, or, where the groups are fine, the active parachains; a
/// wrong length, if the roster has not one duty for each authority; or that the local key is not
/// one of them.
pub proof fn lemma_failed_attempt(first: AwaitingAuthorities, answers: Answers, error: Error)
    requires
        first.ends_in(answers, Err(error)),
    ensures
        answers.authorities matches Err(message) ==> error == Error::Client(message),
        answers.authorities is Ok ==> (answers.roster matches Err(message) ==> error
            == Error::Client(message)),
        answers.authorities matches Ok(authorities) ==> (answers.roster matches Ok(roster) ==> {
            let (expected, got) = (authorities@.len(), roster.validator_duty@.len());
            &&& expected != got ==> {
                &&& error is InvalidDutyRosterLength
                &&& error->expected == expected
                &&& error->got == got
            }
            &&& expected == got && !authorities@.contains(first.request.local_id) ==> error
                == Error::NotValidator(first.request.local_id)
            &&& expected == got && authorities@.contains(first.request.local_id) ==> (
            answers.parachains matches Err(message) && error == Error::Client(message))
        }),
{
    lemma_attempt_outcome(first, answers, Err(error));
    match (answers.authorities, answers.roster) {
        (Ok(authorities), Ok(roster)) => {
            assert(authorities.len() == authorities@.len());
            assert(roster.validator_duty.len() == roster.validator_duty@.len());
        },
        _ => {},
    }
}

/// An attempt that starts a session had all of its answers: the authorities, among them the local
/// key, a roster with one duty for each, and the active parachains. The session is started for
/// the request as it was made, with these authorities. The local duty is the one beside the last
/// occurrence of the local key.
pub proof fn lemma_successful_attempt(
    first: AwaitingAuthorities,
    answers: Answers,
    start: SessionStart,
)
    requires
        first.ends_in(answers, Ok(start)),
    ensures
        answers.authorities == Ok::<Vec<AuthorityId>, String>(start.authorities),
        answers.parachains is Ok,
        start.request == first.request,
        start.authorities@.contains(first.request.local_id),
        answers.roster matches Ok(roster) && {
            let duties = roster.validator_duty@;
            &&& duties.len() == start.authorities@.len()
            &&& forall|i: int|
                0 <= i < duties.len() && #[trigger] start.authorities@[i] == first.request.local_id
                    && (forall|j: int|
                    i < j < duties.len() ==> start.authorities@[j] != first.request.local_id)
                    ==> start.local_duty.validation == duties[i]
        },
{
    lemma_attempt_outcome(first, answers, Ok(start));
    let duties = answers.roster->Ok_0.validator_duty@;
    let (authorities, local_id) = (start.authorities@, first.request.local_id);
    let duty = start.local_duty.validation;
    assert forall|i: int|
        0 <= i < duties.len() && #[trigger] authorities[i] == local_id && (forall|j: int|
            i < j < duties.len() ==> authorities[j] != local_id) implies duty == duties[i] by {
        lemma_local_duty_is_the_last(duty, authorities, duties, local_id, i);
    }
    lemma_local_duty_of_an_authority(duty, authorities, duties, local_id);
}

/// The groups of a session that an attempt starts: an authority is in the group of a parachain
/// exactly if the roster puts it there, there is no group without a member, and each needs the
/// votes of half its members, rounded up.
pub proof fn lemma_groups_of_attempt(
    first: AwaitingAuthorities,
    answers: Answers,
    roster: DutyRoster,
    start: SessionStart,
)
    requires
        first.ends_in(answers, Ok(start)),
        answers.roster == Ok::<DutyRoster, String>(roster),
    ensures
        forall|i: int|
            #![trigger roster.validator_duty@[i]]
            0 <= i < start.authorities@.len() ==> (roster.validator_duty@[i] matches
                Chain::Parachain(id) ==> start.groups@.contains_key(id)
                && start.groups@[id].guarantors().contains(start.authorities@[i])),
        forall|id: ParaId, authority: AuthorityId|
            start.groups@.contains_key(id) && #[trigger] start.groups@[id].guarantors().contains(
                authority,
            ) ==> exists|i: int|
                0 <= i < start.authorities@.len() && #[trigger] start.authorities@[i] == authority
                    && roster.validator_duty@[i] == Chain::Parachain(id),
        forall|id: ParaId| #[trigger]
            start.groups@.contains_key(id) ==> exists|i: int|
                0 <= i < start.authorities@.len() && #[trigger] roster.validator_duty@[i]
                    == Chain::Parachain(id),
        forall|id: ParaId| #[trigger]
            start.groups@.contains_key(id) ==> start.groups@[id].guarantors().finite(),
        forall|id: ParaId| #[trigger]
            start.groups@.contains_key(id) ==> start.groups@[id].guarantors().len() <= 2
                * start.groups@[id].needed() <= start.groups@[id].guarantors().len() + 1,
{
    lemma_attempt_outcome(first, answers, Ok(start));
    let duties = roster.validator_duty@;
    lemma_groups_are_the_assignments(start.groups@, start.authorities@, duties);
    assert forall|id: ParaId| #[trigger] start.groups@.contains_key(id) implies {
        let group = start.groups@[id];
        &&& group.guarantors().finite()
        &&& group.guarantors().len() <= 2 * group.needed() <= group.guarantors().len() + 1
    } by {
        lemma_group_votes(start.groups@, start.authorities@, duties, id);
    }
}

/// The messages that a session passes on: where the parent's candidates are known and there was a
/// session to ask, those of all candidates for which extrinsic data is held, at the ascending
/// `positions`, whole, each from the parachain of its candidate; else none.
pub proof fn lemma_messages_of_attempt(
    first: AwaitingAuthorities,
    answers: Answers,
    start: SessionStart,
) -> (positions: Seq<int>)
    requires
        first.ends_in(answers, Ok(start)),
    ensures
        match (answers.candidates, answers.extrinsics) {
            (Ok(Some(candidates)), Some(held)) => {
                &&& positions.len() == start.outgoing@.len()
                &&& forall|i: int, j: int|
                    0 <= i < j < positions.len() ==> #[trigger] positions[i]
                        < #[trigger] positions[j]
                &&& forall|i: int|
                    0 <= i < positions.len() ==> {
                        &&& 0 <= #[trigger] positions[i] < candidates@.len()
                        &&& held@[positions[i]] == Some(start.outgoing@[i].messages)
                        &&& start.outgoing@[i].from == candidates@[positions[i]].parachain_index
                    }
                &&& forall|k: int|
                    0 <= k < candidates@.len() && #[trigger] held@[k] is Some
                        ==> positions.contains(k)
            },
            _ => start.outgoing@.len() == 0,
        },
{
    lemma_attempt_outcome(first, answers, Ok(start));
    match (answers.candidates, answers.extrinsics) {
        (Ok(Some(candidates)), Some(held)) => lemma_messages_passed_on(candidates@, held@),
        _ => Seq::empty(),
    }
}

} // verus!
