//! Making a block: inherents first, then transactions of the pool, within limits.
//!
//! Building the block is outside work. [`BlockAssembly::handle`] is told what came of the last
//! piece of it and answers with the next one, starting with [`AssemblyAction::PutNewHeads`],
//! until the block is finished or an error ends it.

use vstd::prelude::*;

use crate::error::Error;
use crate::primitives::H256;
use crate::proposer::CreateProposal;

verus! {

/// Block size limit: the transactions of a block stay below this size, encoded.
pub const MAX_TRANSACTIONS_SIZE: usize = 4 * 1024 * 1024;

/// The number of transactions that are considered for a block.
pub const MAX_TRANSACTIONS: usize = 40;

/// A transaction that is being pushed to the block.
#[derive(Debug, Clone, Copy, PartialEq, Eq)]
pub struct Transaction {
    /// The hash that the pool knows it by.
    pub hash: H256,
    /// Its encoded size.
    pub encoded_size: usize,
}

/// A block in the making.
pub struct BlockAssembly {
    deadline: u128,
    inherents_left: usize,
    considered: usize,
    pending_size: usize,
    unqueue_invalid: Vec<H256>,
    current: Option<Transaction>,
}

/// What a [`BlockAssembly`] keeps track of.
#[verifier::ext_equal]
pub struct AssemblyView {
    /// The time after which no more transactions are added.
    pub deadline: u128,
    /// The number of inherents that have still to be pushed.
    pub inherents_left: nat,
    /// The number of transactions that have been taken from the pool.
    pub considered: nat,
    /// The encoded size of the transactions in the block.
    pub pending_size: nat,
    /// The transactions that the block builder refused as invalid, in order.
    pub unqueue_invalid: Seq<H256>,
    /// The transaction that is being pushed.
    pub current: Option<Transaction>,
}

/// What came of an action.
pub enum AssemblyEvent {
    /// The candidates were put into the inherent data, or could not be.
    NewHeadsPut(Result<(), String>),
    /// The block builder is there, or could not be had.
    BuilderOpened(Result<(), String>),
    /// There are that many inherents, or they could not be had.
    InherentsFetched(Result<usize, String>),
    /// The inherent was pushed, or could not be.
    InherentPushed(Result<(), String>),
    /// The pool has this transaction ready, at this time, in nanoseconds from the creation of
    /// the proposal.
    Ready(Transaction, u128),
    /// The pool has no more transactions ready.
    Exhausted,
    /// The transaction is in the block.
    Pushed,
    /// The block is full.
    FullBlock,
    /// The transaction is invalid.
    Rejected,
    /// The invalid transactions are out of the pool.
    InvalidRemoved,
    /// The block is baked, or could not be.
    Baked(Result<(), String>),
    /// The active parachains are known, or could not be had.
    ParachainsFetched(Result<(), String>),
    /// The block has passed its evaluation.
    Evaluated,
}

/// What to do next for a block.
#[derive(Debug, PartialEq, Eq)]
pub enum AssemblyAction {
    /// Put the candidates into the inherent data.
    PutNewHeads,
    /// Get a block builder on top of the parent block.
    OpenBuilder,
    /// Get the inherents from the inherent data.
    FetchInherents,
    /// Push the next inherent.
    PushInherent,
    /// Take the next transaction that the pool has ready.
    NextTransaction,
    /// Push the transaction that was taken.
    PushTransaction,
    /// Take the invalid transactions out of the pool.
    RemoveInvalid,
    /// Bake the block.
    Bake,
    /// Get the active parachains.
    FetchParachains,
    /// Evaluate the block.
    Evaluate,
    /// The block is finished.
    Finish,
    /// End with an error.
    Fail(Error),
}

/// The next transaction is taken while fewer than the limit have been.
pub open spec fn take_next(state: AssemblyView) -> (AssemblyView, AssemblyAction) {
    if state.considered < MAX_TRANSACTIONS {
        (state, AssemblyAction::NextTransaction)
    } else {
        (state, AssemblyAction::RemoveInvalid)
    }
}

/// The inherents are pushed one after the other, then come the transactions.
pub open spec fn push_inherents(state: AssemblyView, left: nat) -> (AssemblyView, AssemblyAction) {
    let state = AssemblyView { inherents_left: left, ..state };
    if left > 0 {
        (state, AssemblyAction::PushInherent)
    } else {
        take_next(state)
    }
}

/// Go on with `action`, or end with the error of the client.
pub open spec fn unless_failed(
    state: AssemblyView,
    outcome: Result<(), String>,
    action: AssemblyAction,
) -> (AssemblyView, AssemblyAction) {
    match outcome {
        Ok(_) => (state, action),
        Err(message) => (state, AssemblyAction::Fail(Error::Client(message))),
    }
}

/// The state and the action that follow an event.
pub open spec fn assembly_next(state: AssemblyView, event: AssemblyEvent) -> (
    AssemblyView,
    AssemblyAction,
) {
    match event {
        AssemblyEvent::NewHeadsPut(Ok(_)) => (state, AssemblyAction::OpenBuilder),
        AssemblyEvent::NewHeadsPut(Err(message)) => (
            state,
            AssemblyAction::Fail(Error::InherentError(message)),
        ),
        AssemblyEvent::BuilderOpened(outcome) => unless_failed(
            state,
            outcome,
            AssemblyAction::FetchInherents,
        ),
        AssemblyEvent::InherentsFetched(Ok(count)) => push_inherents(state, count as nat),
        AssemblyEvent::InherentsFetched(Err(message)) => (
            state,
            AssemblyAction::Fail(Error::Client(message)),
        ),
        AssemblyEvent::InherentPushed(Ok(_)) => push_inherents(
            state,
            (state.inherents_left - 1) as nat,
        ),
        AssemblyEvent::InherentPushed(Err(message)) => (
            state,
            AssemblyAction::Fail(Error::Client(message)),
        ),
        AssemblyEvent::Ready(transaction, now) => {
            let state = AssemblyView { considered: state.considered + 1, ..state };
            if state.pending_size + transaction.encoded_size >= MAX_TRANSACTIONS_SIZE || now
                > state.deadline {
                (state, AssemblyAction::RemoveInvalid)
            } else {
                (
                    AssemblyView { current: Some(transaction), ..state },
                    AssemblyAction::PushTransaction,
                )
            }
        },
        AssemblyEvent::Exhausted => (state, AssemblyAction::RemoveInvalid),
        AssemblyEvent::Pushed => take_next(
            AssemblyView {
                pending_size: state.pending_size + state.current->0.encoded_size as nat,
                current: None,
                ..state
            },
        ),
        AssemblyEvent::FullBlock => (
            AssemblyView { current: None, ..state },
            AssemblyAction::RemoveInvalid,
        ),
        AssemblyEvent::Rejected => take_next(
            AssemblyView {
                unqueue_invalid: state.unqueue_invalid.push(state.current->0.hash),
                current: None,
                ..state
            },
        ),
        AssemblyEvent::InvalidRemoved => (state, AssemblyAction::Bake),
        AssemblyEvent::Baked(outcome) => unless_failed(
            state,
            outcome,
            AssemblyAction::FetchParachains,
        ),
        AssemblyEvent::ParachainsFetched(outcome) => unless_failed(
            state,
            outcome,
            AssemblyAction::Evaluate,
        ),
        AssemblyEvent::Evaluated => (state, AssemblyAction::Finish),
    }
}

/// Whether an event is an answer to an action. Actions that end the block have none.
pub open spec fn assembly_answers(action: AssemblyAction, event: AssemblyEvent) -> bool {
    match action {
        AssemblyAction::PutNewHeads => event is NewHeadsPut,
        AssemblyAction::OpenBuilder => event is BuilderOpened,
        AssemblyAction::FetchInherents => event is InherentsFetched,
        AssemblyAction::PushInherent => event is InherentPushed,
        AssemblyAction::NextTransaction => event is Ready || event is Exhausted,
        AssemblyAction::PushTransaction => event is Pushed || event is FullBlock
            || event is Rejected,
        AssemblyAction::RemoveInvalid => event is InvalidRemoved,
        AssemblyAction::Bake => event is Baked,
        AssemblyAction::FetchParachains => event is ParachainsFetched,
        AssemblyAction::Evaluate => event is Evaluated,
        AssemblyAction::Finish | AssemblyAction::Fail(_) => false,
    }
}

impl AssemblyView {
    /// The state that a block starts with.
    pub open spec fn start(deadline: u128) -> Self {
        AssemblyView {
            deadline,
            inherents_left: 0,
            considered: 0,
            pending_size: 0,
            unqueue_invalid: Seq::empty(),
            current: None,
        }
    }

    /// The limits hold, also with the transaction that is being pushed.
    pub open spec fn wf(self) -> bool {
        &&& self.considered <= MAX_TRANSACTIONS
        &&& self.pending_size < MAX_TRANSACTIONS_SIZE
        &&& self.current matches Some(transaction) ==> self.pending_size
            + transaction.encoded_size < MAX_TRANSACTIONS_SIZE
    }

    /// Whether an event can come in this state.
    pub open spec fn expects(self, event: AssemblyEvent) -> bool {
        match event {
            AssemblyEvent::InherentPushed(_) => self.inherents_left > 0,
            AssemblyEvent::Ready(..) => self.considered < MAX_TRANSACTIONS,
            AssemblyEvent::Pushed | AssemblyEvent::FullBlock | AssemblyEvent::Rejected =>
                self.current is Some,
            _ => true,
        }
    }
}

impl View for BlockAssembly {
    type V = AssemblyView;

    closed spec fn view(&self) -> AssemblyView {
        AssemblyView {
            deadline: self.deadline,
            inherents_left: self.inherents_left as nat,
            considered: self.considered as nat,
            pending_size: self.pending_size as nat,
            unqueue_invalid: self.unqueue_invalid@,
            current: self.current,
        }
    }
}

impl<I> CreateProposal<I> {
    /// Start the block of this proposal, which uses up the inherent data.
    pub fn start_block(&mut self) -> (started: (I, BlockAssembly))
        requires
            old(self).inherent_data is Some,
        ensures
            Some(started.0) == old(self).inherent_data,
            started.1@ == AssemblyView::start(old(self).deadline),
            started.1@.deadline == old(self).deadline,
            started.1@.inherents_left == 0,
            started.1@.considered == 0,
            started.1@.pending_size == 0,
            started.1@.unqueue_invalid.len() == 0,
            started.1@.current is None,
            *final(self) == (CreateProposal { inherent_data: None::<I>, ..*old(self) }),
    {
        let data = self.inherent_data.take();
        let assembly = BlockAssembly {
            deadline: self.deadline,
            inherents_left: 0,
            considered: 0,
            pending_size: 0,
            unqueue_invalid: Vec::new(),
            current: None,
        };
        assert(assembly@ =~= AssemblyView::start(self.deadline));
        (data.unwrap(), assembly)
    }
}

impl BlockAssembly {
    #[verifier::type_invariant]
    spec fn wf(self) -> bool {
        self@.wf()
    }

    /// The transactions that the block builder refused as invalid, in order.
    pub fn unqueue_invalid(&self) -> (hashes: &Vec<H256>)
        ensures
            hashes@ == self@.unqueue_invalid,
    {
        &self.unqueue_invalid
    }

    /// Whether the block stays below the size limit with a transaction of this encoded size.
    pub fn fits(&self, encoded_size: usize) -> (fits: bool)
        ensures
            fits == (self@.pending_size + encoded_size < MAX_TRANSACTIONS_SIZE),
            fits <==> self@.pending_size + encoded_size < 4_194_304,
    {
        proof {
            use_type_invariant(self);
        }
        encoded_size < MAX_TRANSACTIONS_SIZE - self.pending_size
    }

    /// The next action for the block, after an event.
    pub fn handle(&mut self, event: AssemblyEvent) -> (action: AssemblyAction)
        requires
            old(self)@.expects(event),
        ensures
            (final(self)@, action) == assembly_next(old(self)@, event),
    {
        proof {
            use_type_invariant(&*self);
        }
        match event {
            AssemblyEvent::NewHeadsPut(Ok(_)) => AssemblyAction::OpenBuilder,
            AssemblyEvent::NewHeadsPut(Err(message)) => AssemblyAction::Fail(
                Error::InherentError(message),
            ),
            AssemblyEvent::BuilderOpened(Ok(_)) => AssemblyAction::FetchInherents,
            AssemblyEvent::InherentsFetched(Ok(count)) => {
                self.inherents_left = count;
                self.next_push()
            },
            AssemblyEvent::InherentPushed(Ok(_)) => {
                self.inherents_left = self.inherents_left - 1;
                self.next_push()
            },
            AssemblyEvent::Ready(transaction, now) => {
                self.considered = self.considered + 1;
                if !self.fits(transaction.encoded_size) {
                    return AssemblyAction::RemoveInvalid;
                }
                if now > self.deadline {
                    return AssemblyAction::RemoveInvalid;
                }
                self.current = Some(transaction);
                AssemblyAction::PushTransaction
            },
            AssemblyEvent::Exhausted => AssemblyAction::RemoveInvalid,
            AssemblyEvent::Pushed => {
                if let Some(transaction) = self.current {
                    self.current = None;
                    self.pending_size = self.pending_size + transaction.encoded_size;
                }
                self.next_transaction()
            },
            AssemblyEvent::FullBlock => {
                self.current = None;
                AssemblyAction::RemoveInvalid
            },
            AssemblyEvent::Rejected => {
                if let Some(transaction) = self.current {
                    self.current = None;
                    let mut invalid: Vec<H256> = Vec::new();
                    std::mem::swap(&mut invalid, &mut self.unqueue_invalid);
                    invalid.push(transaction.hash);
                    self.unqueue_invalid = invalid;
                }
                self.next_transaction()
            },
            AssemblyEvent::InvalidRemoved => AssemblyAction::Bake,
            AssemblyEvent::Baked(Ok(_)) => AssemblyAction::FetchParachains,
            AssemblyEvent::ParachainsFetched(Ok(_)) => AssemblyAction::Evaluate,
            AssemblyEvent::Evaluated => AssemblyAction::Finish,
            AssemblyEvent::BuilderOpened(Err(message))
            | AssemblyEvent::InherentsFetched(Err(message))
            | AssemblyEvent::InherentPushed(Err(message))
            | AssemblyEvent::Baked(Err(message))
            | AssemblyEvent::ParachainsFetched(Err(message)) => AssemblyAction::Fail(
                Error::Client(message),
            ),
        }
    }

    fn next_push(&self) -> (action: AssemblyAction)
        ensures
            (self@, action) == push_inherents(self@, self@.inherents_left),
    {
        if self.inherents_left > 0 {
            AssemblyAction::PushInherent
        } else {
            self.next_transaction()
        }
    }

    fn next_transaction(&self) -> (action: AssemblyAction)
        ensures
            (self@, action) == take_next(self@),
    {
        if self.considered < MAX_TRANSACTIONS {
            AssemblyAction::NextTransaction
        } else {
            AssemblyAction::RemoveInvalid
        }
    }
}

/// The state and the action that a block has come to after some events.
pub open spec fn assembly_run(deadline: u128, events: Seq<AssemblyEvent>) -> (
    AssemblyView,
    AssemblyAction,
)
    decreases events.len(),
{
    if events.len() == 0 {
        (AssemblyView::start(deadline), AssemblyAction::PutNewHeads)
    } else {
        assembly_next(assembly_run(deadline, events.drop_last()).0, events.last())
    }
}

/// Whether the events are those of one block: each answers the action before it.
pub open spec fn is_assembly(deadline: u128, events: Seq<AssemblyEvent>) -> bool
    decreases events.len(),
{
    events.len() > 0 ==> {
        &&& is_assembly(deadline, events.drop_last())
        &&& assembly_answers(assembly_run(deadline, events.drop_last()).1, events.last())
    }
}

/// The transaction that was made ready by the event before the last.
pub open spec fn last_tried(events: Seq<AssemblyEvent>) -> Option<Transaction> {
    if events.len() >= 2 {
        match events[events.len() - 2] {
            AssemblyEvent::Ready(transaction, _) => Some(transaction),
            _ => None,
        }
    } else {
        None
    }
}

/// The transactions that were taken from the pool, in order.
pub open spec fn taken(events: Seq<AssemblyEvent>) -> Seq<Transaction>
    decreases events.len(),
{
    if events.len() == 0 {
        Seq::empty()
    } else {
        let earlier = taken(events.drop_last());
        match events.last() {
            AssemblyEvent::Ready(transaction, _) => earlier.push(transaction),
            _ => earlier,
        }
    }
}

/// The transactions that the block builder accepted, in order.
pub open spec fn included(events: Seq<AssemblyEvent>) -> Seq<Transaction>
    decreases events.len(),
{
    if events.len() == 0 {
        Seq::empty()
    } else {
        let earlier = included(events.drop_last());
        match (events.last(), last_tried(events)) {
            (AssemblyEvent::Pushed, Some(transaction)) => earlier.push(transaction),
            _ => earlier,
        }
    }
}

/// The hashes of the transactions that the block builder refused as invalid, in order.
pub open spec fn refused(events: Seq<AssemblyEvent>) -> Seq<H256>
    decreases events.len(),
{
    if events.len() == 0 {
        Seq::empty()
    } else {
        let earlier = refused(events.drop_last());
        match (events.last(), last_tried(events)) {
            (AssemblyEvent::Rejected, Some(transaction)) => earlier.push(transaction.hash),
            _ => earlier,
        }
    }
}

/// The number of inherents that the inherent data gave rise to.
pub open spec fn inherents_announced(events: Seq<AssemblyEvent>) -> nat
    decreases events.len(),
{
    if events.len() == 0 {
        0
    } else {
        match events.last() {
            AssemblyEvent::InherentsFetched(Ok(count)) => count as nat,
            _ => inherents_announced(events.drop_last()),
        }
    }
}

/// The number of inherents that the block builder accepted.
pub open spec fn inherents_pushed(events: Seq<AssemblyEvent>) -> nat
    decreases events.len(),
{
    if events.len() == 0 {
        0
    } else {
        inherents_pushed(events.drop_last()) + match events.last() {
            AssemblyEvent::InherentPushed(Ok(_)) => 1nat,
            _ => 0nat,
        }
    }
}

/// The number of times that the pool was asked for a transaction.
pub open spec fn pool_requests(events: Seq<AssemblyEvent>) -> nat
    decreases events.len(),
{
    if events.len() == 0 {
        0
    } else {
        pool_requests(events.drop_last()) + match events.last() {
            AssemblyEvent::Ready(..) | AssemblyEvent::Exhausted => 1nat,
            _ => 0nat,
        }
    }
}

/// The number of times that invalid transactions were taken out of the pool.
pub open spec fn removals(events: Seq<AssemblyEvent>) -> nat
    decreases events.len(),
{
    if events.len() == 0 {
        0
    } else {
        removals(events.drop_last()) + match events.last() {
            AssemblyEvent::InvalidRemoved => 1nat,
            _ => 0nat,
        }
    }
}

/// Whether the last event is one of the steps up to the last inherent.
pub open spec fn before_transactions(events: Seq<AssemblyEvent>) -> bool {
    ||| events.last() is NewHeadsPut
    ||| events.last() is BuilderOpened
    ||| events.last() is InherentsFetched
    ||| events.last() is InherentPushed
}

/// The encoded size of some transactions together.
pub open spec fn total_size(transactions: Seq<Transaction>) -> nat
    decreases transactions.len(),
{
    if transactions.len() == 0 {
        0
    } else {
        total_size(transactions.drop_last()) + transactions.last().encoded_size as nat
    }
}

/// What holds at each point of a block in the making.
spec fn on_course(deadline: u128, events: Seq<AssemblyEvent>) -> bool {
    let (state, action) = assembly_run(deadline, events);
    &&& state.wf()
    &&& state.deadline == deadline
    &&& state.pending_size == total_size(included(events))
    &&& state.unqueue_invalid == refused(events)
    &&& inherents_announced(events) == inherents_pushed(events) + state.inherents_left
    &&& included(events).len() + refused(events).len() <= state.considered
    &&& match action {
        AssemblyAction::PutNewHeads | AssemblyAction::OpenBuilder
        | AssemblyAction::FetchInherents => {
            &&& state.current is None
            &&& inherents_announced(events) == 0
            &&& state.inherents_left == 0
        },
        AssemblyAction::PushInherent => state.inherents_left > 0 && state.current is None,
        AssemblyAction::NextTransaction => {
            &&& state.inherents_left == 0
            &&& state.current is None
            &&& state.considered < MAX_TRANSACTIONS
        },
        AssemblyAction::PushTransaction => {
            &&& state.inherents_left == 0
            &&& included(events).len() + refused(events).len() < state.considered
            &&& events.last() matches AssemblyEvent::Ready(transaction, now)
            &&& state.current == Some(transaction)
            &&& now <= deadline
        },
        AssemblyAction::Fail(_) => true,
        _ => state.inherents_left == 0,
    }
}

proof fn lemma_on_course(deadline: u128, events: Seq<AssemblyEvent>)
    requires
        is_assembly(deadline, events),
    ensures
        on_course(deadline, events),
    decreases events.len(),
{
    if events.len() > 0 {
        let earlier = events.drop_last();
        lemma_on_course(deadline, earlier);
        if events.last() is Pushed {
            assert(last_tried(events) == Some(
                assembly_run(deadline, earlier).0.current->0,
            ));
            assert(included(events).drop_last() =~= included(earlier));
        }
    }
}

/// A block keeps its limits: at most so many transactions are considered, those that are in the
/// block or refused are among them, and those in the block stay below the size limit together.
pub proof fn lemma_block_limits(deadline: u128, events: Seq<AssemblyEvent>)
    requires
        is_assembly(deadline, events),
    ensures
        included(events).len() + refused(events).len() <= assembly_run(
            deadline,
            events,
        ).0.considered <= MAX_TRANSACTIONS,
        total_size(included(events)) < MAX_TRANSACTIONS_SIZE,
{
    lemma_on_course(deadline, events);
}

/// Whether `positions` are ascending positions in a sequence of the given length.
pub open spec fn ascending(positions: Seq<int>, len: nat) -> bool {
    &&& forall|i: int| 0 <= i < positions.len() ==> 0 <= #[trigger] positions[i] < len
    &&& forall|i: int, j: int|
        0 <= i < j < positions.len() ==> #[trigger] positions[i] < #[trigger] positions[j]
}

/// Whether the transactions in the block are those that were taken at the positions `inside`,
/// and the refused ones those that were taken at the positions `outside`, both in the order in
/// which they were taken, and none at both.
pub open spec fn picked_from_taken(
    events: Seq<AssemblyEvent>,
    inside: Seq<int>,
    outside: Seq<int>,
) -> bool {
    &&& ascending(inside, taken(events).len())
    &&& ascending(outside, taken(events).len())
    &&& included(events).len() == inside.len()
    &&& refused(events).len() == outside.len()
    &&& forall|i: int|
        0 <= i < inside.len() ==> #[trigger] included(events)[i] == taken(events)[inside[i]]
    &&& forall|i: int|
        0 <= i < outside.len() ==> #[trigger] refused(events)[i]
            == taken(events)[outside[i]].hash
    &&& forall|i: int, j: int|
        0 <= i < inside.len() && 0 <= j < outside.len() ==> #[trigger] inside[i]
            != #[trigger] outside[j]
}

/// While a transaction is being pushed, it is the last one taken, and at neither kind of
/// position.
spec fn last_is_open(events: Seq<AssemblyEvent>, inside: Seq<int>, outside: Seq<int>) -> bool {
    let last = taken(events).len() - 1;
    &&& events.last() matches AssemblyEvent::Ready(transaction, _) && last >= 0 && taken(
        events,
    )[last] == transaction
    &&& forall|i: int| 0 <= i < inside.len() ==> #[trigger] inside[i] < last
    &&& forall|i: int| 0 <= i < outside.len() ==> #[trigger] outside[i] < last
}

proof fn lemma_picked(deadline: u128, events: Seq<AssemblyEvent>) -> (positions: (
    Seq<int>,
    Seq<int>,
))
    requires
        is_assembly(deadline, events),
    ensures
        taken(events).len() == assembly_run(deadline, events).0.considered,
        picked_from_taken(events, positions.0, positions.1),
        assembly_run(deadline, events).1 is PushTransaction ==> last_is_open(
            events,
            positions.0,
            positions.1,
        ),
    decreases events.len(),
{
    if events.len() == 0 {
        (Seq::empty(), Seq::empty())
    } else {
        let earlier = events.drop_last();
        let (inside, outside) = lemma_picked(deadline, earlier);
        let last = taken(earlier).len() - 1;
        match events.last() {
            AssemblyEvent::Pushed => {
                assert(last_is_open(earlier, inside, outside));
                assert(events[events.len() - 2] == earlier.last());
                let more = inside.push(last);
                assert(picked_from_taken(events, more, outside));
                (more, outside)
            },
            AssemblyEvent::Rejected => {
                assert(last_is_open(earlier, inside, outside));
                assert(events[events.len() - 2] == earlier.last());
                let more = outside.push(last);
                assert(picked_from_taken(events, inside, more));
                (inside, more)
            },
            _ => {
                assert(picked_from_taken(events, inside, outside));
                (inside, outside)
            },
        }
    }
}

/// The transactions in the block are a subsequence of those taken from the pool, in the same
/// order, and so are the refused ones; none that was taken is both. As many were taken as were
/// considered.
pub proof fn lemma_block_follows_pool(deadline: u128, events: Seq<AssemblyEvent>)
    requires
        is_assembly(deadline, events),
    ensures
        taken(events).len() == assembly_run(deadline, events).0.considered,
        exists|inside: Seq<int>, outside: Seq<int>| #[trigger]
            picked_from_taken(events, inside, outside),
{
    let (inside, outside) = lemma_picked(deadline, events);
}

/// The transactions that are taken out of the pool are those that the block builder refused as
/// invalid, and no others.
pub proof fn lemma_only_refused_are_removed(deadline: u128, events: Seq<AssemblyEvent>)
    requires
        is_assembly(deadline, events),
    ensures
        assembly_run(deadline, events).0.unqueue_invalid == refused(events),
{
    lemma_on_course(deadline, events);
}

/// A transaction is pushed only after all inherents, not after the deadline, and only where the
/// block stays below the size limit with it.
pub proof fn lemma_when_to_push(deadline: u128, events: Seq<AssemblyEvent>)
    requires
        is_assembly(deadline, events),
        assembly_run(deadline, events).1 is PushTransaction,
    ensures
        inherents_pushed(events) == inherents_announced(events),
        events.last() matches AssemblyEvent::Ready(transaction, now) && now <= deadline
            && total_size(included(events)) + transaction.encoded_size < MAX_TRANSACTIONS_SIZE,
{
    lemma_on_course(deadline, events);
}

/// A finished block holds all its inherents, its invalid transactions are out of the pool, and
/// it was baked and evaluated after that.
pub proof fn lemma_finished_block(deadline: u128, events: Seq<AssemblyEvent>)
    requires
        is_assembly(deadline, events),
        assembly_run(deadline, events).1 is Finish,
    ensures
        inherents_pushed(events) == inherents_announced(events),
        events.len() >= 4,
        events[events.len() - 4] is InvalidRemoved,
        events[events.len() - 3] matches AssemblyEvent::Baked(Ok(_)),
        events[events.len() - 2] matches AssemblyEvent::ParachainsFetched(Ok(_)),
        events[events.len() - 1] is Evaluated,
{
    lemma_on_course(deadline, events);
    let evaluating = events.drop_last();
    let fetching = evaluating.drop_last();
    let baking = fetching.drop_last();
    assert(assembly_run(deadline, evaluating).1 is Evaluate);
    assert(is_assembly(deadline, evaluating));
    assert(assembly_run(deadline, fetching).1 is FetchParachains);
    assert(is_assembly(deadline, fetching));
    assert(assembly_run(deadline, baking).1 is Bake);
    assert(is_assembly(deadline, baking));
}

/// How far the pool has been used at each point of a block in the making.
spec fn pool_on_course(deadline: u128, events: Seq<AssemblyEvent>) -> bool {
    match assembly_run(deadline, events).1 {
        AssemblyAction::PutNewHeads | AssemblyAction::OpenBuilder
        | AssemblyAction::FetchInherents | AssemblyAction::PushInherent => pool_requests(events)
            == 0 && removals(events) == 0,
        AssemblyAction::NextTransaction | AssemblyAction::PushTransaction
        | AssemblyAction::RemoveInvalid => removals(events) == 0,
        AssemblyAction::Bake | AssemblyAction::FetchParachains | AssemblyAction::Evaluate
        | AssemblyAction::Finish => removals(events) == 1,
        AssemblyAction::Fail(_) => if before_transactions(events) {
            pool_requests(events) == 0 && removals(events) == 0
        } else {
            removals(events) == 1
        },
    }
}

proof fn lemma_pool_on_course(deadline: u128, events: Seq<AssemblyEvent>)
    requires
        is_assembly(deadline, events),
    ensures
        pool_on_course(deadline, events),
    decreases events.len(),
{
    if events.len() > 0 {
        lemma_pool_on_course(deadline, events.drop_last());
    }
}

/// A finished block has had its invalid transactions taken out of the pool exactly once.
pub proof fn lemma_finished_block_prunes_once(deadline: u128, events: Seq<AssemblyEvent>)
    requires
        is_assembly(deadline, events),
        assembly_run(deadline, events).1 is Finish,
    ensures
        removals(events) == 1,
{
    lemma_pool_on_course(deadline, events);
}

/// A block that fails before its inherents are in has neither asked the pool for a transaction
/// nor taken one out of it. One that fails later has pruned the pool exactly once.
pub proof fn lemma_failed_block_and_pool(deadline: u128, events: Seq<AssemblyEvent>)
    requires
        is_assembly(deadline, events),
        assembly_run(deadline, events).1 is Fail,
    ensures
        before_transactions(events) ==> pool_requests(events) == 0 && removals(events) == 0,
        !before_transactions(events) ==> removals(events) == 1 && inherents_pushed(events)
            == inherents_announced(events),
{
    lemma_pool_on_course(deadline, events);
    lemma_on_course(deadline, events.drop_last());
}

/// Whoever answers the actions of a block one by one can always hand on the answer.
pub proof fn lemma_answers_are_expected(
    deadline: u128,
    events: Seq<AssemblyEvent>,
    answer: AssemblyEvent,
)
    requires
        is_assembly(deadline, events),
        assembly_answers(assembly_run(deadline, events).1, answer),
    ensures
        assembly_run(deadline, events).0.expects(answer),
{
    lemma_on_course(deadline, events);
}

/// What becomes of a transaction that is ready in time and with which the block stays below four
/// mebibytes, in whatever state it comes: it is pushed. If it goes in, the block grows by exactly
/// its size; if it is refused, its hash is the one more to be taken out of the pool; if the block
/// is full, neither. It counts as considered in each case, and the next one is taken unless it was
/// the fortieth or the block is full. Nothing else changes.
pub proof fn lemma_transaction_in_time(state: AssemblyView, transaction: Transaction, now: u128)
    requires
        now <= state.deadline,
        state.pending_size + transaction.encoded_size < 4_194_304,
    ensures
        assembly_next(state, AssemblyEvent::Ready(transaction, now)).1
            == AssemblyAction::PushTransaction,
        ({
            let trying = assembly_next(state, AssemblyEvent::Ready(transaction, now)).0;
            let (pushed, action) = assembly_next(trying, AssemblyEvent::Pushed);
            &&& pushed.deadline == state.deadline
            &&& pushed.inherents_left == state.inherents_left
            &&& pushed.considered == state.considered + 1
            &&& pushed.pending_size == state.pending_size + transaction.encoded_size
            &&& pushed.unqueue_invalid == state.unqueue_invalid
            &&& pushed.current is None
            &&& state.considered + 1 < 40 ==> action == AssemblyAction::NextTransaction
            &&& state.considered + 1 >= 40 ==> action == AssemblyAction::RemoveInvalid
        }),
        ({
            let trying = assembly_next(state, AssemblyEvent::Ready(transaction, now)).0;
            let (refused, action) = assembly_next(trying, AssemblyEvent::Rejected);
            &&& refused.deadline == state.deadline
            &&& refused.inherents_left == state.inherents_left
            &&& refused.considered == state.considered + 1
            &&& refused.pending_size == state.pending_size
            &&& refused.unqueue_invalid == state.unqueue_invalid + seq![transaction.hash]
            &&& refused.current is None
            &&& state.considered + 1 < 40 ==> action == AssemblyAction::NextTransaction
            &&& state.considered + 1 >= 40 ==> action == AssemblyAction::RemoveInvalid
        }),
        ({
            let trying = assembly_next(state, AssemblyEvent::Ready(transaction, now)).0;
            let (full, action) = assembly_next(trying, AssemblyEvent::FullBlock);
            &&& full.deadline == state.deadline
            &&& full.inherents_left == state.inherents_left
            &&& full.considered == state.considered + 1
            &&& full.pending_size == state.pending_size
            &&& full.unqueue_invalid == state.unqueue_invalid
            &&& full.current is None
            &&& action == AssemblyAction::RemoveInvalid
        }),
{
    assert(state.unqueue_invalid.push(transaction.hash) =~= state.unqueue_invalid
        + seq![transaction.hash]);
}

/// A transaction that is ready too late, or with which the block would reach four mebibytes, ends
/// the selection: it counts as considered, and nothing else changes.
pub proof fn lemma_transaction_turned_away(
    state: AssemblyView,
    transaction: Transaction,
    now: u128,
)
    requires
        now > state.deadline || state.pending_size + transaction.encoded_size >= 4_194_304,
    ensures
        ({
            let (after, action) = assembly_next(state, AssemblyEvent::Ready(transaction, now));
            &&& action == AssemblyAction::RemoveInvalid
            &&& after.deadline == state.deadline
            &&& after.inherents_left == state.inherents_left
            &&& after.considered == state.considered + 1
            &&& after.pending_size == state.pending_size
            &&& after.unqueue_invalid == state.unqueue_invalid
            &&& after.current == state.current
        }),
{
}

/// No event changes the deadline. Those that are not about a transaction change nothing but the
/// number of inherents that are left: it is as many as were announced, and one less with each
/// that is pushed.
pub proof fn lemma_what_other_events_leave(state: AssemblyView, event: AssemblyEvent)
    ensures
        assembly_next(state, event).0.deadline == state.deadline,
        !(event is Ready || event is Pushed || event is FullBlock || event is Rejected) ==> {
            let after = assembly_next(state, event).0;
            &&& after.considered == state.considered
            &&& after.pending_size == state.pending_size
            &&& after.unqueue_invalid == state.unqueue_invalid
            &&& after.current == state.current
        },
        event matches AssemblyEvent::InherentsFetched(Ok(count)) ==> assembly_next(
            state,
            event,
        ).0.inherents_left == count,
        event matches AssemblyEvent::InherentPushed(Ok(_)) ==> state.inherents_left > 0
            ==> assembly_next(state, event).0.inherents_left + 1 == state.inherents_left,
        !(event is InherentsFetched || event is InherentPushed) ==> assembly_next(
            state,
            event,
        ).0.inherents_left == state.inherents_left,
{
}

/// Where each answer leads in every block. The block builder is opened once the candidates are in
/// the inherent data, and asked for the inherents next; these are pushed as long as fewer have
/// been than there are. Then transactions are taken, up to forty. One that is ready is pushed
/// exactly if it is not after the deadline and the transactions in the block stay below four
/// mebibytes with it; else, and where there are no more or the block is full, the invalid ones
/// are taken out of the pool, and the block is baked, and evaluated once the parachains are known.
pub proof fn lemma_where_answers_lead(deadline: u128, events: Seq<AssemblyEvent>)
    requires
        is_assembly(deadline, events),
        events.len() > 0,
    ensures
        ({
            let action = assembly_run(deadline, events).1;
            match events.last() {
                AssemblyEvent::NewHeadsPut(Ok(_)) => action == AssemblyAction::OpenBuilder,
                AssemblyEvent::NewHeadsPut(Err(message)) => action == AssemblyAction::Fail(
                    Error::InherentError(message),
                ),
                AssemblyEvent::BuilderOpened(Ok(_)) => action == AssemblyAction::FetchInherents,
                AssemblyEvent::BuilderOpened(Err(message)) => action == AssemblyAction::Fail(
                    Error::Client(message),
                ),
                AssemblyEvent::InherentsFetched(Ok(count)) => {
                    &&& count > 0 ==> action == AssemblyAction::PushInherent
                    &&& count == 0 ==> action == AssemblyAction::NextTransaction
                },
                AssemblyEvent::InherentsFetched(Err(message)) => action == AssemblyAction::Fail(
                    Error::Client(message),
                ),
                AssemblyEvent::InherentPushed(Ok(_)) => {
                    let (pushed, announced) = (
                        inherents_pushed(events),
                        inherents_announced(events),
                    );
                    &&& pushed <= announced
                    &&& pushed < announced ==> action == AssemblyAction::PushInherent
                    &&& pushed == announced ==> action == AssemblyAction::NextTransaction
                },
                AssemblyEvent::InherentPushed(Err(message)) => action == AssemblyAction::Fail(
                    Error::Client(message),
                ),
                AssemblyEvent::Ready(transaction, now) => {
                    let size = total_size(included(events)) + transaction.encoded_size;
                    &&& now <= deadline && size < 4_194_304 ==> action
                        == AssemblyAction::PushTransaction
                    &&& now > deadline || size >= 4_194_304 ==> action
                        == AssemblyAction::RemoveInvalid
                },
                AssemblyEvent::Exhausted => action == AssemblyAction::RemoveInvalid,
                AssemblyEvent::FullBlock => action == AssemblyAction::RemoveInvalid,
                AssemblyEvent::Pushed | AssemblyEvent::Rejected => {
                    &&& taken(events).len() <= 40
                    &&& taken(events).len() < 40 ==> action == AssemblyAction::NextTransaction
                    &&& taken(events).len() == 40 ==> action == AssemblyAction::RemoveInvalid
                },
                AssemblyEvent::InvalidRemoved => action == AssemblyAction::Bake,
                AssemblyEvent::Baked(Ok(_)) => action == AssemblyAction::FetchParachains,
                AssemblyEvent::Baked(Err(message)) => action == AssemblyAction::Fail(
                    Error::Client(message),
                ),
                AssemblyEvent::ParachainsFetched(Ok(_)) => action == AssemblyAction::Evaluate,
                AssemblyEvent::ParachainsFetched(Err(message)) => action == AssemblyAction::Fail(
                    Error::Client(message),
                ),
                AssemblyEvent::Evaluated => action == AssemblyAction::Finish,
            }
        }),
{
    let earlier = events.drop_last();
    lemma_on_course(deadline, events);
    lemma_on_course(deadline, earlier);
    lemma_block_follows_pool(deadline, events);
    lemma_untouched_before_transactions(deadline, earlier);
}

/// No transaction is considered before all inherents are in.
proof fn lemma_untouched_before_transactions(deadline: u128, events: Seq<AssemblyEvent>)
    requires
        is_assembly(deadline, events),
    ensures
        match assembly_run(deadline, events).1 {
            AssemblyAction::PutNewHeads | AssemblyAction::OpenBuilder
            | AssemblyAction::FetchInherents | AssemblyAction::PushInherent => assembly_run(
                deadline,
                events,
            ).0.considered == 0,
            _ => true,
        },
    decreases events.len(),
{
    if events.len() > 0 {
        lemma_untouched_before_transactions(deadline, events.drop_last());
    }
}

/// The selection of transactions ends only for one of these reasons: the pool has no more, the
/// block is full, forty have been taken, or the last one came after the deadline or would have
/// made the transactions in the block reach four mebibytes.
pub proof fn lemma_why_selection_ends(deadline: u128, events: Seq<AssemblyEvent>)
    requires
        is_assembly(deadline, events),
        assembly_run(deadline, events).1 is RemoveInvalid,
    ensures
        events.len() > 0,
        events.last() is Exhausted || events.last() is FullBlock || taken(events).len() == 40 || (
        events.last() matches AssemblyEvent::Ready(transaction, now) && (now > deadline
            || total_size(included(events)) + transaction.encoded_size >= 4_194_304)),
{
    lemma_where_answers_lead(deadline, events);
}

/// Every event that refused a transaction follows the one that made it ready, and its hash is
/// listed to be taken out of the pool from then on.
pub proof fn lemma_every_refusal_is_listed(deadline: u128, events: Seq<AssemblyEvent>, i: int)
    requires
        is_assembly(deadline, events),
        0 <= i < events.len(),
        events[i] is Rejected,
    ensures
        i > 0,
        events[i - 1] matches AssemblyEvent::Ready(transaction, _) && assembly_run(
            deadline,
            events,
        ).0.unqueue_invalid.contains(transaction.hash),
    decreases events.len(),
{
    let earlier = events.drop_last();
    let listed = assembly_run(deadline, events).0.unqueue_invalid;
    let listed_before = assembly_run(deadline, earlier).0.unqueue_invalid;
    if i == events.len() - 1 {
        lemma_on_course(deadline, earlier);
        assert(earlier.last() == events[i - 1]);
        assert(listed.last() == assembly_run(deadline, earlier).0.current->0.hash);
        assert(listed[listed.len() - 1] == listed.last());
    } else {
        assert(earlier[i] == events[i]);
        lemma_every_refusal_is_listed(deadline, earlier, i);
        assert(earlier[i - 1] == events[i - 1]);
        let hash = events[i - 1]->Ready_0.hash;
        let k = choose|k: int| 0 <= k < listed_before.len() && listed_before[k] == hash;
        assert(listed[k] == hash);
    }
}

/// Every hash that is listed to be taken out of the pool is that of a transaction which was made
/// ready and refused by the event after that.
pub proof fn lemma_listed_was_refused(deadline: u128, events: Seq<AssemblyEvent>, k: int)
    requires
        is_assembly(deadline, events),
        0 <= k < assembly_run(deadline, events).0.unqueue_invalid.len(),
    ensures
        exists|i: int|
            0 < i < events.len() && #[trigger] events[i] is Rejected && events[i - 1] is Ready
                && events[i - 1]->Ready_0.hash == assembly_run(
                deadline,
                events,
            ).0.unqueue_invalid[k],
    decreases events.len(),
{
    if events.len() > 0 {
        let earlier = events.drop_last();
        let listed_before = assembly_run(deadline, earlier).0.unqueue_invalid;
        if k < listed_before.len() {
            lemma_listed_was_refused(deadline, earlier, k);
            let i = choose|i: int|
                0 < i < earlier.len() && #[trigger] earlier[i] is Rejected && earlier[i - 1]
                    is Ready && earlier[i - 1]->Ready_0.hash == listed_before[k];
            assert(events[i] == earlier[i]);
            assert(events[i - 1] == earlier[i - 1]);
        } else {
            let last = events.len() - 1;
            lemma_on_course(deadline, earlier);
            assert(events[last] is Rejected);
            assert(earlier.last() == events[last - 1]);
        }
    }
}

} // verus!
