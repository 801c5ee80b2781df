use parachain_validation::assembly::{
    AssemblyAction, AssemblyEvent, BlockAssembly, Transaction, MAX_TRANSACTIONS,
    MAX_TRANSACTIONS_SIZE,
};
use parachain_validation::ed25519::Pair;
use parachain_validation::proposer::{Observed, ParentHeader};
use parachain_validation::timing::{ProposalTiming, TimingAction, TimingEvent};
use parachain_validation::{CreateProposal, Error, Proposer, ProposerFactory};

fn proposer() -> Proposer {
    Proposer { parent_hash: [1; 32], parent_number: 41, slot_duration: 10 }
}

fn observed() -> Observed {
    Observed {
        initial_included: 2,
        acceptable_in: Some(5_000_000),
        believed_timestamp: Ok(1000),
        current_timestamp: 1000,
        max_duration: 100,
    }
}

fn proposal() -> CreateProposal<u8> {
    proposer().propose(77u8, observed()).ok().unwrap()
}

#[test]
fn factory_prepares_session_and_proposer() {
    let key = Pair::from_seed([3; 32]);
    let factory = ProposerFactory::new(key, 6, Some(9));
    let header = ParentHeader { hash: [1; 32], parent_hash: [2; 32], number: 8 };
    let (request, proposer) = factory.init(&header);
    assert_eq!(request.parent_hash, [1; 32]);
    assert_eq!(request.grandparent_hash, [2; 32]);
    assert_eq!(request.local_id, key.public());
    assert_ne!(request.local_id, [3; 32]);
    assert_eq!(request.sign_with.seed, [3; 32]);
    assert_eq!(request.max_block_data_size, Some(9));
    assert_eq!(proposer.parent_hash, [1; 32]);
    assert_eq!(proposer.parent_number, 8);
    assert_eq!(proposer.slot_duration, 6);
}

#[test]
fn candidates_are_waited_for_a_third_of_the_slot() {
    assert_eq!(proposer().inclusion_window(), 3);
    let proposer = Proposer { slot_duration: 2, ..proposer() };
    assert_eq!(proposer.inclusion_window(), 0);
}

#[test]
fn proposal_carries_over_what_was_observed() {
    let created = proposal();
    assert_eq!(created.parent_hash, [1; 32]);
    assert_eq!(created.parent_number, 41);
    assert_eq!(created.inherent_data, Some(77));
    assert_eq!(created.believed_minimum_timestamp, 1000);
    assert_eq!(created.delays.minimum, None);
    assert_eq!(created.delays.attempt_propose, 100_000_000);
    assert_eq!(created.delays.enough_candidates, 5_000_000);
    assert_eq!(created.timing, ProposalTiming { minimum: false, last_included: 2 });
    assert_eq!(created.deadline, 67);
}

#[test]
fn sufficient_candidates_wake_up_after_a_millisecond() {
    let seen = Observed { acceptable_in: None, ..observed() };
    let created = proposer().propose((), seen).ok().unwrap();
    assert_eq!(created.delays.enough_candidates, 1_000_000);
}

#[test]
fn timestamp_ahead_is_waited_for() {
    let seen = Observed { current_timestamp: 990, ..observed() };
    let created = proposer().propose((), seen).ok().unwrap();
    assert_eq!(created.delays.minimum, Some(10));
    assert!(created.timing.minimum);

    let seen = Observed { current_timestamp: 1010, ..observed() };
    let created = proposer().propose((), seen).ok().unwrap();
    assert_eq!(created.delays.minimum, None);
    assert!(!created.timing.minimum);
}

#[test]
fn unreadable_timestamp_is_an_inherent_error() {
    let seen = Observed { believed_timestamp: Err("no timestamp".to_string()), ..observed() };
    let failed = proposer().propose((), seen);
    assert_eq!(failed.err(), Some(Error::InherentError("no timestamp".to_string())));
}

#[test]
fn poll_drains_the_interval_first() {
    let mut timing = ProposalTiming { minimum: true, last_included: 1 };
    assert_eq!(timing.handle(1, TimingEvent::Ticked), TimingAction::PollInterval);
    assert_eq!(timing.handle(1, TimingEvent::Ticked), TimingAction::PollInterval);
    assert_eq!(timing.handle(1, TimingEvent::Drained), TimingAction::PollMinimum);
    assert_eq!(timing, ProposalTiming { minimum: true, last_included: 1 });
}

#[test]
fn poll_waits_for_the_minimum_time_once() {
    let mut timing = ProposalTiming { minimum: true, last_included: 1 };
    assert_eq!(timing.handle(5, TimingEvent::MinimumPending), TimingAction::Wait);
    assert_eq!(timing, ProposalTiming { minimum: true, last_included: 1 });
    assert_eq!(timing.handle(1, TimingEvent::MinimumPassed), TimingAction::PollEnough);
    assert!(!timing.minimum);
    assert_eq!(timing.handle(1, TimingEvent::Drained), TimingAction::PollEnough);
}

#[test]
fn changed_candidates_reschedule_the_wakeup() {
    let mut timing = ProposalTiming { minimum: false, last_included: 1 };
    assert_eq!(timing.handle(3, TimingEvent::Drained), TimingAction::AskInclusion);
    assert_eq!(
        timing.handle(3, TimingEvent::AcceptableIn(Some(250))),
        TimingAction::ResetEnough(250)
    );
    assert_eq!(timing.last_included, 3);
    assert_eq!(timing.handle(3, TimingEvent::EnoughPending), TimingAction::Wait);
    assert_eq!(timing.handle(3, TimingEvent::Drained), TimingAction::PollEnough);
    assert_eq!(timing.handle(3, TimingEvent::EnoughPassed), TimingAction::Propose);
}

#[test]
fn sufficient_candidates_propose_at_once() {
    let mut timing = ProposalTiming { minimum: false, last_included: 1 };
    assert_eq!(timing.handle(3, TimingEvent::Drained), TimingAction::AskInclusion);
    assert_eq!(timing.handle(3, TimingEvent::AcceptableIn(None)), TimingAction::Propose);
    assert_eq!(timing.last_included, 1);
}

#[test]
fn failing_timer_ends_the_poll() {
    let mut timing = ProposalTiming { minimum: false, last_included: 1 };
    assert_eq!(
        timing.handle(1, TimingEvent::EnoughFailed("gone".to_string())),
        TimingAction::Fail(Error::Timer("gone".to_string()))
    );
}

fn selecting(inherents: usize) -> BlockAssembly {
    let mut created = proposal();
    let (data, mut assembly) = created.start_block();
    assert_eq!(data, 77);
    assert_eq!(created.inherent_data, None);
    assert_eq!(assembly.handle(AssemblyEvent::NewHeadsPut(Ok(()))), AssemblyAction::OpenBuilder);
    assert_eq!(
        assembly.handle(AssemblyEvent::BuilderOpened(Ok(()))),
        AssemblyAction::FetchInherents
    );
    let mut action = assembly.handle(AssemblyEvent::InherentsFetched(Ok(inherents)));
    for _ in 0..inherents {
        assert_eq!(action, AssemblyAction::PushInherent);
        action = assembly.handle(AssemblyEvent::InherentPushed(Ok(())));
    }
    assert_eq!(action, AssemblyAction::NextTransaction);
    assembly
}

fn ready(byte: u8, encoded_size: usize) -> AssemblyEvent {
    AssemblyEvent::Ready(Transaction { hash: [byte; 32], encoded_size }, 10)
}

#[test]
fn block_is_made_step_by_step() {
    let mut assembly = selecting(2);
    assert_eq!(assembly.handle(ready(1, 100)), AssemblyAction::PushTransaction);
    assert_eq!(assembly.handle(AssemblyEvent::Pushed), AssemblyAction::NextTransaction);
    assert_eq!(assembly.handle(AssemblyEvent::Exhausted), AssemblyAction::RemoveInvalid);
    assert!(assembly.unqueue_invalid().is_empty());
    assert_eq!(assembly.handle(AssemblyEvent::InvalidRemoved), AssemblyAction::Bake);
    assert_eq!(assembly.handle(AssemblyEvent::Baked(Ok(()))), AssemblyAction::FetchParachains);
    assert_eq!(
        assembly.handle(AssemblyEvent::ParachainsFetched(Ok(()))),
        AssemblyAction::Evaluate
    );
    assert_eq!(assembly.handle(AssemblyEvent::Evaluated), AssemblyAction::Finish);
}

#[test]
fn refused_transactions_are_unqueued() {
    let mut assembly = selecting(0);
    for byte in 0..6u8 {
        assert_eq!(assembly.handle(ready(byte, 1)), AssemblyAction::PushTransaction);
        let outcome =
            if byte % 2 == 0 { AssemblyEvent::Pushed } else { AssemblyEvent::Rejected };
        assert_eq!(assembly.handle(outcome), AssemblyAction::NextTransaction);
    }
    assert_eq!(assembly.unqueue_invalid(), &vec![[1; 32], [3; 32], [5; 32]]);
}

#[test]
fn full_block_takes_no_more_transactions() {
    let mut assembly = selecting(0);
    assert_eq!(assembly.handle(ready(1, 1)), AssemblyAction::PushTransaction);
    assert_eq!(assembly.handle(AssemblyEvent::FullBlock), AssemblyAction::RemoveInvalid);
    assert!(assembly.unqueue_invalid().is_empty());
}

#[test]
fn size_limit_is_kept() {
    assert_eq!(MAX_TRANSACTIONS_SIZE, 4 * 1024 * 1024);
    let mut assembly = selecting(0);
    assert_eq!(
        assembly.handle(ready(1, MAX_TRANSACTIONS_SIZE - 2)),
        AssemblyAction::PushTransaction
    );
    assert_eq!(assembly.handle(AssemblyEvent::Pushed), AssemblyAction::NextTransaction);
    assert_eq!(assembly.handle(ready(2, 1)), AssemblyAction::PushTransaction);
    assert_eq!(assembly.handle(AssemblyEvent::Pushed), AssemblyAction::NextTransaction);
    assert_eq!(assembly.handle(ready(3, 1)), AssemblyAction::RemoveInvalid);

    let mut assembly = selecting(0);
    assert_eq!(assembly.handle(ready(1, usize::MAX)), AssemblyAction::RemoveInvalid);
}

#[test]
fn refused_transactions_do_not_count_towards_the_size() {
    let mut assembly = selecting(0);
    for byte in 0..3u8 {
        assert_eq!(
            assembly.handle(ready(byte, MAX_TRANSACTIONS_SIZE - 1)),
            AssemblyAction::PushTransaction
        );
        assert_eq!(assembly.handle(AssemblyEvent::Rejected), AssemblyAction::NextTransaction);
    }
}

#[test]
fn deadline_ends_the_selection() {
    let mut assembly = selecting(0);
    let transaction = Transaction { hash: [1; 32], encoded_size: 1 };
    assert_eq!(
        assembly.handle(AssemblyEvent::Ready(transaction, 67)),
        AssemblyAction::PushTransaction
    );
    assert_eq!(assembly.handle(AssemblyEvent::Pushed), AssemblyAction::NextTransaction);
    assert_eq!(
        assembly.handle(AssemblyEvent::Ready(transaction, 68)),
        AssemblyAction::RemoveInvalid
    );
}

#[test]
fn number_of_transactions_is_limited() {
    assert_eq!(MAX_TRANSACTIONS, 40);
    let mut assembly = selecting(0);
    for i in 0..40u8 {
        assert_eq!(assembly.handle(ready(i, 1)), AssemblyAction::PushTransaction);
        let outcome = if i < 20 { AssemblyEvent::Pushed } else { AssemblyEvent::Rejected };
        let expected =
            if i == 39 { AssemblyAction::RemoveInvalid } else { AssemblyAction::NextTransaction };
        assert_eq!(assembly.handle(outcome), expected);
    }
    assert_eq!(assembly.unqueue_invalid().len(), 20);
}

#[test]
fn failures_end_the_block() {
    let client = || AssemblyAction::Fail(Error::Client("broken".to_string()));
    let broken = || Err("broken".to_string());

    let (_, mut assembly) = proposal().start_block();
    assert_eq!(
        assembly.handle(AssemblyEvent::NewHeadsPut(broken())),
        AssemblyAction::Fail(Error::InherentError("broken".to_string()))
    );
    let (_, mut assembly) = proposal().start_block();
    assert_eq!(assembly.handle(AssemblyEvent::BuilderOpened(broken())), client());
    let failed = Err("broken".to_string());
    assert_eq!(assembly.handle(AssemblyEvent::InherentsFetched(failed)), client());
    assert_eq!(
        assembly.handle(AssemblyEvent::InherentsFetched(Ok(1))),
        AssemblyAction::PushInherent
    );
    assert_eq!(assembly.handle(AssemblyEvent::InherentPushed(broken())), client());
    assert_eq!(assembly.handle(AssemblyEvent::Baked(broken())), client());
    assert_eq!(assembly.handle(AssemblyEvent::ParachainsFetched(broken())), client());
}

#[test]
fn whole_poll_polls_the_interval_until_it_is_drained() {
    let mut timing = ProposalTiming { minimum: true, last_included: 1 };
    let mut answers = vec![
        TimingEvent::Ticked,
        TimingEvent::Drained,
        TimingEvent::MinimumPassed,
        TimingEvent::AcceptableIn(Some(9)),
        TimingEvent::EnoughPassed,
    ]
    .into_iter();
    let mut actions = vec![TimingAction::PollInterval];
    while let Some(event) = answers.next() {
        actions.push(timing.handle(2, event));
    }
    assert_eq!(
        actions,
        vec![
            TimingAction::PollInterval,
            TimingAction::PollInterval,
            TimingAction::PollMinimum,
            TimingAction::AskInclusion,
            TimingAction::ResetEnough(9),
            TimingAction::Propose,
        ]
    );
}

#[test]
fn finished_block_prunes_the_pool_once() {
    let mut assembly = selecting(1);
    let answers = vec![
        ready(1, 1),
        AssemblyEvent::Rejected,
        ready(2, 1),
        AssemblyEvent::FullBlock,
        AssemblyEvent::InvalidRemoved,
        AssemblyEvent::Baked(Ok(())),
        AssemblyEvent::ParachainsFetched(Ok(())),
        AssemblyEvent::Evaluated,
    ];
    let actions: Vec<AssemblyAction> =
        answers.into_iter().map(|answer| assembly.handle(answer)).collect();
    assert_eq!(actions.last(), Some(&AssemblyAction::Finish));
    let prunings = actions.iter().filter(|a| **a == AssemblyAction::RemoveInvalid).count();
    assert_eq!(prunings, 1);
    assert_eq!(assembly.unqueue_invalid(), &vec![[1; 32]]);
}

#[test]
fn block_follows_the_order_of_the_pool() {
    let mut assembly = selecting(0);
    let mut included = Vec::new();
    for byte in [5u8, 1, 9, 3] {
        assert_eq!(assembly.handle(ready(byte, 1)), AssemblyAction::PushTransaction);
        if byte == 1 {
            assembly.handle(AssemblyEvent::Rejected);
        } else {
            included.push(byte);
            assembly.handle(AssemblyEvent::Pushed);
        }
    }
    assert_eq!(included, vec![5, 9, 3]);
    assert_eq!(assembly.unqueue_invalid(), &vec![[1; 32]]);
    assert!(assembly.fits(MAX_TRANSACTIONS_SIZE - 4));
    assert!(!assembly.fits(MAX_TRANSACTIONS_SIZE - 3));
}
