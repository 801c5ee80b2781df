//! When to attempt a proposal.
//!
//! Whether it is time depends on timers and on the number of includable candidates. One poll of
//! the timing is a dialogue: [`ProposalTiming::handle`] is told what came of the last action and
//! answers with the next one, starting with [`TimingAction::PollInterval`], until the action is
//! to wait, to propose or to fail.

use vstd::prelude::*;

use crate::error::Error;

verus! {

/// The state of the timing between two polls.
#[derive(Debug, PartialEq, Eq)]
pub struct ProposalTiming {
    /// Whether the minimum time has still to pass.
    pub minimum: bool,
    /// The number of includable candidates that the wakeup was last scheduled for.
    pub last_included: usize,
}

/// What came of an action.
#[derive(Debug, PartialEq, Eq)]
pub enum TimingEvent {
    /// The interval had a notification built up.
    Ticked,
    /// The interval has no more notifications.
    Drained,
    /// The minimum time has not passed yet.
    MinimumPending,
    /// The minimum time has passed.
    MinimumPassed,
    /// The number of included candidates would be enough after that many nanoseconds; `None` if
    /// it is sufficient now.
    AcceptableIn(Option<u128>),
    /// The wakeup is still to come.
    EnoughPending,
    /// The wakeup has come.
    EnoughPassed,
    /// The timer of the wakeup failed.
    EnoughFailed(String),
}

/// What to do next in a poll.
#[derive(Debug, PartialEq, Eq)]
pub enum TimingAction {
    /// Poll the interval that produces periodic task wakeups.
    PollInterval,
    /// Poll the delay of the minimum time.
    PollMinimum,
    /// Work out in what time the number of included candidates would be enough.
    AskInclusion,
    /// Poll the delay after which there are enough candidates.
    PollEnough,
    /// Reset the delay after which there are enough candidates to that many nanoseconds, and
    /// poll it.
    ResetEnough(u128),
    /// End the poll: it is not time yet.
    Wait,
    /// End the poll: it is time to propose.
    Propose,
    /// End the poll with an error.
    Fail(Error),
}

/// The state and the action once the minimum time has passed: the wakeup is polled as it is
/// while the number of candidates has not changed.
pub open spec fn after_minimum(timing: ProposalTiming, included: usize) -> (
    ProposalTiming,
    TimingAction,
) {
    let passed = ProposalTiming { minimum: false, ..timing };
    if included == timing.last_included {
        (passed, TimingAction::PollEnough)
    } else {
        (passed, TimingAction::AskInclusion)
    }
}

/// The state and the action that follow an event.
pub open spec fn timing_next(timing: ProposalTiming, included: usize, event: TimingEvent) -> (
    ProposalTiming,
    TimingAction,
) {
    match event {
        TimingEvent::Ticked => (timing, TimingAction::PollInterval),
        TimingEvent::Drained => if timing.minimum {
            (timing, TimingAction::PollMinimum)
        } else {
            after_minimum(timing, included)
        },
        TimingEvent::MinimumPending => (timing, TimingAction::Wait),
        TimingEvent::MinimumPassed => after_minimum(timing, included),
        TimingEvent::AcceptableIn(Some(delay)) => (
            ProposalTiming { last_included: included, ..timing },
            TimingAction::ResetEnough(delay),
        ),
        TimingEvent::AcceptableIn(None) => (timing, TimingAction::Propose),
        TimingEvent::EnoughPending => (timing, TimingAction::Wait),
        TimingEvent::EnoughPassed => (timing, TimingAction::Propose),
        TimingEvent::EnoughFailed(message) => (timing, TimingAction::Fail(Error::Timer(message))),
    }
}

impl ProposalTiming {
    /// The next action of a poll, after an event, where `included` candidates are includable.
    pub fn handle(&mut self, included: usize, event: TimingEvent) -> (action: TimingAction)
        ensures
            (*final(self), action) == timing_next(*old(self), included, event),
    {
        match event {
            TimingEvent::Ticked => TimingAction::PollInterval,
            TimingEvent::Drained => {
                if self.minimum {
                    TimingAction::PollMinimum
                } else {
                    self.check_included(included)
                }
            },
            TimingEvent::MinimumPending => TimingAction::Wait,
            TimingEvent::MinimumPassed => self.check_included(included),
            TimingEvent::AcceptableIn(Some(delay)) => {
                self.last_included = included;
                TimingAction::ResetEnough(delay)
            },
            TimingEvent::AcceptableIn(None) => TimingAction::Propose,
            TimingEvent::EnoughPending => TimingAction::Wait,
            TimingEvent::EnoughPassed => TimingAction::Propose,
            TimingEvent::EnoughFailed(message) => TimingAction::Fail(Error::Timer(message)),
        }
    }

    fn check_included(&mut self, included: usize) -> (action: TimingAction)
        ensures
            (*final(self), action) == after_minimum(*old(self), included),
    {
        self.minimum = false;
        if included == self.last_included {
            TimingAction::PollEnough
        } else {
            TimingAction::AskInclusion
        }
    }
}

/// Whether an event is an answer to an action. Actions that end the poll have none.
pub open spec fn timing_answers(action: TimingAction, event: TimingEvent) -> bool {
    match action {
        TimingAction::PollInterval => event is Ticked || event is Drained,
        TimingAction::PollMinimum => event is MinimumPending || event is MinimumPassed,
        TimingAction::AskInclusion => event is AcceptableIn,
        TimingAction::PollEnough | TimingAction::ResetEnough(_) => event is EnoughPending
            || event is EnoughPassed || event is EnoughFailed,
        TimingAction::Wait | TimingAction::Propose | TimingAction::Fail(_) => false,
    }
}

/// The state and the action that a poll has come to after some events.
pub open spec fn timing_run(
    timing: ProposalTiming,
    included: usize,
    events: Seq<TimingEvent>,
) -> (ProposalTiming, TimingAction)
    decreases events.len(),
{
    if events.len() == 0 {
        (timing, TimingAction::PollInterval)
    } else {
        let (now, _) = timing_run(timing, included, events.drop_last());
        timing_next(now, included, events.last())
    }
}

/// Whether the events are those of one poll: each answers the action before it.
pub open spec fn is_poll(timing: ProposalTiming, included: usize, events: Seq<TimingEvent>) -> bool
    decreases events.len(),
{
    events.len() > 0 ==> {
        &&& is_poll(timing, included, events.drop_last())
        &&& timing_answers(
            timing_run(timing, included, events.drop_last()).1,
            events.last(),
        )
    }
}

/// What every poll keeps to, wherever it has come to: nothing changes before the minimum time
/// has passed; the inclusion threshold is worked out only where the number of candidates has
/// changed; and the number that the wakeup is scheduled for changes only with the wakeup.
pub proof fn lemma_poll(timing: ProposalTiming, included: usize, events: Seq<TimingEvent>)
    requires
        is_poll(timing, included, events),
    ensures
        ({
            let (now, action) = timing_run(timing, included, events);
            match action {
                TimingAction::PollInterval => now == timing,
                TimingAction::PollMinimum => now == timing && timing.minimum,
                TimingAction::AskInclusion => {
                    &&& !now.minimum
                    &&& now.last_included == timing.last_included
                    &&& included != timing.last_included
                },
                TimingAction::PollEnough => {
                    &&& !now.minimum
                    &&& now.last_included == timing.last_included
                    &&& included == timing.last_included
                },
                TimingAction::ResetEnough(_) => {
                    &&& !now.minimum
                    &&& now.last_included == included
                    &&& included != timing.last_included
                },
                TimingAction::Wait => {
                    ||| now == timing && timing.minimum
                    ||| !now.minimum && now.last_included == included
                },
                TimingAction::Propose => {
                    &&& !now.minimum
                    &&& now.last_included == included || now.last_included == timing.last_included
                },
                TimingAction::Fail(error) => {
                    &&& !now.minimum
                    &&& now.last_included == included
                    &&& error is Timer
                },
            }
        }),
    decreases events.len(),
{
    if events.len() > 0 {
        lemma_poll(timing, included, events.drop_last());
    }
}

/// A poll proposes only after the minimum time has passed, and either because the wakeup has
/// come or because the included candidates, whose number has changed, are sufficient now.
pub proof fn lemma_when_to_propose(timing: ProposalTiming, included: usize, events: Seq<TimingEvent>)
    requires
        is_poll(timing, included, events),
        timing_run(timing, included, events).1 is Propose,
    ensures
        timing.minimum ==> events.contains(TimingEvent::MinimumPassed),
        events.last() is EnoughPassed || (events.last() == TimingEvent::AcceptableIn(None)
            && included != timing.last_included),
{
    lemma_poll(timing, included, events);
    lemma_poll(timing, included, events.drop_last());
    if timing.minimum {
        lemma_minimum_passes_by_event(timing, included, events);
    }
}

/// Whether an action ends the poll.
pub open spec fn ends_poll(action: TimingAction) -> bool {
    action is Wait || action is Propose || action is Fail
}

/// Whether the interval was drained by event `k`: nothing but its notifications came before,
/// and it was not polled after.
pub open spec fn drained_at(events: Seq<TimingEvent>, k: int) -> bool {
    &&& 0 <= k < events.len()
    &&& events[k] is Drained
    &&& forall|i: int| 0 <= i < k ==> (#[trigger] events[i]) is Ticked
    &&& forall|i: int|
        k < i < events.len() ==> !((#[trigger] events[i]) is Ticked) && !(events[i] is Drained)
}

/// A poll that ends has drained the interval first and has not polled it again.
pub proof fn lemma_interval_is_drained(
    timing: ProposalTiming,
    included: usize,
    events: Seq<TimingEvent>,
)
    requires
        is_poll(timing, included, events),
        ends_poll(timing_run(timing, included, events).1),
    ensures
        exists|k: int| #[trigger] drained_at(events, k),
{
    lemma_draining(timing, included, events);
}

/// While the interval is being polled all events are its notifications; after that it has been
/// drained.
proof fn lemma_draining(timing: ProposalTiming, included: usize, events: Seq<TimingEvent>)
    requires
        is_poll(timing, included, events),
    ensures
        timing_run(timing, included, events).1 is PollInterval ==> forall|i: int|
            0 <= i < events.len() ==> (#[trigger] events[i]) is Ticked,
        !(timing_run(timing, included, events).1 is PollInterval) ==> exists|k: int| #[trigger]
            drained_at(events, k),
    decreases events.len(),
{
    if events.len() > 0 {
        let earlier = events.drop_last();
        let last = events.len() - 1;
        lemma_draining(timing, included, earlier);
        assert forall|i: int| 0 <= i < last implies events[i] == earlier[i] by {}
        if timing_run(timing, included, earlier).1 is PollInterval {
            if events[last] is Drained {
                assert(drained_at(events, last));
            }
        } else {
            let k = choose|k: int| #[trigger] drained_at(earlier, k);
            assert(drained_at(events, k));
        }
    }
}

/// The minimum time is over only where it was over before or an event says that it has passed.
proof fn lemma_minimum_passes_by_event(
    timing: ProposalTiming,
    included: usize,
    events: Seq<TimingEvent>,
)
    requires
        is_poll(timing, included, events),
        timing.minimum,
        !timing_run(timing, included, events).0.minimum,
    ensures
        events.contains(TimingEvent::MinimumPassed),
    decreases events.len(),
{
    if events.len() > 0 {
        let earlier = events.drop_last();
        if timing_run(timing, included, earlier).0.minimum {
            assert(events[events.len() - 1] == TimingEvent::MinimumPassed);
        } else {
            lemma_minimum_passes_by_event(timing, included, earlier);
            let i = choose|i: int|
                0 <= i < earlier.len() && earlier[i] == TimingEvent::MinimumPassed;
            assert(events[i] == TimingEvent::MinimumPassed);
        }
    }
}

/// What each answer in a poll leads to. The interval is polled on until it is drained; a minimum
/// time that is still to pass is polled next; then the wakeup, as it is if the number of
/// candidates is the one it was scheduled for, or else set to exactly the delay that was worked
/// out; and it is time to propose where that was none, or where the wakeup has come.
pub proof fn lemma_answers_in_a_poll(
    timing: ProposalTiming,
    included: usize,
    events: Seq<TimingEvent>,
)
    requires
        is_poll(timing, included, events),
        events.len() > 0,
    ensures
        events.last() is Ticked ==> timing_run(timing, included, events).1
            == TimingAction::PollInterval,
        events.last() is Drained && timing.minimum ==> timing_run(timing, included, events).1
            == TimingAction::PollMinimum,
        (events.last() is MinimumPassed || (events.last() is Drained && !timing.minimum))
            && included == timing.last_included ==> timing_run(timing, included, events).1
            == TimingAction::PollEnough,
        (events.last() is MinimumPassed || (events.last() is Drained && !timing.minimum))
            && included != timing.last_included ==> timing_run(timing, included, events).1
            == TimingAction::AskInclusion,
        events.last() is MinimumPending || events.last() is EnoughPending ==> timing_run(
            timing,
            included,
            events,
        ).1 == TimingAction::Wait,
        events.last() matches TimingEvent::AcceptableIn(Some(delay)) ==> timing_run(
            timing,
            included,
            events,
        ).1 == TimingAction::ResetEnough(delay),
        events.last() == TimingEvent::AcceptableIn(None) || events.last() is EnoughPassed
            ==> timing_run(timing, included, events).1 == TimingAction::Propose,
        events.last() matches TimingEvent::EnoughFailed(message) ==> timing_run(
            timing,
            included,
            events,
        ).1 == TimingAction::Fail(Error::Timer(message)),
{
    lemma_poll(timing, included, events);
    lemma_poll(timing, included, events.drop_last());
}

/// The wakeup is reset only to the delay after which that many candidates were said to be
/// enough, and an error is reported only as the timer gave it.
pub proof fn lemma_actions_carry_their_answers(
    timing: ProposalTiming,
    included: usize,
    events: Seq<TimingEvent>,
)
    requires
        is_poll(timing, included, events),
    ensures
        timing_run(timing, included, events).1 matches TimingAction::ResetEnough(delay)
            ==> events.len() > 0 && events.last() == TimingEvent::AcceptableIn(Some(delay)),
        timing_run(timing, included, events).1 matches TimingAction::Fail(error) ==> error is Timer
            && events.len() > 0 && events.last() == TimingEvent::EnoughFailed(error->Timer_0),
{
}

/// What a poll leaves behind, whatever it has come to: the minimum time is over if it was before
/// or has passed in this poll; and the wakeup is scheduled for the current number of candidates
/// if it was reset in this poll, and else for the number that it was scheduled for before.
pub proof fn lemma_state_after_poll(
    timing: ProposalTiming,
    included: usize,
    events: Seq<TimingEvent>,
)
    requires
        is_poll(timing, included, events),
    ensures
        timing_run(timing, included, events).0.minimum <==> timing.minimum && !events.contains(
            TimingEvent::MinimumPassed,
        ),
        (exists|i: int|
            0 <= i < events.len() && #[trigger] events[i] is AcceptableIn
                && events[i]->AcceptableIn_0 is Some) ==> timing_run(
            timing,
            included,
            events,
        ).0.last_included == included,
        (forall|i: int|
            0 <= i < events.len() && #[trigger] events[i] is AcceptableIn
                ==> events[i]->AcceptableIn_0 is None) ==> timing_run(
            timing,
            included,
            events,
        ).0.last_included == timing.last_included,
    decreases events.len(),
{
    if events.len() > 0 {
        let earlier = events.drop_last();
        lemma_state_after_poll(timing, included, earlier);
        lemma_poll(timing, included, earlier);
        let last = events.len() - 1;
        assert forall|i: int| 0 <= i < last implies events[i] == earlier[i] by {}
        assert(events.contains(TimingEvent::MinimumPassed) <==> (earlier.contains(
            TimingEvent::MinimumPassed,
        ) || events.last() == TimingEvent::MinimumPassed)) by {
            if earlier.contains(TimingEvent::MinimumPassed) {
                let i = choose|i: int|
                    0 <= i < earlier.len() && earlier[i] == TimingEvent::MinimumPassed;
                assert(events[i] == TimingEvent::MinimumPassed);
            }
            if events.last() == TimingEvent::MinimumPassed {
                assert(events[last] == TimingEvent::MinimumPassed);
            }
            if events.contains(TimingEvent::MinimumPassed) {
                let i = choose|i: int|
                    0 <= i < events.len() && events[i] == TimingEvent::MinimumPassed;
                if i < last {
                    assert(earlier[i] == TimingEvent::MinimumPassed);
                }
            }
        }
        if exists|i: int|
            0 <= i < events.len() && #[trigger] events[i] is AcceptableIn
                && events[i]->AcceptableIn_0 is Some {
            let i = choose|i: int|
                0 <= i < events.len() && #[trigger] events[i] is AcceptableIn
                    && events[i]->AcceptableIn_0 is Some;
            if i < last {
                assert(earlier[i] is AcceptableIn && earlier[i]->AcceptableIn_0 is Some);
            }
        }
        if forall|i: int|
            0 <= i < events.len() && #[trigger] events[i] is AcceptableIn
                ==> events[i]->AcceptableIn_0 is None {
            assert forall|i: int|
                0 <= i < earlier.len() && #[trigger] earlier[i] is AcceptableIn implies earlier[i]->AcceptableIn_0 is None by {
                assert(events[i] is AcceptableIn);
            }
            assert(events[last] is AcceptableIn ==> events[last]->AcceptableIn_0 is None);
        }
    }
}

/// What one event does, in whatever state it comes: a delay that was worked out is the one that
/// the wakeup is reset to, and only then is the wakeup scheduled for another number of candidates,
/// the current one; the minimum time, once over, stays over, and it ends only by passing.
pub proof fn lemma_one_event(timing: ProposalTiming, included: usize, event: TimingEvent)
    ensures
        timing_next(timing, included, event).1 matches TimingAction::ResetEnough(delay) ==> event
            == TimingEvent::AcceptableIn(Some(delay)),
        event matches TimingEvent::AcceptableIn(Some(delay)) ==> timing_next(
            timing,
            included,
            event,
        ).1 == TimingAction::ResetEnough(delay),
        event matches TimingEvent::EnoughFailed(message) ==> timing_next(
            timing,
            included,
            event,
        ).1 == TimingAction::Fail(Error::Timer(message)),
        event is Ticked <==> timing_next(timing, included, event).1 is PollInterval,
        event is Drained && timing.minimum <==> timing_next(timing, included, event).1
            is PollMinimum,
        event is MinimumPending || event is EnoughPending <==> timing_next(
            timing,
            included,
            event,
        ).1 is Wait,
        event is EnoughPassed || event == TimingEvent::AcceptableIn(None) <==> timing_next(
            timing,
            included,
            event,
        ).1 is Propose,
        (event is MinimumPassed || (event is Drained && !timing.minimum)) && included
            == timing.last_included <==> timing_next(timing, included, event).1 is PollEnough,
        (event is MinimumPassed || (event is Drained && !timing.minimum)) && included
            != timing.last_included <==> timing_next(timing, included, event).1 is AskInclusion,
        event is EnoughFailed <==> timing_next(timing, included, event).1 is Fail,
        timing_next(timing, included, event).0.minimum <==> timing.minimum && !(event
            is MinimumPassed),
        timing_next(timing, included, event).1 is ResetEnough ==> timing_next(
            timing,
            included,
            event,
        ).0.last_included == included,
        !(timing_next(timing, included, event).1 is ResetEnough) ==> timing_next(
            timing,
            included,
            event,
        ).0.last_included == timing.last_included,
{
}

} // verus!
