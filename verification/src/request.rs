//! The course of one request through the file mailbox.
//!
//! A request alternates between work on files and clocks and the decisions taken here: each phase
//! asks for one action, and what came of it is the event that leads to the next phase. A phase
//! and an event carry readings of one monotonic clock; their views carry the readings in
//! nanoseconds.

use crate::decisions;
use crate::decisions::{ApprovalDecision, DecisionView};
use crate::duration;
use crate::duration::Duration;
use crate::file::FileApproval;
use crate::pending;
use crate::pending::PendingApproval;
use crate::{json, text};
use vstd::prelude::*;

verus! {

/// Where a request stands.
pub enum Phase<T> {
    /// The directory of the mailbox is not ready yet.
    Preparing,
    /// The request is not written yet.
    Posting { pending: PendingApproval },
    /// The answers are to be read.
    Polling { pending: PendingApproval, deadline: T },
    /// A look that ended at `since` found no answer; the answers are to be read again after a
    /// while.
    Sleeping { pending: PendingApproval, deadline: T, since: T },
    /// The request is decided.
    Decided { approved: bool },
}

/// What came of an action.
pub enum Event<T> {
    /// The action failed.
    Failed,
    /// The directory exists, and `pending` is the request to write.
    DirectoryReady { pending: PendingApproval },
    /// The request was written completely; `now` was read afterwards.
    Posted { now: T },
    /// The answers were read, and held `answer` to the request; `now` was read afterwards.
    Polled { answer: Option<bool>, now: T },
    /// The pause is over.
    Woke,
}

/// What a request needs to have done.
pub enum Action<T, L> {
    /// Create the directory of the mailbox, with its parents, and make up the request.
    CreateDirectory,
    /// Append `line` to the pending file and flush it.
    AppendRequest { line: L },
    /// Read the decisions file, then the clock, and look for the answer.
    ReadDecisions,
    /// Pause until `moment`.
    SleepUntil { moment: T },
    /// Return the decision.
    Finish { approved: bool },
}

impl View for Phase<Duration> {
    type V = Phase<nat>;

    open spec fn view(&self) -> Phase<nat> {
        match *self {
            Phase::Preparing => Phase::Preparing,
            Phase::Posting { pending } => Phase::Posting { pending },
            Phase::Polling { pending, deadline } => Phase::Polling {
                pending,
                deadline: deadline@,
            },
            Phase::Sleeping { pending, deadline, since } => Phase::Sleeping {
                pending,
                deadline: deadline@,
                since: since@,
            },
            Phase::Decided { approved } => Phase::Decided { approved },
        }
    }
}

impl View for Event<Duration> {
    type V = Event<nat>;

    open spec fn view(&self) -> Event<nat> {
        match *self {
            Event::Failed => Event::Failed,
            Event::DirectoryReady { pending } => Event::DirectoryReady { pending },
            Event::Posted { now } => Event::Posted { now: now@ },
            Event::Polled { answer, now } => Event::Polled { answer, now: now@ },
            Event::Woke => Event::Woke,
        }
    }
}

impl View for Action<Duration, String> {
    type V = Action<nat, Seq<char>>;

    open spec fn view(&self) -> Action<nat, Seq<char>> {
        match *self {
            Action::CreateDirectory => Action::CreateDirectory,
            Action::AppendRequest { line } => Action::AppendRequest { line: line@ },
            Action::ReadDecisions => Action::ReadDecisions,
            Action::SleepUntil { moment } => Action::SleepUntil { moment: moment@ },
            Action::Finish { approved } => Action::Finish { approved },
        }
    }
}

/// The phase that follows `phase` on `event`. The answer that a look finds decides. Without one,
/// a look that ended at the deadline or after it denies, and an earlier one leads to another look.
/// A failure denies, and so does an event that does not belong to the phase.
pub open spec fn next_phase(timeout: nat, phase: Phase<nat>, event: Event<nat>) -> Phase<nat> {
    match (phase, event) {
        (Phase::Decided { approved }, _) => Phase::Decided { approved },
        (Phase::Preparing, Event::DirectoryReady { pending }) => Phase::Posting { pending },
        (Phase::Posting { pending }, Event::Posted { now }) => Phase::Polling {
            pending,
            deadline: now + timeout,
        },
        (
            Phase::Polling { pending, deadline },
            Event::Polled { answer: Some(approved), now },
        ) => Phase::Decided { approved },
        (
            Phase::Polling { pending, deadline },
            Event::Polled { answer: None, now },
        ) => if now >= deadline {
            Phase::Decided { approved: false }
        } else {
            Phase::Sleeping { pending, deadline, since: now }
        },
        (Phase::Sleeping { pending, deadline, since }, Event::Woke) => Phase::Polling {
            pending,
            deadline,
        },
        _ => Phase::Decided { approved: false },
    }
}

/// When the look after one that ended at `since` is due: `poll` later, or at the deadline if that
/// comes first.
pub open spec fn next_look(poll: nat, deadline: nat, since: nat) -> nat {
    if since + poll <= deadline {
        since + poll
    } else {
        deadline
    }
}

/// The action that `phase` asks for.
pub open spec fn action_of(poll: nat, phase: Phase<nat>) -> Action<nat, Seq<char>> {
    match phase {
        Phase::Preparing => Action::CreateDirectory,
        Phase::Posting { pending } => Action::AppendRequest {
            line: pending::pending_line(pending),
        },
        Phase::Polling { pending, deadline } => Action::ReadDecisions,
        Phase::Sleeping { pending, deadline, since } => Action::SleepUntil {
            moment: next_look(poll, deadline, since),
        },
        Phase::Decided { approved } => Action::Finish { approved },
    }
}

/// Whether `answer` may be what a look in `phase` finds, where `bytes` is what the decisions file
/// held and `parse` reads its lines. Only a request that waits for an answer looks for one.
pub open spec fn may_see<F: Fn(&str) -> Option<ApprovalDecision>>(
    parse: F,
    phase: Phase<nat>,
    bytes: Option<Seq<u8>>,
    answer: Option<bool>,
) -> bool {
    match phase {
        Phase::Polling { pending, deadline } => decisions::may_answer(
            parse,
            bytes,
            pending.id@,
            answer,
        ),
        _ => answer is None,
    }
}

impl FileApproval {
    /// The phase in which every request begins.
    pub fn begin(&self) -> (phase: Phase<Duration>)
        ensures
            phase@ == Phase::<nat>::Preparing,
    {
        Phase::Preparing
    }

    /// The action that `phase` asks for.
    pub fn action(&self, phase: &Phase<Duration>) -> (action: Action<Duration, String>)
        ensures
            action@ == action_of(self@.poll, phase@),
    {
        match phase {
            Phase::Preparing => Action::CreateDirectory,
            Phase::Posting { pending } => match pending.to_line() {
                Ok(line) => Action::AppendRequest { line },
                Err(_) => Action::Finish { approved: false },
            },
            Phase::Polling { .. } => Action::ReadDecisions,
            Phase::Sleeping { pending: _, deadline, since } => Action::SleepUntil {
                moment: since.plus_up_to(&self.poll(), deadline),
            },
            Phase::Decided { approved } => Action::Finish { approved: *approved },
        }
    }

    /// The phase that follows `phase` on `event`. When the request has been posted, the deadline
    /// must be a moment that the clock can show.
    pub fn step(&self, phase: Phase<Duration>, event: Event<Duration>) -> (next: Phase<Duration>)
        requires
            phase is Posting ==> (event@ matches Event::Posted { now } ==> now + self@.timeout
                <= duration::MAX_NANOS),
        ensures
            next@ == next_phase(self@.timeout, phase@, event@),
    {
        match (phase, event) {
            (Phase::Decided { approved }, _) => Phase::Decided { approved },
            (Phase::Preparing, Event::DirectoryReady { pending }) => Phase::Posting { pending },
            (Phase::Posting { pending }, Event::Posted { now }) => Phase::Polling {
                pending,
                deadline: now.plus(&self.timeout()),
            },
            (Phase::Polling { pending, deadline }, Event::Polled { answer, now }) => match answer {
                Some(approved) => Phase::Decided { approved },
                None => if now.at_least(&deadline) {
                    Phase::Decided { approved: false }
                } else {
                    Phase::Sleeping { pending, deadline, since: now }
                },
            },
            (Phase::Sleeping { pending, deadline, since: _ }, Event::Woke) => Phase::Polling {
                pending,
                deadline,
            },
            _ => Phase::Decided { approved: false },
        }
    }

    /// The phase that follows `phase` once the decisions file was read for an answer to the
    /// request. `bytes` is `None` where the file is absent or cannot be read, `now` was read
    /// afterwards, and `parse` reads one line.
    pub fn look<F: Fn(&str) -> Option<ApprovalDecision>>(
        &self,
        phase: Phase<Duration>,
        bytes: Option<&[u8]>,
        now: Duration,
        parse: F,
    ) -> (next: Phase<Duration>)
        requires
            forall|s: &str| call_requires(parse, (s,)),
        ensures
            exists|answer: Option<bool>| #[trigger]
                may_see(parse, phase@, decisions::bytes_view(bytes), answer) && next@
                    == next_phase(self@.timeout, phase@, Event::Polled { answer, now: now@ }),
    {
        let answer: Option<bool> = match &phase {
            Phase::Polling { pending, deadline: _ } => decisions::scan_decision(
                bytes,
                pending.id.as_str(),
                parse,
            ),
            _ => None,
        };
        assert(may_see(parse, phase@, decisions::bytes_view(bytes), answer));
        self.step(phase, Event::Polled { answer, now })
    }
}

/// The phase after a course of events that starts in `phase`.
pub open spec fn phase_after(timeout: nat, phase: Phase<nat>, events: Seq<Event<nat>>) -> Phase<nat>
    decreases events.len(),
{
    if events.len() == 0 {
        phase
    } else {
        next_phase(timeout, phase_after(timeout, phase, events.drop_last()), events.last())
    }
}

/// A course of events in two parts goes through the phase between them.
pub proof fn law_courses_compose(
    timeout: nat,
    phase: Phase<nat>,
    first: Seq<Event<nat>>,
    second: Seq<Event<nat>>,
)
    ensures
        phase_after(timeout, phase, first + second) == phase_after(
            timeout,
            phase_after(timeout, phase, first),
            second,
        ),
    decreases second.len(),
{
    if second.len() == 0 {
        assert(first + second =~= first);
    } else {
        assert((first + second).drop_last() =~= first + second.drop_last());
        law_courses_compose(timeout, phase, first, second.drop_last());
    }
}

/// A decision is final: no later event changes it.
pub proof fn law_decision_is_final(timeout: nat, approved: bool, events: Seq<Event<nat>>)
    ensures
        phase_after(timeout, Phase::Decided { approved }, events) == (Phase::<nat>::Decided {
            approved,
        }),
    decreases events.len(),
{
    if events.len() > 0 {
        law_decision_is_final(timeout, approved, events.drop_last());
    }
}

/// A failure in any step of an undecided request denies it for good.
pub proof fn law_failure_denies(
    timeout: nat,
    before: Seq<Event<nat>>,
    after: Seq<Event<nat>>,
)
    requires
        !(phase_after(timeout, Phase::Preparing, before) is Decided),
    ensures
        phase_after(timeout, Phase::Preparing, before.push(Event::Failed) + after) == (Phase::<
            nat,
        >::Decided { approved: false }),
{
    let failed = before.push(Event::<nat>::Failed);
    assert(failed.drop_last() =~= before);
    law_courses_compose(timeout, Phase::Preparing, failed, after);
    law_decision_is_final(timeout, false, after);
}

/// Whether `event` finds an approving answer.
pub open spec fn is_approving(event: Event<nat>) -> bool {
    event matches Event::Polled { answer: Some(approved), now } && approved
}

/// No request is approved but by an approving answer that was read while the request waited for
/// one.
pub proof fn law_approval_needs_an_approving_answer(timeout: nat, events: Seq<Event<nat>>)
    requires
        phase_after(timeout, Phase::Preparing, events) == (Phase::<nat>::Decided {
            approved: true,
        }),
    ensures
        exists|i: int|
            0 <= i < events.len() && #[trigger] is_approving(events[i]) && phase_after(
                timeout,
                Phase::Preparing,
                events.take(i),
            ) is Polling,
    decreases events.len(),
{
    if events.len() > 0 {
        let before = events.drop_last();
        let phase = phase_after(timeout, Phase::Preparing, before);
        if phase is Decided {
            law_approval_needs_an_approving_answer(timeout, before);
            let i = choose|i: int|
                0 <= i < before.len() && #[trigger] is_approving(before[i]) && phase_after(
                    timeout,
                    Phase::Preparing,
                    before.take(i),
                ) is Polling;
            assert(before.take(i) =~= events.take(i));
            assert(is_approving(events[i]));
        } else {
            let i = events.len() - 1;
            assert(events.take(i) =~= before);
            assert(is_approving(events[i]));
        }
    }
}

/// The request that waits for an answer, and its deadline.
pub open spec fn waits(phase: Phase<nat>) -> Option<(PendingApproval, nat)> {
    match phase {
        Phase::Polling { pending, deadline } => Some((pending, deadline)),
        Phase::Sleeping { pending, deadline, since } => Some((pending, deadline)),
        _ => None,
    }
}

/// A request goes through its phases in order: the directory comes first, then the request is
/// written, once, and only then the answers are read. They are read for the very request that was
/// written, with a deadline that stands `timeout` after the writing; neither ever changes.
pub proof fn law_request_is_posted_once_and_first(timeout: nat, events: Seq<Event<nat>>)
    ensures
        phase_after(timeout, Phase::Preparing, events) is Preparing <==> events.len() == 0,
        phase_after(timeout, Phase::Preparing, events) matches Phase::Posting { pending }
            ==> events == seq![Event::<nat>::DirectoryReady { pending }],
        waits(phase_after(timeout, Phase::Preparing, events)) matches Some((pending, deadline))
            ==> {
            &&& events.len() >= 2
            &&& events[0] == Event::<nat>::DirectoryReady { pending }
            &&& events[1] matches Event::Posted { now }
            &&& deadline == now + timeout
        },
    decreases events.len(),
{
    if events.len() > 0 {
        let before = events.drop_last();
        law_request_is_posted_once_and_first(timeout, before);
        let phase = phase_after(timeout, Phase::Preparing, before);
        if phase is Preparing {
            assert(before =~= seq![]);
            assert(events =~= seq![events.last()]);
        }
        if phase is Posting {
            assert(events[0] == before[0]);
        }
    }
}

/// Every pause ends by the deadline: it follows a look that ended before the deadline and found
/// no answer, and it ends `poll` after that look, or at the deadline if that comes first.
pub proof fn law_pause_ends_by_the_deadline(timeout: nat, poll: nat, events: Seq<Event<nat>>)
    requires
        phase_after(timeout, Phase::Preparing, events) is Sleeping,
    ensures
        events.len() >= 3,
        events[1] is Posted,
        events.last() is Polled,
        ({
            let deadline = events[1]->Posted_now + timeout;
            let since = events.last()->Polled_now;
            let moment = next_look(poll, deadline, since);
            &&& events.last()->Polled_answer is None
            &&& since < deadline
            &&& action_of(poll, phase_after(timeout, Phase::Preparing, events))
                == Action::<nat, Seq<char>>::SleepUntil { moment }
            &&& moment <= deadline
            &&& moment <= since + poll
            &&& moment < deadline ==> moment == since + poll
        }),
{
    law_request_is_posted_once_and_first(timeout, events);
    let before = events.drop_last();
    law_request_is_posted_once_and_first(timeout, before);
    assert(before[1] == events[1]);
}

/// Whether `event` is what comes of the action of `phase` where that succeeds.
pub open spec fn is_in_turn(phase: Phase<nat>, event: Event<nat>) -> bool {
    match (phase, event) {
        (Phase::Preparing, Event::DirectoryReady { pending }) => true,
        (Phase::Posting { pending }, Event::Posted { now }) => true,
        (Phase::Polling { pending, deadline }, Event::Polled { answer, now }) => true,
        (Phase::Sleeping { pending, deadline, since }, Event::Woke) => true,
        _ => false,
    }
}

/// Whether `event` is a reason to deny a request in `phase`: a failure, an event out of turn, a
/// denying answer, or a look that ended at the deadline or later and found no answer.
pub open spec fn is_reason_to_deny(phase: Phase<nat>, event: Event<nat>) -> bool {
    ||| !is_in_turn(phase, event)
    ||| event matches Event::Polled { answer: Some(approved), now } && !approved
    ||| event matches Event::Polled { answer: None, now } && waits(phase) matches Some(
        (_, deadline),
    ) && now >= deadline
}

/// A denial has a reason: no request is denied for want of an answer before a look that ended at
/// its deadline or later.
pub proof fn law_denial_has_a_reason(timeout: nat, events: Seq<Event<nat>>)
    requires
        phase_after(timeout, Phase::Preparing, events) == (Phase::<nat>::Decided {
            approved: false,
        }),
    ensures
        exists|i: int|
            0 <= i < events.len() && !(phase_after(
                timeout,
                Phase::Preparing,
                events.take(i),
            ) is Decided) && is_reason_to_deny(
                phase_after(timeout, Phase::Preparing, events.take(i)),
                #[trigger] events[i],
            ),
    decreases events.len(),
{
    if events.len() > 0 {
        let before = events.drop_last();
        let phase = phase_after(timeout, Phase::Preparing, before);
        if phase is Decided {
            law_denial_has_a_reason(timeout, before);
            let i = choose|i: int|
                0 <= i < before.len() && !(phase_after(
                    timeout,
                    Phase::Preparing,
                    before.take(i),
                ) is Decided) && is_reason_to_deny(
                    phase_after(timeout, Phase::Preparing, before.take(i)),
                    #[trigger] before[i],
                );
            assert(before.take(i) =~= events.take(i));
            assert(events[i] == before[i]);
        } else {
            let i = events.len() - 1;
            assert(events.take(i) =~= before);
            assert(is_reason_to_deny(phase, events[i]));
        }
    }
}

/// The events of a request that was posted at `start`.
pub open spec fn posted(pending: PendingApproval, start: nat) -> Seq<Event<nat>> {
    seq![Event::DirectoryReady { pending }, Event::Posted { now: start }]
}

/// A look at the answers: the moment at which they were read, and the clock afterwards.
pub struct Look {
    pub read: nat,
    pub now: nat,
}

/// The events of looking for an answer, where reading at a moment finds what `answers` says.
pub open spec fn events_of(
    answers: spec_fn(nat) -> Option<bool>,
    looks: Seq<Look>,
) -> Seq<Event<nat>>
    decreases looks.len(),
{
    if looks.len() == 0 {
        seq![]
    } else {
        events_of(answers, looks.drop_last()).push(
            Event::Polled { answer: answers(looks.last().read), now: looks.last().now },
        ).push(Event::Woke)
    }
}

/// The phase of a request that was posted at `start` and has taken `looks` at the answers, where
/// reading at a moment finds what `answers` says. Looks after the request is decided change
/// nothing.
pub open spec fn phase_after_looks(
    timeout: nat,
    pending: PendingApproval,
    start: nat,
    answers: spec_fn(nat) -> Option<bool>,
    looks: Seq<Look>,
) -> Phase<nat> {
    phase_after(timeout, Phase::Preparing, posted(pending, start) + events_of(answers, looks))
}

proof fn lemma_phase_after_last_look(
    timeout: nat,
    pending: PendingApproval,
    start: nat,
    answers: spec_fn(nat) -> Option<bool>,
    looks: Seq<Look>,
)
    ensures
        looks.len() == 0 ==> phase_after_looks(timeout, pending, start, answers, looks)
            == (Phase::<nat>::Polling { pending, deadline: start + timeout }),
        looks.len() > 0 ==> phase_after_looks(timeout, pending, start, answers, looks)
            == next_phase(
            timeout,
            next_phase(
                timeout,
                phase_after_looks(timeout, pending, start, answers, looks.drop_last()),
                Event::Polled { answer: answers(looks.last().read), now: looks.last().now },
            ),
            Event::Woke,
        ),
{
    let all = posted(pending, start) + events_of(answers, looks);
    reveal_with_fuel(phase_after, 3);
    if looks.len() == 0 {
        assert(all =~= posted(pending, start));
        assert(all.drop_last().drop_last() =~= seq![]);
        assert(all.drop_last().last() == Event::<nat>::DirectoryReady { pending });
    } else {
        let polled: Event<nat> = Event::Polled {
            answer: answers(looks.last().read),
            now: looks.last().now,
        };
        assert(all.last() == Event::<nat>::Woke);
        assert(all.drop_last().last() == polled);
        assert(all.drop_last().drop_last() =~= posted(pending, start) + events_of(
            answers,
            looks.drop_last(),
        ));
    }
}

/// Whether no look found an answer and all ended before `deadline`.
pub open spec fn are_in_vain(
    answers: spec_fn(nat) -> Option<bool>,
    deadline: nat,
    looks: Seq<Look>,
) -> bool {
    forall|i: int|
        0 <= i < looks.len() ==> (#[trigger] looks[i]).now < deadline && answers(
            looks[i].read,
        ) is None
}

/// While its looks end before the deadline, which stands `timeout` after the posting, and find
/// nothing, a request goes on waiting for an answer.
pub proof fn law_request_waits_until_the_deadline(
    timeout: nat,
    pending: PendingApproval,
    start: nat,
    answers: spec_fn(nat) -> Option<bool>,
    looks: Seq<Look>,
)
    requires
        are_in_vain(answers, start + timeout, looks),
    ensures
        phase_after_looks(timeout, pending, start, answers, looks) == (Phase::<nat>::Polling {
            pending,
            deadline: start + timeout,
        }),
    decreases looks.len(),
{
    lemma_phase_after_last_look(timeout, pending, start, answers, looks);
    if looks.len() > 0 {
        let earlier = looks.drop_last();
        assert(forall|i: int| 0 <= i < earlier.len() ==> #[trigger] earlier[i] == looks[i]);
        law_request_waits_until_the_deadline(timeout, pending, start, answers, earlier);
        assert(looks.last() == looks[looks.len() - 1]);
    }
}

/// A request that found no answer before its deadline is denied by the first look that ends at or
/// after it and finds none either, whenever that look began.
pub proof fn law_unanswered_request_times_out(
    timeout: nat,
    pending: PendingApproval,
    start: nat,
    answers: spec_fn(nat) -> Option<bool>,
    looks: Seq<Look>,
    look: Look,
)
    requires
        are_in_vain(answers, start + timeout, looks),
        look.now >= start + timeout,
        answers(look.read) is None,
    ensures
        phase_after_looks(timeout, pending, start, answers, looks.push(look)) == (Phase::<
            nat,
        >::Decided { approved: false }),
{
    law_request_waits_until_the_deadline(timeout, pending, start, answers, looks);
    lemma_phase_after_last_look(timeout, pending, start, answers, looks.push(look));
    assert(looks.push(look).drop_last() =~= looks);
}

/// The first answer that a waiting request finds decides it. A look is due at the deadline at the
/// latest, so that an answer which it finds on time was written within the timeout.
pub proof fn law_first_answer_decides(
    timeout: nat,
    pending: PendingApproval,
    start: nat,
    answers: spec_fn(nat) -> Option<bool>,
    looks: Seq<Look>,
    look: Look,
)
    requires
        are_in_vain(answers, start + timeout, looks),
        answers(look.read) is Some,
    ensures
        phase_after_looks(timeout, pending, start, answers, looks.push(look)) == (Phase::<
            nat,
        >::Decided { approved: answers(look.read)->0 }),
{
    law_request_waits_until_the_deadline(timeout, pending, start, answers, looks);
    lemma_phase_after_last_look(timeout, pending, start, answers, looks.push(look));
    assert(looks.push(look).drop_last() =~= looks);
}

/// Whether looks are taken on time: the answers are read first when the request was posted, and
/// then each time at the very end of the pause. A look may take any time after that.
pub open spec fn are_on_time(timeout: nat, poll: nat, start: nat, looks: Seq<Look>) -> bool {
    forall|i: int|
        0 <= i < looks.len() ==> {
            &&& (#[trigger] looks[i]).read <= looks[i].now
            &&& looks[i].read == if i == 0 {
                start
            } else {
                next_look(poll, start + timeout, looks[i - 1].now)
            }
        }
}

proof fn lemma_earlier_looks_are_on_time(timeout: nat, poll: nat, start: nat, looks: Seq<Look>)
    requires
        are_on_time(timeout, poll, start, looks),
        looks.len() > 0,
    ensures
        are_on_time(timeout, poll, start, looks.drop_last()),
{
    let earlier = looks.drop_last();
    assert forall|i: int| 0 <= i < earlier.len() implies {
        &&& (#[trigger] earlier[i]).read <= earlier[i].now
        &&& earlier[i].read == if i == 0 {
            start
        } else {
            next_look(poll, start + timeout, earlier[i - 1].now)
        }
    } by {
        assert(earlier[i] == looks[i]);
    }
}

/// Looks on time read the answers within the timeout only.
pub proof fn law_looks_on_time_are_within_the_timeout(
    timeout: nat,
    poll: nat,
    start: nat,
    looks: Seq<Look>,
    k: int,
)
    requires
        are_on_time(timeout, poll, start, looks),
        0 <= k < looks.len(),
    ensures
        start <= looks[k].read <= start + timeout,
    decreases k,
{
    if k > 0 {
        law_looks_on_time_are_within_the_timeout(timeout, poll, start, looks, k - 1);
    }
}

/// Looks on time are at least `poll` apart until the deadline, and with a poll interval above 0
/// they reach it: the first look for which the timeout has no more room reads the answers at the
/// deadline.
pub proof fn law_looks_on_time_reach_the_deadline(
    timeout: nat,
    poll: nat,
    start: nat,
    looks: Seq<Look>,
    k: int,
)
    requires
        are_on_time(timeout, poll, start, looks),
        0 <= k < looks.len(),
    ensures
        k * poll <= timeout ==> looks[k].read >= start + k * poll,
        k * poll >= timeout ==> looks[k].read == start + timeout,
    decreases k,
{
    law_looks_on_time_are_within_the_timeout(timeout, poll, start, looks, k);
    if k > 0 {
        law_looks_on_time_reach_the_deadline(timeout, poll, start, looks, k - 1);
        assert(k * poll == (k - 1) * poll + poll) by (nonlinear_arith);
    } else {
        assert(k * poll == 0) by (nonlinear_arith)
            requires
                k == 0,
        ;
    }
}

/// What is not answered within the timeout is denied: where the looks are on time and there is no
/// answer up to the deadline, the first look that ends at the deadline or later denies, whatever
/// is answered later.
pub proof fn law_late_answer_does_not_count(
    timeout: nat,
    poll: nat,
    pending: PendingApproval,
    start: nat,
    answers: spec_fn(nat) -> Option<bool>,
    looks: Seq<Look>,
)
    requires
        are_on_time(timeout, poll, start, looks),
        forall|t: nat| start <= t <= start + timeout ==> #[trigger] answers(t) is None,
    ensures
        phase_after_looks(timeout, pending, start, answers, looks) == if looks.len() > 0
            && looks.last().now >= start + timeout {
            Phase::<nat>::Decided { approved: false }
        } else {
            Phase::<nat>::Polling { pending, deadline: start + timeout }
        },
    decreases looks.len(),
{
    lemma_phase_after_last_look(timeout, pending, start, answers, looks);
    if looks.len() > 0 {
        let earlier = looks.drop_last();
        let last = looks.len() - 1;
        lemma_earlier_looks_are_on_time(timeout, poll, start, looks);
        law_late_answer_does_not_count(timeout, poll, pending, start, answers, earlier);
        law_looks_on_time_are_within_the_timeout(timeout, poll, start, looks, last);
        assert(looks.last() == looks[last]);
        assert(last > 0 ==> earlier.last() == looks[last - 1]);
        assert(answers(looks.last().read) is None);
    }
}

/// What is answered within the timeout counts, be it before the first look or at the very
/// deadline: where the looks are on time, a request with the answer `approved` at its deadline,
/// and with no other answer before, is decided by it at the look at the deadline or sooner. Only
/// a look that read the answers too early to find it must not last until the deadline.
pub proof fn law_timely_answer_counts(
    timeout: nat,
    poll: nat,
    pending: PendingApproval,
    start: nat,
    answers: spec_fn(nat) -> Option<bool>,
    approved: bool,
    looks: Seq<Look>,
)
    requires
        are_on_time(timeout, poll, start, looks),
        forall|t: nat|
            start <= t <= start + timeout ==> (#[trigger] answers(t) is None || answers(t) == Some(
                approved,
            )),
        answers(start + timeout) == Some(approved),
        forall|i: int|
            0 <= i < looks.len() && answers((#[trigger] looks[i]).read) is None ==> looks[i].now
                < start + timeout,
    ensures
        phase_after_looks(timeout, pending, start, answers, looks) == (Phase::<nat>::Decided {
            approved,
        }) || phase_after_looks(timeout, pending, start, answers, looks) == (Phase::<
            nat,
        >::Polling { pending, deadline: start + timeout }),
        looks.len() > 0 && (looks.last().read == start + timeout || answers(
            looks.last().read,
        ) is Some) ==> phase_after_looks(timeout, pending, start, answers, looks) == (Phase::<
            nat,
        >::Decided { approved }),
    decreases looks.len(),
{
    lemma_phase_after_last_look(timeout, pending, start, answers, looks);
    if looks.len() > 0 {
        let earlier = looks.drop_last();
        let last = looks.len() - 1;
        lemma_earlier_looks_are_on_time(timeout, poll, start, looks);
        assert(forall|i: int| 0 <= i < earlier.len() ==> #[trigger] earlier[i] == looks[i]);
        law_timely_answer_counts(timeout, poll, pending, start, answers, approved, earlier);
        law_looks_on_time_are_within_the_timeout(timeout, poll, start, looks, last);
        assert(looks.last() == looks[last]);
        assert(answers(looks.last().read) is None || answers(looks.last().read) == Some(approved));
    }
}

/// The wait bounds itself: where no look ends before the pause in front of it is due to end, a
/// request that still waits has looked no more often than the timeout has room for.
pub proof fn law_wait_is_bounded(
    timeout: nat,
    poll: nat,
    pending: PendingApproval,
    start: nat,
    answers: spec_fn(nat) -> Option<bool>,
    looks: Seq<Look>,
)
    requires
        looks.len() > 0,
        looks[0].now >= start,
        forall|i: int|
            0 < i < looks.len() ==> (#[trigger] looks[i]).now >= next_look(
                poll,
                start + timeout,
                looks[i - 1].now,
            ),
        phase_after_looks(timeout, pending, start, answers, looks) is Polling,
    ensures
        (looks.len() - 1) * poll < timeout,
{
    lemma_looks_are_spaced(timeout, poll, pending, start, answers, looks);
}

proof fn lemma_looks_are_spaced(
    timeout: nat,
    poll: nat,
    pending: PendingApproval,
    start: nat,
    answers: spec_fn(nat) -> Option<bool>,
    looks: Seq<Look>,
)
    requires
        looks.len() > 0,
        looks[0].now >= start,
        forall|i: int|
            0 < i < looks.len() ==> (#[trigger] looks[i]).now >= next_look(
                poll,
                start + timeout,
                looks[i - 1].now,
            ),
        phase_after_looks(timeout, pending, start, answers, looks) is Polling,
    ensures
        phase_after_looks(timeout, pending, start, answers, looks) == (Phase::<nat>::Polling {
            pending,
            deadline: start + timeout,
        }),
        start + (looks.len() - 1) * poll <= looks.last().now < start + timeout,
    decreases looks.len(),
{
    let earlier = looks.drop_last();
    let last = looks.len() - 1;
    lemma_phase_after_last_look(timeout, pending, start, answers, looks);
    lemma_phase_after_last_look(timeout, pending, start, answers, earlier);
    assert(looks.last() == looks[last]);
    if last > 0 {
        assert forall|i: int| 0 < i < earlier.len() implies (#[trigger] earlier[i]).now
            >= next_look(poll, start + timeout, earlier[i - 1].now) by {
            assert(earlier[i] == looks[i]);
        }
        lemma_looks_are_spaced(timeout, poll, pending, start, answers, earlier);
        assert(earlier.last() == looks[last - 1]);
        assert(last * poll == (last - 1) * poll + poll) by (nonlinear_arith);
    } else {
        assert(last * poll == 0) by (nonlinear_arith)
            requires
                last == 0,
        ;
    }
}

/// What a look at the decisions file finds for the request `id`.
pub open spec fn found(
    bytes: Option<Seq<u8>>,
    id: Seq<char>,
    parser: spec_fn(Seq<char>) -> Option<DecisionView>,
) -> Option<bool> {
    match bytes {
        Some(b) => decisions::scan(b, id, parser),
        None => None,
    }
}

/// What looks find for the request `id` in a decisions file that holds `files(t)` at the moment
/// `t`.
pub open spec fn answers_in(
    files: spec_fn(nat) -> Option<Seq<u8>>,
    id: Seq<char>,
    parser: spec_fn(Seq<char>) -> Option<DecisionView>,
) -> spec_fn(nat) -> Option<bool> {
    |t: nat| found(files(t), id, parser)
}

/// The request is denied if no matching decision is written within the timeout: where the looks
/// are on time and no line that the decisions file holds up to the deadline decides on the
/// request, a look that ends at the deadline or later denies it, whatever is written later.
pub proof fn law_no_timely_decision_denies(
    timeout: nat,
    poll: nat,
    pending: PendingApproval,
    start: nat,
    files: spec_fn(nat) -> Option<Seq<u8>>,
    parser: spec_fn(Seq<char>) -> Option<DecisionView>,
    looks: Seq<Look>,
)
    requires
        are_on_time(timeout, poll, start, looks),
        looks.len() > 0,
        looks.last().now >= start + timeout,
        forall|t: nat, k: int|
            start <= t <= start + timeout && files(t) is Some && 0 <= k < decisions::parsed(
                files(t)->0,
                parser,
            ).len() ==> !decisions::answers(
                #[trigger] decisions::parsed(files(t)->0, parser)[k],
                pending.id@,
            ),
    ensures
        phase_after_looks(
            timeout,
            pending,
            start,
            answers_in(files, pending.id@, parser),
            looks,
        ) == (Phase::<nat>::Decided { approved: false }),
{
    let answers = answers_in(files, pending.id@, parser);
    assert forall|t: nat| start <= t <= start + timeout implies #[trigger] answers(t) is None by {
        if files(t) is Some {
            decisions::law_answer_is_the_last_decision(
                decisions::parsed(files(t)->0, parser),
                pending.id@,
            );
        }
    }
    law_late_answer_does_not_count(timeout, poll, pending, start, answers, looks);
}

/// Whether line `k` is a decision on the request `id` that says `approved`, and no later line
/// decides on it.
pub open spec fn decides_at(
    lines: Seq<Option<DecisionView>>,
    id: Seq<char>,
    k: int,
    approved: bool,
) -> bool {
    &&& 0 <= k < lines.len()
    &&& decisions::answers(lines[k], id)
    &&& lines[k]->0.approved == approved
    &&& forall|j: int| k < j < lines.len() ==> !decisions::answers(#[trigger] lines[j], id)
}

/// Whether a decisions file that holds `bytes` has a decision on the request `id` that says
/// `approved` and that no later line takes back.
pub open spec fn is_decided(
    bytes: Option<Seq<u8>>,
    id: Seq<char>,
    parser: spec_fn(Seq<char>) -> Option<DecisionView>,
    approved: bool,
) -> bool {
    bytes matches Some(b) && exists|k: int| #[trigger]
        decides_at(decisions::parsed(b, parser), id, k, approved)
}

/// A matching decision that is written within the timeout decides the request: where the looks
/// are on time and the decisions file holds no answer before the moment `written` and, from then
/// to the deadline, a decision on the request that no later line takes back, the request is
/// decided by it at the look at the deadline or sooner. Only a look that read the file before
/// `written` must not last until the deadline.
pub proof fn law_timely_decision_decides(
    timeout: nat,
    poll: nat,
    pending: PendingApproval,
    start: nat,
    files: spec_fn(nat) -> Option<Seq<u8>>,
    parser: spec_fn(Seq<char>) -> Option<DecisionView>,
    looks: Seq<Look>,
    written: nat,
    approved: bool,
)
    requires
        are_on_time(timeout, poll, start, looks),
        looks.len() > 0,
        looks.last().read == start + timeout,
        written <= start + timeout,
        forall|i: int|
            0 <= i < looks.len() && (#[trigger] looks[i]).read < written ==> looks[i].now < start
                + timeout,
        forall|t: nat| t < written ==> found(#[trigger] files(t), pending.id@, parser) is None,
        forall|t: nat|
            written <= t <= start + timeout ==> is_decided(
                #[trigger] files(t),
                pending.id@,
                parser,
                approved,
            ),
    ensures
        phase_after_looks(
            timeout,
            pending,
            start,
            answers_in(files, pending.id@, parser),
            looks,
        ) == (Phase::<nat>::Decided { approved }),
{
    let answers = answers_in(files, pending.id@, parser);
    assert forall|t: nat| written <= t <= start + timeout implies #[trigger] answers(t) == Some(
        approved,
    ) by {
        assert(is_decided(files(t), pending.id@, parser, approved));
        let lines = decisions::parsed(files(t)->0, parser);
        let k = choose|k: int| #[trigger] decides_at(lines, pending.id@, k, approved);
        decisions::law_answer_is_the_last_decision(lines, pending.id@);
        assert(decisions::answers(lines[k], pending.id@));
    }
    assert forall|t: nat| start <= t <= start + timeout implies (#[trigger] answers(t) is None
        || answers(t) == Some(approved)) by {
        if t < written {
            assert(found(files(t), pending.id@, parser) is None);
        }
    }
    assert(answers(start + timeout) == Some(approved));
    assert forall|i: int|
        0 <= i < looks.len() && answers((#[trigger] looks[i]).read) is None implies looks[i].now
        < start + timeout by {
        law_looks_on_time_are_within_the_timeout(timeout, poll, start, looks, i);
    }
    law_timely_answer_counts(timeout, poll, pending, start, answers, approved, looks);
}

/// A decision that names the id of a waiting request, appended to whatever the decisions file
/// holds, decides the request at its next look: an approval allows it and a denial denies it.
pub proof fn law_matching_decision_decides(
    timeout: nat,
    pending: PendingApproval,
    deadline: nat,
    now: nat,
    bytes: Seq<u8>,
    line: Seq<u8>,
    parser: spec_fn(Seq<char>) -> Option<DecisionView>,
)
    requires
        text::ends_a_line(bytes, text::LINE_FEED),
        !line.contains(text::LINE_FEED),
        decisions::answers(decisions::line_says(line, parser), pending.id@),
    ensures
        next_phase(
            timeout,
            Phase::Polling { pending, deadline },
            Event::Polled {
                answer: found(Some(bytes + line.push(text::LINE_FEED)), pending.id@, parser),
                now,
            },
        ) == (Phase::<nat>::Decided { approved: decisions::line_says(line, parser)->0.approved }),
{
    decisions::law_last_decision_wins(bytes, line, pending.id@, parser);
}

/// No request is approved but by a decision that names the id of the request that was written and
/// approves, in bytes of the decisions file that were read while the request waited, and that no
/// later line of those bytes takes back. `files[i]` is what was read for `events[i]`, where that
/// is a look.
pub proof fn law_approval_needs_a_matching_decision(
    timeout: nat,
    events: Seq<Event<nat>>,
    files: Seq<Option<Seq<u8>>>,
    parser: spec_fn(Seq<char>) -> Option<DecisionView>,
)
    requires
        files.len() == events.len(),
        forall|i: int|
            0 <= i < events.len() ==> (#[trigger] events[i] matches Event::Polled {
                answer,
                now,
            } ==> (phase_after(timeout, Phase::Preparing, events.take(i)) matches Phase::Polling {
                pending,
                deadline,
            } ==> answer == found(files[i], pending.id@, parser))),
        phase_after(timeout, Phase::Preparing, events) == (Phase::<nat>::Decided {
            approved: true,
        }),
    ensures
        events[0] is DirectoryReady,
        exists|i: int|
            0 <= i < files.len() && is_decided(
                #[trigger] files[i],
                events[0]->DirectoryReady_pending.id@,
                parser,
                true,
            ) && phase_after(timeout, Phase::Preparing, events.take(i)) is Polling,
{
    law_approval_needs_an_approving_answer(timeout, events);
    let i = choose|i: int|
        0 <= i < events.len() && #[trigger] is_approving(events[i]) && phase_after(
            timeout,
            Phase::Preparing,
            events.take(i),
        ) is Polling;
    law_request_is_posted_once_and_first(timeout, events.take(i));
    assert(events.take(i)[0] == events[0]);
    let id = events[0]->DirectoryReady_pending.id@;
    assert(found(files[i], id, parser) == Some(true));
    let lines = decisions::parsed(files[i]->0, parser);
    decisions::law_answer_is_the_last_decision(lines, id);
    let k = choose|k: int|
        0 <= k < lines.len() && #[trigger] decisions::answers(lines[k], id) && lines[k]->0.approved
            == true && forall|j: int| k < j < lines.len() ==> !decisions::answers(lines[j], id);
    assert(decides_at(lines, id, k, true));
    assert(is_decided(files[i], id, parser, true));
}

/// Every request begins with the directory of the mailbox.
pub proof fn law_request_begins_with_the_directory(mailbox: &FileApproval, phase: Phase<Duration>)
    requires
        call_ensures(FileApproval::begin, (mailbox,), phase),
    ensures
        phase is Preparing,
{
}

/// What a phase asks for: first the directory; then one complete line for the request, from which
/// a reader gets its id, action, parameters, time and process back; then a look at the answers;
/// between two looks a pause that ends after the poll interval or at the deadline, whichever comes
/// first; and at the end the very decision that was taken.
pub proof fn law_phase_asks_for_its_action(
    mailbox: &FileApproval,
    phase: &Phase<Duration>,
    action: Action<Duration, String>,
)
    requires
        call_ensures(FileApproval::action, (mailbox, phase), action),
    ensures
        *phase is Preparing ==> action is CreateDirectory,
        *phase matches Phase::Posting { pending } ==> {
            &&& action is AppendRequest
            &&& action->line@.len() > 0
            &&& action->line@.last() == '\n'
            &&& action->line@ == "{\"id\":"@ + json::json_string(pending.id@)
                + ",\"action_id\":"@ + json::json_string(pending.action_id@) + ",\"params\":"@
                + json::value_text(pending.params) + ",\"requested_at_ms\":"@ + text::decimal(
                pending.requested_at_ms as nat,
            ) + ",\"pid\":"@ + text::decimal(pending.pid as nat) + "}\n"@
            &&& pending::read_line(action->line@) == Some(
                (
                    pending.id@,
                    pending.action_id@,
                    json::value_text(pending.params) + ",\"requested_at_ms\":"@ + text::decimal(
                        pending.requested_at_ms as nat,
                    ) + ",\"pid\":"@ + text::decimal(pending.pid as nat) + "}\n"@,
                ),
            )
        },
        forall|encoded: Result<String, pending::EncodeError>|
            *phase is Posting && #[trigger] call_ensures(
                PendingApproval::to_line,
                (&phase->Posting_pending,),
                encoded,
            ) ==> action->line@ == encoded->Ok_0@,
        *phase is Polling ==> action is ReadDecisions,
        *phase matches Phase::Sleeping { pending, deadline, since } ==> {
            &&& action is SleepUntil
            &&& action->moment@ <= deadline@
            &&& action->moment@ <= since@ + mailbox@.poll
            &&& action->moment@ == deadline@ || action->moment@ == since@ + mailbox@.poll
        },
        *phase matches Phase::Decided { approved } ==> action is Finish
            && action->Finish_approved == approved,
{
    if let Phase::Posting { pending } = *phase {
        pending::law_pending_line_is_read(pending);
        reveal_strlit("}\n");
        assert(pending::pending_line(pending).last() == '\n');
    }
}

/// Where a step leads: an approval comes of an approving answer to a waiting request and of
/// nothing else; the request that is posted is the one that was made up when the directory was
/// ready, and it stays the same; the deadline stands the timeout after the posting and stays where
/// it is; a decision stays as it is; and whatever is not foreseen denies.
pub proof fn law_step_leads_to_the_next_phase(
    mailbox: &FileApproval,
    phase: Phase<Duration>,
    event: Event<Duration>,
    next: Phase<Duration>,
)
    requires
        call_ensures(FileApproval::step, (mailbox, phase, event), next),
    ensures
        phase matches Phase::Decided { approved } ==> next is Decided && next->approved
            == approved,
        next is Decided && next->approved ==> {
            ||| phase is Decided && phase->approved
            ||| phase is Polling && event is Polled && event->answer == Some(true)
        },
        phase is Preparing && event is DirectoryReady ==> next is Posting
            && next->Posting_pending == event->pending,
        phase is Posting && event is Posted ==> {
            &&& next is Polling
            &&& next->Polling_pending == phase->Posting_pending
            &&& next->Polling_deadline@ == event->Posted_now@ + mailbox@.timeout
        },
        phase is Polling && event is Polled && event->answer is Some ==> next is Decided
            && next->approved == event->answer->0,
        phase is Polling && event is Polled && event->answer is None && event->Polled_now@
            < phase->Polling_deadline@ ==> {
            &&& next is Sleeping
            &&& next->Sleeping_pending == phase->Polling_pending
            &&& next->Sleeping_deadline@ == phase->Polling_deadline@
            &&& next->since@ == event->Polled_now@
        },
        phase is Polling && event is Polled && event->answer is None && event->Polled_now@
            >= phase->Polling_deadline@ ==> next is Decided && !next->approved,
        phase is Sleeping && event is Woke ==> {
            &&& next is Polling
            &&& next->Polling_pending == phase->Sleeping_pending
            &&& next->Polling_deadline@ == phase->Sleeping_deadline@
        },
        !(phase is Decided) && !(phase is Preparing && event is DirectoryReady) && !(phase
            is Posting && event is Posted) && !(phase is Polling && event is Polled) && !(phase
            is Sleeping && event is Woke) ==> next is Decided && !next->approved,
{
}

/// A look decides by what [`decisions::scan_decision`] finds for the very request that waits: its
/// answer, if there is one; else a look that ended before the deadline leads to a pause, and a
/// later one denies. A look in any other phase finds nothing: it leaves a decision as it is, and
/// denies a request that does not wait for an answer.
pub proof fn law_look_decides_by_the_scan<F: Fn(&str) -> Option<ApprovalDecision>>(
    mailbox: &FileApproval,
    phase: Phase<Duration>,
    bytes: Option<&[u8]>,
    now: Duration,
    parse: F,
    next: Phase<Duration>,
    id: &str,
    answer: Option<bool>,
    parser: spec_fn(Seq<char>) -> Option<DecisionView>,
)
    requires
        call_ensures(FileApproval::look::<F>, (mailbox, phase, bytes, now, parse), next),
        call_ensures(decisions::scan_decision::<F>, (bytes, id, parse), answer),
        decisions::reads_as(parse, parser),
        phase is Polling ==> id@ == phase->Polling_pending.id@,
    ensures
        phase is Polling && answer is Some ==> next is Decided && next->approved == answer->0,
        phase is Polling && answer is None && now@ < phase->Polling_deadline@ ==> {
            &&& next is Sleeping
            &&& next->Sleeping_pending == phase->Polling_pending
            &&& next->Sleeping_deadline@ == phase->Polling_deadline@
            &&& next->since@ == now@
        },
        phase is Polling && answer is None && now@ >= phase->Polling_deadline@ ==> next is Decided
            && !next->approved,
        phase is Decided ==> next is Decided && next->approved == phase->approved,
        !(phase is Polling) && !(phase is Decided) ==> next is Decided && !next->approved,
{
    let view = decisions::bytes_view(bytes);
    let seen = choose|seen: Option<bool>| #[trigger]
        may_see(parse, phase@, view, seen) && next@ == next_phase(
            mailbox@.timeout,
            phase@,
            Event::Polled { answer: seen, now: now@ },
        );
    if phase is Polling {
        if let Some(b) = bytes {
            decisions::lemma_scan_is_read(b@, id@, parse, parser, answer);
            decisions::lemma_scan_is_read(b@, id@, parse, parser, seen);
        }
    }
}

/// A look approves a request that waits only if the decisions file could be read and holds, on
/// some line, an approving decision that names the id of the request, and no later line of it
/// takes that back. So an absent file, and one that only denies, never approves.
pub proof fn law_look_approves_only_on_a_matching_approval<F: Fn(&str) -> Option<ApprovalDecision>>(
    mailbox: &FileApproval,
    phase: Phase<Duration>,
    bytes: Option<&[u8]>,
    now: Duration,
    parse: F,
    next: Phase<Duration>,
    parser: spec_fn(Seq<char>) -> Option<DecisionView>,
)
    requires
        call_ensures(FileApproval::look::<F>, (mailbox, phase, bytes, now, parse), next),
        decisions::reads_as(parse, parser),
        !(phase is Decided),
        next is Decided,
        next->approved,
    ensures
        phase is Polling,
        bytes is Some,
        is_decided(Some(bytes->0@), phase->Polling_pending.id@, parser, true),
        exists|entry: Seq<char>|
            decisions::file_entries(bytes->0@).contains(entry) && (#[trigger] parser(
                entry,
            ) matches Some(d) && d.id == phase->Polling_pending.id@ && d.approved),
{
    let view = decisions::bytes_view(bytes);
    let seen = choose|seen: Option<bool>| #[trigger]
        may_see(parse, phase@, view, seen) && next@ == next_phase(
            mailbox@.timeout,
            phase@,
            Event::Polled { answer: seen, now: now@ },
        );
    let id = phase->Polling_pending.id@;
    let b = bytes->0@;
    decisions::lemma_scan_is_read(b, id, parse, parser, seen);
    let lines = decisions::parsed(b, parser);
    decisions::law_answer_is_the_last_decision(lines, id);
    let k = choose|k: int|
        0 <= k < lines.len() && #[trigger] decisions::answers(lines[k], id) && lines[k]->0.approved
            == true && forall|j: int| k < j < lines.len() ==> !decisions::answers(lines[j], id);
    assert(decides_at(lines, id, k, true));
    let entry = decisions::file_entries(b)[k];
    assert(parser(entry) == lines[k]);
    assert(decisions::file_entries(b).contains(entry));
}

/// What the laws on courses say of what a look finds holds of [`FileApproval::look`]: the phase
/// after a look is the one after the event that the answer which is found stands in.
pub proof fn law_look_finds_the_answer<F: Fn(&str) -> Option<ApprovalDecision>>(
    mailbox: &FileApproval,
    phase: Phase<Duration>,
    bytes: Option<&[u8]>,
    now: Duration,
    parse: F,
    next: Phase<Duration>,
    parser: spec_fn(Seq<char>) -> Option<DecisionView>,
)
    requires
        call_ensures(FileApproval::look::<F>, (mailbox, phase, bytes, now, parse), next),
        decisions::reads_as(parse, parser),
        phase is Polling,
    ensures
        ({
            let id = phase->Polling_pending.id@;
            let answer = match bytes {
                Some(b) => decisions::scan(b@, id, parser),
                None => None,
            };
            &&& answer == found(decisions::bytes_view(bytes), id, parser)
            &&& next@ == next_phase(
                mailbox@.timeout,
                phase@,
                Event::Polled { answer, now: now@ },
            )
        }),
{
    let view = decisions::bytes_view(bytes);
    let seen = choose|seen: Option<bool>| #[trigger]
        may_see(parse, phase@, view, seen) && next@ == next_phase(
            mailbox@.timeout,
            phase@,
            Event::Polled { answer: seen, now: now@ },
        );
    if let Some(b) = bytes {
        decisions::lemma_scan_is_read(b@, phase->Polling_pending.id@, parse, parser, seen);
    }
}

} // verus!
