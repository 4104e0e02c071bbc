//! The life of a connection as a mathematical model: how its state moves
//! with each notification and each answer of the handler, what a whole run
//! of notifications delivers, and the laws that hold of every run.

use crate::event::{translation, EventView, NotificationView};
use std::ops::ControlFlow;
use vstd::prelude::*;

verus! {

/// Where a connection stands.
#[derive(Debug, Clone, Copy, PartialEq, Eq, Structural)]
pub enum ConnectionState {
    /// The transport was acquired and has not reported that it is open.
    Connecting,
    /// The transport reported that it is open.
    Open,
    /// The transport's last report was an error. This is not final: the
    /// transport may carry on, and open again.
    Errored,
    /// The connection released its transport. This is final.
    Closed,
}

/// The state of a live connection once it has taken in a notification.
pub open spec fn evolved(state: ConnectionState, notification: NotificationView)
    -> ConnectionState {
    match notification {
        NotificationView::Open => ConnectionState::Open,
        NotificationView::Message { .. } => state,
        NotificationView::Error { .. } => ConnectionState::Errored,
    }
}

/// The state of a connection once the handler has answered: closed where
/// it said to stop, unchanged where it said to continue.
pub open spec fn settled(state: ConnectionState, answer: ControlFlow<()>) -> ConnectionState {
    if answer is Break {
        ConnectionState::Closed
    } else {
        state
    }
}

/// What a run of notifications has come to.
pub struct Outcome {
    /// The connection's state after the run.
    pub state: ConnectionState,
    /// The events that the handler was given, first to last.
    pub delivered: Seq<EventView>,
    /// How often the transport was handed back to be closed.
    pub closes: nat,
}

/// The outcome of a run that is yet to start.
pub open spec fn outset(start: ConnectionState) -> Outcome {
    Outcome { state: start, delivered: Seq::empty(), closes: 0 }
}

/// One more notification. A closed connection lets it pass unseen. A live
/// one translates it, gives the event to the handler, and closes if the
/// handler's `answer` is to stop.
pub open spec fn advance(before: Outcome, notification: NotificationView, answer: ControlFlow<()>)
    -> Outcome {
    if before.state is Closed {
        before
    } else {
        Outcome {
            state: settled(evolved(before.state, notification), answer),
            delivered: before.delivered.push(translation(notification)),
            closes: if answer is Break {
                before.closes + 1
            } else {
                before.closes
            },
        }
    }
}

/// The outcome of dispatching `notifications` in order to a connection
/// that starts in `start`. `answers[i]` is what the handler answers to the
/// event of `notifications[i]`; it is read only where that event is
/// delivered.
pub open spec fn run(
    start: ConnectionState,
    notifications: Seq<NotificationView>,
    answers: Seq<ControlFlow<()>>,
) -> Outcome
    decreases notifications.len(),
{
    if notifications.len() == 0 {
        outset(start)
    } else {
        advance(
            run(start, notifications.drop_last(), answers),
            notifications.last(),
            answers[notifications.len() - 1],
        )
    }
}

/// The events of `notifications`, one for one and in their order.
pub open spec fn translations(notifications: Seq<NotificationView>) -> Seq<EventView> {
    Seq::new(notifications.len(), |i: int| translation(notifications[i]))
}

/// The answer of a handler that said to stop, or to continue.
pub open spec fn answer_for(stopped: bool) -> ControlFlow<()> {
    if stopped {
        ControlFlow::Break(())
    } else {
        ControlFlow::Continue(())
    }
}

/// The answers of a handler that was asked `asked` times and said to stop
/// at the last of them if `stopped`, and to continue every other time.
pub open spec fn answers_given(asked: nat, stopped: bool) -> Seq<ControlFlow<()>> {
    Seq::new(asked, |i: int| answer_for(stopped && i == asked - 1))
}

/// A run reads only the answers to the notifications it was given.
pub proof fn lemma_run_reads_its_answers(
    start: ConnectionState,
    notifications: Seq<NotificationView>,
    answers: Seq<ControlFlow<()>>,
    others: Seq<ControlFlow<()>>,
)
    requires
        forall|i: int| 0 <= i < notifications.len() ==> answers[i] == others[i],
    ensures
        run(start, notifications, answers) == run(start, notifications, others),
    decreases notifications.len(),
{
    if notifications.len() > 0 {
        lemma_run_reads_its_answers(start, notifications.drop_last(), answers, others);
    }
}

/// Events are delivered in the order in which their notifications were
/// raised, with none left out and none added: what the handler has seen is
/// always the translation of the first so many notifications.
pub proof fn lemma_delivered_in_order(
    start: ConnectionState,
    notifications: Seq<NotificationView>,
    answers: Seq<ControlFlow<()>>,
)
    ensures
        run(start, notifications, answers).delivered.len() <= notifications.len(),
        run(start, notifications, answers).delivered == translations(
            notifications.take(run(start, notifications, answers).delivered.len() as int),
        ),
    decreases notifications.len(),
{
    let outcome = run(start, notifications, answers);
    if notifications.len() > 0 {
        let front = notifications.drop_last();
        let before = run(start, front, answers);
        lemma_delivered_in_order(start, front, answers);
        let n = before.delivered.len() as int;
        assert(front.take(n) == notifications.take(n));
        if !(before.state is Closed) {
            lemma_live_run_delivers_all(start, front, answers);
            assert(notifications.take(n + 1) == notifications);
            assert(outcome.delivered == translations(notifications));
        }
    } else {
        assert(outcome.delivered == translations(notifications.take(0)));
    }
}

/// While the connection is live, nothing has been held back: every
/// notification so far was delivered, and the transport was never handed
/// back.
pub proof fn lemma_live_run_delivers_all(
    start: ConnectionState,
    notifications: Seq<NotificationView>,
    answers: Seq<ControlFlow<()>>,
)
    requires
        !(run(start, notifications, answers).state is Closed),
    ensures
        !(start is Closed),
        run(start, notifications, answers).delivered == translations(notifications),
        run(start, notifications, answers).closes == 0,
        forall|i: int| 0 <= i < notifications.len() ==> !(answers[i] is Break),
    decreases notifications.len(),
{
    if notifications.len() > 0 {
        let front = notifications.drop_last();
        let before = run(start, front, answers);
        if before.state is Closed {
            assert(false);
        }
        lemma_live_run_delivers_all(start, front, answers);
        assert(run(start, notifications, answers).delivered == translations(notifications));
    } else {
        assert(run(start, notifications, answers).delivered == translations(notifications));
    }
}

/// A closed connection stays closed: no notification is delivered any
/// more, and the transport is not handed back again.
pub proof fn lemma_closed_is_final(
    notifications: Seq<NotificationView>,
    answers: Seq<ControlFlow<()>>,
)
    ensures
        run(ConnectionState::Closed, notifications, answers) == outset(ConnectionState::Closed),
    decreases notifications.len(),
{
    if notifications.len() > 0 {
        lemma_closed_is_final(notifications.drop_last(), answers);
    }
}

/// Once a run has closed the connection, the notifications that follow
/// change nothing.
pub proof fn lemma_nothing_after_close(
    start: ConnectionState,
    notifications: Seq<NotificationView>,
    answers: Seq<ControlFlow<()>>,
    seen: int,
)
    requires
        0 <= seen <= notifications.len(),
        run(start, notifications.take(seen), answers).state is Closed,
    ensures
        run(start, notifications, answers) == run(start, notifications.take(seen), answers),
    decreases notifications.len() - seen,
{
    if seen < notifications.len() {
        let front = notifications.drop_last();
        assert(front.take(seen) == notifications.take(seen));
        lemma_nothing_after_close(start, front, answers, seen);
    } else {
        assert(notifications.take(seen) == notifications);
    }
}

/// Every notification reaches the handler, in order, as long as the
/// connection is live at the start and the handler does not say to stop
/// before the last of them.
pub proof fn lemma_order_preserved(
    start: ConnectionState,
    notifications: Seq<NotificationView>,
    answers: Seq<ControlFlow<()>>,
)
    requires
        !(start is Closed),
        forall|i: int| 0 <= i < notifications.len() - 1 ==> !(answers[i] is Break),
    ensures
        run(start, notifications, answers).delivered == translations(notifications),
        run(start, notifications, answers).delivered.len() == notifications.len(),
    decreases notifications.len(),
{
    if notifications.len() > 0 {
        let front = notifications.drop_last();
        lemma_continuing_keeps_open(start, front, answers);
        assert(run(start, notifications, answers).delivered == translations(notifications));
    } else {
        assert(run(start, notifications, answers).delivered == translations(notifications));
    }
}

/// Only the handler closes a connection: while it answers to continue, the
/// connection stays live whatever is raised, every notification is
/// delivered, and the transport is never handed back.
pub proof fn lemma_continuing_keeps_open(
    start: ConnectionState,
    notifications: Seq<NotificationView>,
    answers: Seq<ControlFlow<()>>,
)
    requires
        !(start is Closed),
        forall|i: int| 0 <= i < notifications.len() ==> !(answers[i] is Break),
    ensures
        !(run(start, notifications, answers).state is Closed),
        run(start, notifications, answers).closes == 0,
        run(start, notifications, answers).delivered == translations(notifications),
    decreases notifications.len(),
{
    if notifications.len() > 0 {
        lemma_continuing_keeps_open(start, notifications.drop_last(), answers);
    }
    lemma_live_run_delivers_all(start, notifications, answers);
}

/// Errors are tolerated: however many the transport raises in a row, the
/// connection is not closed as long as the handler answers to continue.
/// Each of them is delivered, and the connection is left in
/// [`ConnectionState::Errored`].
pub proof fn lemma_errors_tolerated(
    start: ConnectionState,
    notifications: Seq<NotificationView>,
    answers: Seq<ControlFlow<()>>,
)
    requires
        !(start is Closed),
        forall|i: int| 0 <= i < notifications.len() ==> notifications[i] is Error,
        forall|i: int| 0 <= i < notifications.len() ==> !(answers[i] is Break),
    ensures
        !(run(start, notifications, answers).state is Closed),
        notifications.len() > 0 ==> run(start, notifications, answers).state is Errored,
        run(start, notifications, answers).closes == 0,
        run(start, notifications, answers).delivered.len() == notifications.len(),
        forall|i: int|
            0 <= i < notifications.len() ==> #[trigger] run(
                start,
                notifications,
                answers,
            ).delivered[i] is Error,
{
    lemma_continuing_keeps_open(start, notifications, answers);
    if notifications.len() > 0 {
        lemma_continuing_keeps_open(start, notifications.drop_last(), answers);
    }
}

/// The transport is handed back at most once in a run, and exactly once
/// where the run closes a connection that was live.
pub proof fn lemma_at_most_one_close(
    start: ConnectionState,
    notifications: Seq<NotificationView>,
    answers: Seq<ControlFlow<()>>,
)
    ensures
        run(start, notifications, answers).closes <= 1,
        run(start, notifications, answers).closes == 1 <==> (!(start is Closed) && run(
            start,
            notifications,
            answers,
        ).state is Closed),
    decreases notifications.len(),
{
    if notifications.len() > 0 {
        let front = notifications.drop_last();
        lemma_at_most_one_close(start, front, answers);
        if !(run(start, front, answers).state is Closed) {
            lemma_live_run_delivers_all(start, front, answers);
        }
    }
}

/// Only the handler's word closes a connection. Where a run handed the
/// transport back, the last event delivered is the one that the handler
/// answered with stop, and it answered none before it so.
pub proof fn lemma_close_follows_stop(
    start: ConnectionState,
    notifications: Seq<NotificationView>,
    answers: Seq<ControlFlow<()>>,
)
    ensures
        run(start, notifications, answers).closes <= run(
            start,
            notifications,
            answers,
        ).delivered.len(),
        run(start, notifications, answers).closes == 1 ==> answers[run(
            start,
            notifications,
            answers,
        ).delivered.len() - 1] is Break,
        forall|i: int|
            0 <= i < run(start, notifications, answers).delivered.len() - 1 ==> !(
            #[trigger] answers[i] is Break),
    decreases notifications.len(),
{
    if notifications.len() > 0 {
        let front = notifications.drop_last();
        lemma_close_follows_stop(start, front, answers);
        if !(run(start, front, answers).state is Closed) {
            lemma_live_run_delivers_all(start, front, answers);
        }
    }
}

/// Once the handler says to stop, at the notification of index `stop`, the
/// transport is handed back exactly once, the connection is closed, and
/// the handler has seen the notifications up to that one and none after
/// it, however many were raised.
pub proof fn lemma_stop_closes_once(
    start: ConnectionState,
    notifications: Seq<NotificationView>,
    answers: Seq<ControlFlow<()>>,
    stop: int,
)
    requires
        !(start is Closed),
        0 <= stop < notifications.len(),
        answers[stop] is Break,
        forall|i: int| 0 <= i < stop ==> !(answers[i] is Break),
    ensures
        run(start, notifications, answers).state is Closed,
        run(start, notifications, answers).closes == 1,
        run(start, notifications, answers).delivered == translations(notifications.take(stop + 1)),
        run(start, notifications, answers).delivered.len() == stop + 1,
{
    let seen = notifications.take(stop + 1);
    assert(seen.drop_last() == notifications.take(stop));
    assert(seen.last() == notifications[stop]);
    lemma_continuing_keeps_open(start, notifications.take(stop), answers);
    let before = run(start, notifications.take(stop), answers);
    let at_stop = run(start, seen, answers);
    assert(at_stop == advance(before, notifications[stop], answers[stop]));
    assert(at_stop.delivered == translations(seen));
    lemma_nothing_after_close(start, notifications, answers, stop + 1);
}

} // verus!
