//! A connection: one streaming session, the state it is in, and the
//! transport it owns until it is closed.

use crate::error::EsError;
use crate::event::{translate, translation, EsEvent, EventView, Notification, NotificationView};
use crate::lifecycle::{
    advance, answer_for, answers_given, evolved, lemma_live_run_delivers_all,
    lemma_nothing_after_close, lemma_run_reads_its_answers, outset, run, settled,
    ConnectionState,
};
use std::collections::VecDeque;
use std::ops::ControlFlow;
use vstd::prelude::*;

verus! {

/// One streaming session. It owns its transport, a value of type `T` that
/// this crate only keeps and hands back, from the moment the transport is
/// acquired until the connection is closed. The transport leaves the
/// connection exactly once, to be closed by whoever receives it.
pub struct Connection<T> {
    address: String,
    /// Where the connection stands while it is live. Never `Closed`: a
    /// connection is closed exactly when it holds no transport.
    stage: ConnectionState,
    transport: Option<T>,
}

/// The mathematical value of a [`Connection`].
pub struct ConnectionView<T> {
    /// The address that the transport was acquired for.
    pub address: Seq<char>,
    /// Where the connection stands.
    pub state: ConnectionState,
    /// The transport, as long as the connection holds it.
    pub transport: Option<T>,
}

impl<T> ConnectionView<T> {
    /// A connection holds its transport exactly as long as it is not
    /// closed. This holds of every [`Connection`].
    pub open spec fn wf(self) -> bool {
        self.state is Closed <==> self.transport is None
    }

    /// A connection as it is made: not yet open, holding `transport`.
    pub open spec fn fresh(address: Seq<char>, transport: T) -> Self {
        ConnectionView { address, state: ConnectionState::Connecting, transport: Some(transport) }
    }

    /// The connection once it has taken in a notification. A closed
    /// connection takes in nothing.
    pub open spec fn received(self, notification: NotificationView) -> Self {
        if self.state is Closed {
            self
        } else {
            ConnectionView { state: evolved(self.state, notification), ..self }
        }
    }

    /// The connection once closed, its transport gone.
    pub open spec fn closed(self) -> Self {
        ConnectionView { state: ConnectionState::Closed, transport: None, ..self }
    }

    /// The connection once the handler has answered: closed where it said
    /// to stop, as it was where it said to continue.
    pub open spec fn settled(self, answer: ControlFlow<()>) -> Self {
        ConnectionView {
            state: settled(self.state, answer),
            transport: if answer is Break {
                None
            } else {
                self.transport
            },
            ..self
        }
    }
}

impl<T> View for Connection<T> {
    type V = ConnectionView<T>;

    closed spec fn view(&self) -> ConnectionView<T> {
        ConnectionView {
            address: self.address@,
            state: match self.transport {
                Some(_) => self.stage,
                None => ConnectionState::Closed,
            },
            transport: self.transport,
        }
    }
}

/// Whether `handler`, given an event whose value is `event`, may return
/// `answer`.
pub open spec fn may_answer<F: Fn(EsEvent) -> ControlFlow<()>>(
    handler: &F,
    event: EventView,
    answer: ControlFlow<()>,
) -> bool {
    exists|given: EsEvent| given@ == event && #[trigger] call_ensures(*handler, (given,), answer)
}

/// Whether `acquire`, asked for a transport at `address`, may return
/// `acquired`.
pub open spec fn may_acquire<T, E, A: FnOnce(&str) -> Result<T, E>>(
    acquire: A,
    address: Seq<char>,
    acquired: Result<T, E>,
) -> bool {
    exists|asked: &str| asked@ == address && #[trigger] call_ensures(acquire, (asked,), acquired)
}

/// What one dispatch does to a connection's state is one step of a run:
/// the laws of runs hold of dispatches made one after the other.
pub proof fn lemma_dispatch_is_a_step<T>(
    before: ConnectionView<T>,
    notification: NotificationView,
    answer: ControlFlow<()>,
)
    ensures
        before.received(notification).settled(answer).state == advance(
            outset(before.state),
            notification,
            answer,
        ).state,
        before.received(notification).settled(answer).state == run(
            before.state,
            seq![notification],
            seq![answer],
        ).state,
        before.wf() ==> before.received(notification).settled(answer).wf(),
{
    let one = seq![notification];
    assert(one.drop_last().len() == 0);
    assert(run(before.state, one.drop_last(), seq![answer]) == outset(before.state));
}

/// The notifications of a queue as mathematical values, in their order.
pub open spec fn pending(queue: Seq<Notification>) -> Seq<NotificationView> {
    Seq::new(queue.len(), |i: int| queue[i]@)
}

impl<T> Connection<T> {
    #[verifier::type_invariant]
    spec fn stage_is_live(self) -> bool {
        !(self.stage is Closed)
    }

    /// A connection for `address` around a transport that was just
    /// acquired. No event has been delivered yet.
    pub fn new(address: String, transport: T) -> (connection: Connection<T>)
        ensures
            connection@ == ConnectionView::fresh(address@, transport),
            connection@.wf(),
    {
        Connection { address, stage: ConnectionState::Connecting, transport: Some(transport) }
    }

    /// Makes a connection of what the acquisition of a transport came to.
    /// Where it failed there is no connection, and so nothing that an
    /// event could ever be dispatched through.
    pub fn establish<E>(address: String, acquired: Result<T, E>) -> (made: Result<
        Connection<T>,
        EsError,
    >)
        ensures
            acquired matches Ok(transport) ==> (made matches Ok(connection) && connection@
                == ConnectionView::fresh(address@, transport) && connection@.wf()),
            acquired is Err ==> made == Err::<Connection<T>, EsError>(EsError::AcquisitionFailed),
    {
        match acquired {
            Ok(transport) => Ok(Connection::new(address, transport)),
            Err(_) => Err(EsError::AcquisitionFailed),
        }
    }

    /// Acquires a transport for `address` by one call of `acquire`, and
    /// makes a connection around it. Fails at once, with
    /// [`EsError::AcquisitionFailed`], where `acquire` fails.
    pub fn connect<E, A: FnOnce(&str) -> Result<T, E>>(address: String, acquire: A) -> (made:
        Result<Connection<T>, EsError>)
        requires
            forall|asked: &str| asked@ == address@ ==> call_requires(acquire, (asked,)),
        ensures
            made matches Ok(connection) ==> (connection@.transport matches Some(transport)
                && may_acquire(acquire, address@, Ok::<T, E>(transport)) && connection@
                == ConnectionView::fresh(address@, transport) && connection@.wf()),
            made matches Err(error) ==> (error == EsError::AcquisitionFailed && exists|refusal: E|
                may_acquire(acquire, address@, Err::<T, E>(refusal))),
    {
        let acquired = acquire(address.as_str());
        proof {
            if acquired is Err {
                assert(may_acquire(acquire, address@, Err::<T, E>(acquired->Err_0)));
            }
        }
        Connection::establish(address, acquired)
    }

    /// Where the connection stands.
    pub fn state(&self) -> (state: ConnectionState)
        ensures
            state == self@.state,
            self@.wf(),
    {
        proof {
            use_type_invariant(self);
        }
        if self.transport.is_none() {
            ConnectionState::Closed
        } else {
            self.stage
        }
    }

    /// Whether the connection has been closed.
    pub fn is_closed(&self) -> (closed: bool)
        ensures
            closed == (self@.state is Closed),
            closed == (self@.transport is None),
    {
        proof {
            use_type_invariant(self);
        }
        self.transport.is_none()
    }

    /// The address that the transport was acquired for.
    pub fn address(&self) -> (address: &str)
        ensures
            address@ == self@.address,
    {
        self.address.as_str()
    }

    /// The transport, for as long as the connection holds it.
    pub fn transport(&self) -> (transport: Option<&T>)
        ensures
            transport is Some <==> self@.transport is Some,
            transport matches Some(held) ==> self@.transport == Some(*held),
    {
        self.transport.as_ref()
    }

    /// Takes in one notification and gives the event that the handler is
    /// to be told. A closed connection takes in nothing and gives no
    /// event.
    pub fn receive(&mut self, notification: Notification) -> (event: Option<EsEvent>)
        ensures
            final(self)@ == old(self)@.received(notification@),
            final(self)@.wf(),
            old(self)@.state is Closed ==> event is None,
            !(old(self)@.state is Closed) ==> (event matches Some(told) && told@ == translation(
                notification@,
            )),
    {
        proof {
            use_type_invariant(&*self);
        }
        if self.transport.is_none() {
            None
        } else {
            match notification {
                Notification::Open => {
                    self.stage = ConnectionState::Open;
                },
                Notification::Message { .. } => {},
                Notification::Error { .. } => {
                    self.stage = ConnectionState::Errored;
                },
            }
            Some(translate(notification))
        }
    }

    /// Closes the connection and hands back its transport, for the caller
    /// to close. Closing a connection that is closed already changes
    /// nothing and hands back nothing.
    pub fn close(&mut self) -> (released: Option<T>)
        ensures
            final(self)@ == old(self)@.closed(),
            final(self)@.wf(),
            released == old(self)@.transport,
            old(self)@.state is Closed ==> released is None && final(self)@ == old(self)@,
            !(old(self)@.state is Closed) ==> released is Some,
    {
        proof {
            use_type_invariant(&*self);
        }
        let mut released: Option<T> = None;
        std::mem::swap(&mut self.transport, &mut released);
        released
    }

    /// Acts on the handler's answer to the event last received: closes
    /// the connection where the answer is to stop, as [`Connection::close`]
    /// does, and leaves it as it is where the answer is to continue.
    pub fn settle(&mut self, answer: ControlFlow<()>) -> (released: Option<T>)
        ensures
            final(self)@ == old(self)@.settled(answer),
            final(self)@.wf(),
            released == if answer is Break {
                old(self)@.transport
            } else {
                None
            },
    {
        proof {
            use_type_invariant(&*self);
        }
        match answer {
            ControlFlow::Break(_) => self.close(),
            ControlFlow::Continue(_) => None,
        }
    }

    /// Dispatches one notification: translates it, gives the event to
    /// `handler`, once, and closes the connection if the handler says to
    /// stop. The transport comes back exactly then, for the caller to
    /// close. A closed connection does none of this: the handler is not
    /// called and nothing comes back.
    pub fn dispatch<F: Fn(EsEvent) -> ControlFlow<()>>(
        &mut self,
        notification: Notification,
        handler: &F,
    ) -> (released: Option<T>)
        requires
            forall|event: EsEvent| call_requires(*handler, (event,)),
        ensures
            final(self)@.wf(),
            old(self)@.state is Closed ==> released is None && final(self)@ == old(self)@,
            !(old(self)@.state is Closed) ==> ({
                let answer = answer_for(released is Some);
                &&& may_answer(handler, translation(notification@), answer)
                &&& final(self)@ == old(self)@.received(notification@).settled(answer)
                &&& released is Some ==> released == old(self)@.transport
            }),
    {
        match self.receive(notification) {
            None => None,
            Some(event) => {
                let answer = handler(event);
                proof {
                    match answer {
                        ControlFlow::Break(unit) => {
                            assert(unit == ());
                        },
                        ControlFlow::Continue(unit) => {
                            assert(unit == ());
                        },
                    }
                }
                self.settle(answer)
            },
        }
    }

    /// Dispatches the notifications of `queue`, first to last, for as long
    /// as the connection is live. Each one dispatched is taken off the
    /// queue. When the handler says to stop, the rest stays on the queue,
    /// never to be delivered, and the transport comes back.
    pub fn drain<F: Fn(EsEvent) -> ControlFlow<()>>(
        &mut self,
        queue: &mut VecDeque<Notification>,
        handler: &F,
    ) -> (released: Option<T>)
        requires
            forall|event: EsEvent| call_requires(*handler, (event,)),
        ensures
            final(self)@.wf(),
            final(queue)@.len() <= old(queue)@.len(),
            ({
                let raised = pending(old(queue)@);
                let taken = old(queue)@.len() - final(queue)@.len();
                let answers = answers_given(taken as nat, released is Some);
                let outcome = run(old(self)@.state, raised, answers);
                &&& final(queue)@ == old(queue)@.skip(taken)
                &&& forall|i: int|
                    0 <= i < taken ==> may_answer(handler, translation(raised[i]), #[trigger] answers[i])
                &&& final(self)@.state == outcome.state
                &&& final(self)@.address == old(self)@.address
                &&& outcome.delivered.len() == taken
                &&& released is Some <==> outcome.closes == 1
                &&& released is Some <==> !(old(self)@.state is Closed) && final(self)@.state is Closed
                &&& released is Some ==> released == old(self)@.transport
                &&& released is None ==> final(self)@.transport == old(self)@.transport
            }),
    {
        let ghost start = self@;
        let ghost raised = pending(queue@);
        let ghost all = queue@;
        let mut released: Option<T> = None;
        proof {
            use_type_invariant(&*self);
        }
        while !self.is_closed() && queue.len() > 0
            invariant
                forall|event: EsEvent| call_requires(*handler, (event,)),
                start == old(self)@,
                all == old(queue)@,
                raised == pending(all),
                self@.wf(),
                queue@.len() <= all.len(),
                queue@ == all.skip(all.len() - queue@.len()),
                self@.address == start.address,
                ({
                    let taken = all.len() - queue@.len();
                    let answers = answers_given(taken as nat, released is Some);
                    let so_far = run(start.state, raised.take(taken), answers);
                    &&& forall|i: int|
                        0 <= i < taken ==> may_answer(
                            handler,
                            translation(raised[i]),
                            #[trigger] answers[i],
                        )
                    &&& self@.state == so_far.state
                    &&& so_far.delivered.len() == taken
                    &&& released is Some <==> so_far.closes == 1
                    &&& released is Some ==> released == start.transport && self@.state is Closed
                    &&& released is None ==> self@.transport == start.transport
                }),
            decreases queue@.len(),
        {
            let ghost taken = all.len() - queue@.len();
            if let Some(notification) = queue.pop_front() {
                assert(notification@ == raised[taken]);
                released = self.dispatch(notification, handler);
                proof {
                    let answers = answers_given(taken as nat, false);
                    let more = answers_given((taken + 1) as nat, released is Some);
                    lemma_live_run_delivers_all(start.state, raised.take(taken), answers);
                    lemma_run_reads_its_answers(start.state, raised.take(taken), answers, more);
                    assert(raised.take(taken + 1).drop_last() == raised.take(taken));
                    assert(queue@ == all.skip(taken + 1));
                    assert forall|i: int| 0 <= i < taken + 1 implies may_answer(
                        handler,
                        translation(raised[i]),
                        #[trigger] more[i],
                    ) by {
                        if i < taken {
                            assert(more[i] == answers[i]);
                        }
                    }
                }
            }
        }
        proof {
            let taken = all.len() - queue@.len();
            let answers = answers_given(taken as nat, released is Some);
            if self@.state is Closed {
                lemma_nothing_after_close(start.state, raised, answers, taken);
            } else {
                assert(raised.take(taken) == raised);
            }
        }
        released
    }
}

} // verus!
