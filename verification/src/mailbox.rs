//! The bounded queue of envelopes that every actor owns.
//!
//! A mailbox is first-in first-out, holds at most `capacity` envelopes and has
//! a close flag. Closing rejects new envelopes but keeps the queued ones: they
//! are still received, in order, until the queue is drained.

use vstd::prelude::*;
use std::collections::VecDeque;
use crate::addr::Addr;
use crate::envelope::Envelope;
use crate::errors::{SendError, TryRecvError, TrySendError};

verus! {

/// Capacity of a mailbox made by [`Mailbox::new`].
pub const DEFAULT_CAPACITY: usize = 100;

/// The mathematical state of a mailbox.
pub struct MailboxModel<M> {
    pub queue: Seq<Envelope<M>>,
    pub capacity: nat,
    pub closed: bool,
}

/// One call on a mailbox, as an event of a history.
pub enum MailboxOp<M> {
    Send(Envelope<M>),
    Recv,
    Close,
}

impl<M> MailboxModel<M> {
    pub open spec fn wf(self) -> bool {
        self.queue.len() <= self.capacity
    }

    /// Whether an envelope offered now is taken.
    pub open spec fn accepts(self) -> bool {
        !self.closed && self.queue.len() < self.capacity
    }

    /// The state after offering `envelope`.
    pub open spec fn send(self, envelope: Envelope<M>) -> Self {
        if self.accepts() {
            MailboxModel { queue: self.queue.push(envelope), ..self }
        } else {
            self
        }
    }

    /// The state after one receive.
    pub open spec fn recv(self) -> Self {
        if self.queue.len() > 0 {
            MailboxModel { queue: self.queue.drop_first(), ..self }
        } else {
            self
        }
    }

    /// What offering `envelope` without waiting returns: closed takes
    /// precedence over full, and a refused envelope comes back.
    pub open spec fn send_result(self, envelope: Envelope<M>) -> Result<
        (),
        TrySendError<Envelope<M>>,
    > {
        if self.closed {
            Err(TrySendError::Closed(envelope))
        } else if self.queue.len() >= self.capacity {
            Err(TrySendError::Full(envelope))
        } else {
            Ok(())
        }
    }

    /// What one receive that does not wait returns.
    pub open spec fn recv_result(self) -> Result<Envelope<M>, TryRecvError> {
        if self.queue.len() > 0 {
            Ok(self.queue.first())
        } else if self.closed {
            Err(TryRecvError::Closed)
        } else {
            Err(TryRecvError::Empty)
        }
    }

    /// What one attempt of a receive that waits yields.
    pub open spec fn recv_poll(self) -> RecvPoll<M> {
        if self.queue.len() > 0 {
            RecvPoll::Ready(self.queue.first())
        } else if self.closed {
            RecvPoll::Finished
        } else {
            RecvPoll::Pending
        }
    }

    /// The state after closing.
    pub open spec fn close(self) -> Self {
        MailboxModel { closed: true, ..self }
    }

    /// The state after one event.
    pub open spec fn step(self, op: MailboxOp<M>) -> Self {
        match op {
            MailboxOp::Send(envelope) => self.send(envelope),
            MailboxOp::Recv => self.recv(),
            MailboxOp::Close => self.close(),
        }
    }

    /// The envelope that the event makes the mailbox take, if any.
    pub open spec fn taken(self, op: MailboxOp<M>) -> Seq<Envelope<M>> {
        match op {
            MailboxOp::Send(envelope) if self.accepts() => seq![envelope],
            _ => Seq::empty(),
        }
    }

    /// The envelope that the event hands to the receiver, if any.
    pub open spec fn given(self, op: MailboxOp<M>) -> Seq<Envelope<M>> {
        match op {
            MailboxOp::Recv if self.queue.len() > 0 => seq![self.queue.first()],
            _ => Seq::empty(),
        }
    }

    /// The state after a history of events.
    pub open spec fn run(self, ops: Seq<MailboxOp<M>>) -> Self
        decreases ops.len(),
    {
        if ops.len() == 0 {
            self
        } else {
            self.step(ops.first()).run(ops.drop_first())
        }
    }

    /// All envelopes that the mailbox took during a history, in order.
    pub open spec fn accepted(self, ops: Seq<MailboxOp<M>>) -> Seq<Envelope<M>>
        decreases ops.len(),
    {
        if ops.len() == 0 {
            Seq::empty()
        } else {
            self.taken(ops.first()) + self.step(ops.first()).accepted(ops.drop_first())
        }
    }

    /// All envelopes that were received during a history, in order.
    pub open spec fn delivered(self, ops: Seq<MailboxOp<M>>) -> Seq<Envelope<M>>
        decreases ops.len(),
    {
        if ops.len() == 0 {
            Seq::empty()
        } else {
            self.given(ops.first()) + self.step(ops.first()).delivered(ops.drop_first())
        }
    }
}

/// The envelopes of `envelopes` that came from `sender`, in order.
pub open spec fn sent_by<M>(envelopes: Seq<Envelope<M>>, sender: Addr) -> Seq<Envelope<M>> {
    envelopes.filter(|envelope: Envelope<M>| envelope.spec_sender() == sender)
}

/// Every history keeps a well-formed mailbox well-formed and its capacity.
pub proof fn lemma_run_preserves_wf<M>(state: MailboxModel<M>, ops: Seq<MailboxOp<M>>)
    requires
        state.wf(),
    ensures
        state.run(ops).wf(),
        state.run(ops).capacity == state.capacity,
    decreases ops.len(),
{
    if ops.len() > 0 {
        lemma_run_preserves_wf(state.step(ops.first()), ops.drop_first());
    }
}

/// Nothing is lost: whatever was queued at the start or taken during a
/// history has either been received, in the same order, or is still queued.
/// Closing does not drop anything.
pub proof fn lemma_nothing_lost<M>(state: MailboxModel<M>, ops: Seq<MailboxOp<M>>)
    ensures
        state.queue + state.accepted(ops) == state.delivered(ops) + state.run(ops).queue,
    decreases ops.len(),
{
    if ops.len() == 0 {
        assert(state.queue + state.accepted(ops) =~= state.delivered(ops) + state.run(ops).queue);
    } else {
        let next = state.step(ops.first());
        let rest = ops.drop_first();
        lemma_nothing_lost(next, rest);
        assert(state.queue + state.taken(ops.first()) =~= state.given(ops.first()) + next.queue);
        assert(state.queue + state.accepted(ops) =~= (state.queue + state.taken(ops.first()))
            + next.accepted(rest));
        assert(state.delivered(ops) + state.run(ops).queue =~= state.given(ops.first()) + (
        next.delivered(rest) + next.run(rest).queue));
        assert(state.queue + state.accepted(ops) =~= state.given(ops.first()) + (next.queue
            + next.accepted(rest)));
    }
}

/// Closing is idempotent.
pub proof fn lemma_close_idempotent<M>(state: MailboxModel<M>)
    ensures
        state.close().close() == state.close(),
{
}

/// A closed mailbox takes nothing more.
pub proof fn lemma_closed_takes_nothing<M>(state: MailboxModel<M>, ops: Seq<MailboxOp<M>>)
    requires
        state.closed,
    ensures
        state.run(ops).closed,
        state.accepted(ops) == Seq::<Envelope<M>>::empty(),
    decreases ops.len(),
{
    if ops.len() > 0 {
        lemma_closed_takes_nothing(state.step(ops.first()), ops.drop_first());
        assert(state.accepted(ops) =~= Seq::<Envelope<M>>::empty());
    }
}

/// Per-sender order: what was received from one sender is a prefix of what
/// that sender had queued or got accepted, in the order of sending.
pub proof fn lemma_sender_order_kept<M>(
    state: MailboxModel<M>,
    ops: Seq<MailboxOp<M>>,
    sender: Addr,
)
    ensures
        sent_by(state.delivered(ops), sender).is_prefix_of(
            sent_by(state.queue + state.accepted(ops), sender),
        ),
        sent_by(state.queue + state.accepted(ops), sender) == sent_by(
            state.delivered(ops),
            sender,
        ) + sent_by(state.run(ops).queue, sender),
{
    lemma_nothing_lost(state, ops);
    let from = |envelope: Envelope<M>| envelope.spec_sender() == sender;
    Seq::filter_distributes_over_add(state.delivered(ops), state.run(ops).queue, from);
    let head = sent_by(state.delivered(ops), sender);
    let tail = sent_by(state.run(ops).queue, sender);
    assert((head + tail).subrange(0, head.len() as int) =~= head);
}

/// The outcome of one attempt of a send that may wait.
#[derive(Debug)]
pub enum SendPoll<M> {
    /// The envelope is queued.
    Sent,
    /// No room yet: the envelope comes back, to be offered again once the
    /// mailbox has been drained or closed.
    Pending(Envelope<M>),
    /// The mailbox is closed: the envelope comes back for good.
    Closed(SendError<Envelope<M>>),
}

/// The outcome of one attempt of a receive that may wait.
#[derive(Debug)]
pub enum RecvPoll<M> {
    /// The oldest queued envelope.
    Ready(Envelope<M>),
    /// Nothing is queued yet.
    Pending,
    /// The mailbox is closed and drained.
    Finished,
}

/// A bounded first-in first-out queue of envelopes with a close flag.
#[derive(Debug)]
pub struct Mailbox<M> {
    queue: VecDeque<Envelope<M>>,
    capacity: usize,
    closed: bool,
}

impl<M> View for Mailbox<M> {
    type V = MailboxModel<M>;

    closed spec fn view(&self) -> MailboxModel<M> {
        MailboxModel { queue: self.queue@, capacity: self.capacity as nat, closed: self.closed }
    }
}

impl<M> Mailbox<M> {
    /// Holds of every mailbox that this module hands out.
    pub open spec fn inv(&self) -> bool {
        self@.wf()
    }

    /// An open, empty mailbox with the default capacity.
    pub fn new() -> (mailbox: Mailbox<M>)
        ensures
            mailbox.inv(),
            mailbox@.queue == Seq::<Envelope<M>>::empty(),
            mailbox@.capacity == DEFAULT_CAPACITY,
            !mailbox@.closed,
    {
        Mailbox { queue: VecDeque::new(), capacity: DEFAULT_CAPACITY, closed: false }
    }

    /// An open, empty mailbox that holds at most `capacity` envelopes.
    pub fn with_capacity(capacity: usize) -> (mailbox: Mailbox<M>)
        ensures
            mailbox.inv(),
            mailbox@.queue == Seq::<Envelope<M>>::empty(),
            mailbox@.capacity == capacity,
            !mailbox@.closed,
    {
        Mailbox { queue: VecDeque::new(), capacity, closed: false }
    }

    /// Queues `envelope` unless the mailbox is closed or full; then the
    /// envelope comes back unchanged, closed taking precedence over full.
    pub fn try_send(&mut self, envelope: Envelope<M>) -> (result: Result<
        (),
        TrySendError<Envelope<M>>,
    >)
        requires
            old(self).inv(),
        ensures
            final(self).inv(),
            final(self)@ == old(self)@.send(envelope),
            result == old(self)@.send_result(envelope),
    {
        if self.closed {
            Err(TrySendError::Closed(envelope))
        } else if self.queue.len() >= self.capacity {
            Err(TrySendError::Full(envelope))
        } else {
            self.queue.push_back(envelope);
            Ok(())
        }
    }

    /// One attempt of a send that waits for room.
    pub fn poll_send(&mut self, envelope: Envelope<M>) -> (poll: SendPoll<M>)
        requires
            old(self).inv(),
        ensures
            final(self).inv(),
            final(self)@ == old(self)@.send(envelope),
            poll is Sent <==> old(self)@.accepts(),
            old(self)@.closed ==> poll == SendPoll::Closed(SendError(envelope)),
            !old(self)@.closed && !old(self)@.accepts() ==> poll == SendPoll::Pending(envelope),
    {
        match self.try_send(envelope) {
            Ok(()) => SendPoll::Sent,
            Err(TrySendError::Full(envelope)) => SendPoll::Pending(envelope),
            Err(TrySendError::Closed(envelope)) => SendPoll::Closed(SendError(envelope)),
        }
    }

    /// Takes the oldest queued envelope. An empty mailbox reports `Closed`
    /// if it is closed and `Empty` otherwise.
    pub fn try_recv(&mut self) -> (result: Result<Envelope<M>, TryRecvError>)
        requires
            old(self).inv(),
        ensures
            final(self).inv(),
            final(self)@ == old(self)@.recv(),
            result == old(self)@.recv_result(),
    {
        match self.queue.pop_front() {
            Some(envelope) => {
                assert(self.queue@ =~= old(self).queue@.drop_first());
                Ok(envelope)
            },
            None => {
                if self.closed {
                    Err(TryRecvError::Closed)
                } else {
                    Err(TryRecvError::Empty)
                }
            },
        }
    }

    /// One attempt of a receive that waits for an envelope. It is finished
    /// exactly when the mailbox is closed and drained.
    pub fn poll_recv(&mut self) -> (poll: RecvPoll<M>)
        requires
            old(self).inv(),
        ensures
            final(self).inv(),
            final(self)@ == old(self)@.recv(),
            poll == old(self)@.recv_poll(),
    {
        match self.try_recv() {
            Ok(envelope) => RecvPoll::Ready(envelope),
            Err(TryRecvError::Closed) => RecvPoll::Finished,
            Err(TryRecvError::Empty) => RecvPoll::Pending,
        }
    }

    /// Closes the mailbox and says whether this call closed it. Queued
    /// envelopes stay. The caller wakes whoever waits on the mailbox.
    pub fn close(&mut self) -> (newly_closed: bool)
        requires
            old(self).inv(),
        ensures
            final(self).inv(),
            final(self)@ == old(self)@.close(),
            newly_closed == !old(self)@.closed,
    {
        let newly_closed = !self.closed;
        self.closed = true;
        newly_closed
    }

    pub fn is_closed(&self) -> (closed: bool)
        ensures
            closed == self@.closed,
    {
        self.closed
    }

    pub fn len(&self) -> (len: usize)
        ensures
            len == self@.queue.len(),
    {
        self.queue.len()
    }

    pub fn is_empty(&self) -> (empty: bool)
        ensures
            empty == (self@.queue.len() == 0),
    {
        self.queue.len() == 0
    }

    pub fn is_full(&self) -> (full: bool)
        ensures
            full == (self@.queue.len() >= self@.capacity),
    {
        self.queue.len() >= self.capacity
    }

    pub fn capacity(&self) -> (capacity: usize)
        ensures
            capacity == self@.capacity,
    {
        self.capacity
    }
}

} // verus!
