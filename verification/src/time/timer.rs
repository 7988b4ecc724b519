//! A one-shot timer.

use vstd::prelude::*;
use crate::addr::Addr;
use crate::envelope::{Envelope, MessageKind};
use crate::source::{Source, SourcePoll};

verus! {

/// The mathematical state of a timer.
pub struct TimerModel {
    /// Whether the timer was armed and has not fired since.
    pub armed: bool,
    /// The instant from which an armed timer fires.
    pub deadline: u64,
}

impl TimerModel {
    /// Whether a poll at `now` fires.
    pub open spec fn fires(self, now: u64) -> bool {
        self.armed && now >= self.deadline
    }

    /// The state after a poll at `now`: firing disarms.
    pub open spec fn poll(self, now: u64) -> TimerModel {
        if self.fires(now) {
            TimerModel { armed: false, ..self }
        } else {
            self
        }
    }

    /// The state after arming for `deadline`.
    pub open spec fn reset(self, deadline: u64) -> TimerModel {
        TimerModel { armed: true, deadline }
    }

    /// How often a history of polls at the given instants fires.
    pub open spec fn fire_count(self, polls: Seq<u64>) -> nat
        decreases polls.len(),
    {
        if polls.len() == 0 {
            0
        } else {
            (if self.fires(polls.first()) {
                1nat
            } else {
                0nat
            }) + self.poll(polls.first()).fire_count(polls.drop_first())
        }
    }
}

/// The deadline of a timer armed at `now` for `duration`: the end of time
/// if the sum does not fit.
pub open spec fn deadline_after(now: u64, duration: u64) -> u64 {
    if now + duration > u64::MAX {
        u64::MAX
    } else {
        (now + duration) as u64
    }
}

/// A timer that is not armed never fires.
pub proof fn lemma_unarmed_never_fires(timer: TimerModel, polls: Seq<u64>)
    requires
        !timer.armed,
    ensures
        timer.fire_count(polls) == 0,
    decreases polls.len(),
{
    if polls.len() > 0 {
        lemma_unarmed_never_fires(timer.poll(polls.first()), polls.drop_first());
    }
}

/// An armed timer fires at most once, however often it is polled.
pub proof fn lemma_fires_at_most_once(timer: TimerModel, polls: Seq<u64>)
    ensures
        timer.fire_count(polls) <= 1,
    decreases polls.len(),
{
    if polls.len() > 0 {
        if timer.fires(polls.first()) {
            lemma_unarmed_never_fires(timer.poll(polls.first()), polls.drop_first());
        } else {
            lemma_fires_at_most_once(timer.poll(polls.first()), polls.drop_first());
        }
    }
}

/// An armed timer fires exactly once if it is polled at or after its
/// deadline.
pub proof fn lemma_fires_once_when_due(timer: TimerModel, polls: Seq<u64>, i: int)
    requires
        timer.armed,
        0 <= i < polls.len(),
        polls[i] >= timer.deadline,
    ensures
        timer.fire_count(polls) == 1,
    decreases polls.len(),
{
    if timer.fires(polls.first()) {
        lemma_unarmed_never_fires(timer.poll(polls.first()), polls.drop_first());
    } else {
        lemma_fires_once_when_due(timer.poll(polls.first()), polls.drop_first(), i - 1);
    }
}

/// A timer can be polled if its factory can be called.
pub proof fn lemma_timer_ready<M, F: Fn() -> M>(timer: Timer<F>)
    requires
        call_requires(timer.factory(), ()),
    ensures
        Source::<M>::ready(&timer),
{
}

/// What a poll of a timer is like.
pub proof fn lemma_timer_polled<M, F: Fn() -> M>(
    timer: Timer<F>,
    now: u64,
    after: Timer<F>,
    poll: SourcePoll<M>,
)
    requires
        Source::<M>::polled(&timer, now, &after, poll),
    ensures
        after.factory() == timer.factory(),
        after@ == timer@.poll(now),
        timer@.fires(now) ==> poll is Ready && call_ensures(timer.factory(), (), poll->0.message),
        !timer@.fires(now) ==> poll is Pending,
{
}

/// Tells its owner once that an instant has come, by an envelope that the
/// message factory fills. A new timer is stopped; `reset` and `sleep` arm it,
/// and it can be armed again at any time.
pub struct Timer<F> {
    message_factory: F,
    is_waiting: bool,
    deadline: u64,
}

impl<F> View for Timer<F> {
    type V = TimerModel;

    closed spec fn view(&self) -> TimerModel {
        TimerModel { armed: self.is_waiting, deadline: self.deadline }
    }
}

impl<F> Timer<F> {
    /// The factory that fills the envelopes.
    pub closed spec fn factory(&self) -> F {
        self.message_factory
    }

    /// A stopped timer.
    pub fn new(f: F) -> (timer: Timer<F>)
        ensures
            timer.factory() == f,
            timer@ == (TimerModel { armed: false, deadline: 0 }),
    {
        Timer { message_factory: f, is_waiting: false, deadline: 0 }
    }

    /// Arms the timer to fire from `deadline` on.
    pub fn reset(&mut self, deadline: u64)
        ensures
            final(self).factory() == old(self).factory(),
            final(self)@ == old(self)@.reset(deadline),
    {
        self.is_waiting = true;
        self.deadline = deadline;
    }

    /// Arms the timer to fire once `duration` has passed since `now`.
    pub fn sleep(&mut self, now: u64, duration: u64)
        ensures
            final(self).factory() == old(self).factory(),
            final(self)@ == old(self)@.reset(deadline_after(now, duration)),
    {
        self.is_waiting = true;
        self.deadline = now.saturating_add(duration);
    }

    pub fn is_armed(&self) -> (armed: bool)
        ensures
            armed == self@.armed,
    {
        self.is_waiting
    }

    pub fn deadline(&self) -> (deadline: u64)
        ensures
            deadline == self@.deadline,
    {
        self.deadline
    }
}

impl<M, F: Fn() -> M> Source<M> for Timer<F> {
    /// The factory can be called.
    open spec fn ready(&self) -> bool {
        call_requires(self.factory(), ())
    }

    /// A poll fires if the timer is armed and `now` has reached the
    /// deadline: the envelope is regular, comes from nobody and holds a
    /// message of the factory. Otherwise it yields nothing. A timer is never
    /// finished.
    open spec fn polled(&self, now: u64, after: &Self, poll: SourcePoll<M>) -> bool {
        &&& after.factory() == self.factory()
        &&& after@ == self@.poll(now)
        &&& self@.fires(now) ==> (poll matches SourcePoll::Ready(envelope) && envelope.kind == (
        MessageKind::Regular { sender: Addr::spec_null() }) && envelope.created_at == now
            && call_ensures(self.factory(), (), envelope.message))
        &&& !self@.fires(now) ==> poll is Pending
    }

    /// Fires if the timer is armed and `now` has reached the deadline: the
    /// envelope is regular, comes from nobody and holds a message of the
    /// factory. Otherwise nothing happens. A timer is never finished.
    fn poll_recv(&mut self, now: u64) -> (poll: SourcePoll<M>)
        ensures
            final(self).factory() == old(self).factory(),
            final(self)@ == old(self)@.poll(now),
            old(self)@.fires(now) ==> (poll matches SourcePoll::Ready(envelope) && envelope.kind == (
            MessageKind::Regular { sender: Addr::spec_null() }) && envelope.created_at == now
                && call_ensures(old(self).factory(), (), envelope.message)),
            !old(self)@.fires(now) ==> poll is Pending,
    {
        if self.is_waiting && now >= self.deadline {
            self.is_waiting = false;
            let message = (self.message_factory)();
            let kind = MessageKind::Regular { sender: Addr::null() };
            SourcePoll::Ready(Envelope::new(message, kind, now))
        } else {
            SourcePoll::Pending
        }
    }
}

} // verus!
