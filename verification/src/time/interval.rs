//! A periodic timer.
//!
//! Ticks lie on the grid that starts when the period is set: a tick fires
//! from its deadline on, and firing moves the deadline to the first grid point
//! after the instant of firing. Ticks that a slow owner missed are thereby
//! folded into one.

use vstd::prelude::*;
use crate::addr::Addr;
use crate::envelope::{Envelope, MessageKind};
use crate::source::{Source, SourcePoll};

verus! {

/// The mathematical state of an interval.
pub struct IntervalModel {
    /// The distance between two ticks. Zero until it is set.
    pub period: u64,
    /// The instant from which the next tick fires; `None` while stopped.
    pub deadline: Option<u64>,
}

/// The first instant after `now` on the grid through `deadline` with step
/// `period`.
pub open spec fn next_on_grid(deadline: u64, period: u64, now: u64) -> int {
    now - (now - deadline) % (period as int) + period
}

impl IntervalModel {
    /// Whether a poll at `now` fires.
    pub open spec fn fires(self, now: u64) -> bool {
        self.period > 0 && self.deadline is Some && now >= self.deadline->0
    }

    /// The state after a poll at `now`. Firing moves the deadline on; if the
    /// next deadline is beyond the end of time, the interval stops.
    pub open spec fn poll(self, now: u64) -> IntervalModel {
        if self.fires(now) {
            let next = next_on_grid(self.deadline->0, self.period, now);
            IntervalModel {
                deadline: if next <= u64::MAX {
                    Some(next as u64)
                } else {
                    None
                },
                ..self
            }
        } else {
            self
        }
    }

    /// The state after setting the period at the instant `now`. A new period
    /// restarts the grid at `now`; the period it already has changes nothing.
    /// Period zero stops the interval, and so does a first deadline beyond
    /// the end of time.
    pub open spec fn set_period(self, now: u64, period: u64) -> IntervalModel {
        if period == self.period {
            self
        } else {
            IntervalModel {
                period,
                deadline: if period > 0 && now + period <= u64::MAX {
                    Some((now + period) as u64)
                } else {
                    None
                },
            }
        }
    }

    /// The instants, among the polls of a history, at which a tick fired.
    pub open spec fn ticks(self, polls: Seq<u64>) -> Seq<u64>
        decreases polls.len(),
    {
        if polls.len() == 0 {
            Seq::empty()
        } else {
            (if self.fires(polls.first()) {
                seq![polls.first()]
            } else {
                Seq::empty()
            }) + self.poll(polls.first()).ticks(polls.drop_first())
        }
    }
}

/// The next grid point is after `now` and at least one period after the
/// deadline that was due.
pub proof fn lemma_next_on_grid(deadline: u64, period: u64, now: u64)
    requires
        period > 0,
        now >= deadline,
    ensures
        next_on_grid(deadline, period, now) > now,
        next_on_grid(deadline, period, now) >= deadline + period,
        next_on_grid(deadline, period, now) <= now + period,
        (next_on_grid(deadline, period, now) - deadline) % (period as int) == 0,
{
    let gap = now - deadline;
    let step = period as int;
    vstd::arithmetic::div_mod::lemma_fundamental_div_mod(gap, step);
    vstd::arithmetic::div_mod::lemma_mod_bound(gap, step);
    assert(gap % step <= gap) by {
        vstd::arithmetic::div_mod::lemma_mod_decreases(gap as nat, step as nat);
    }
    let whole = gap / step + 1;
    assert(next_on_grid(deadline, period, now) - deadline == step * whole) by (nonlinear_arith)
        requires
            next_on_grid(deadline, period, now) - deadline == gap - gap % step + step,
            gap == step * (gap / step) + gap % step,
            whole == gap / step + 1,
    ;
    vstd::arithmetic::div_mod::lemma_mod_multiples_basic(whole, step);
    assert(step * whole == whole * step) by (nonlinear_arith);
}

/// No tick is queued behind another: right after a tick fired at `now`, a
/// second poll at that instant yields nothing, however many periods were
/// missed.
pub proof fn lemma_missed_ticks_coalesce(interval: IntervalModel, now: u64)
    requires
        interval.fires(now),
    ensures
        !interval.poll(now).fires(now),
        interval.poll(now).period == interval.period,
{
    lemma_next_on_grid(interval.deadline->0, interval.period, now);
}

/// No negative drift: in any history of polls, the tick with index `k`
/// (counting from zero) fires no earlier than `k` periods after the deadline
/// that the interval had at the start.
pub proof fn lemma_tick_not_early(interval: IntervalModel, polls: Seq<u64>, k: int)
    requires
        interval.deadline is Some,
        0 <= k < interval.ticks(polls).len(),
    ensures
        interval.ticks(polls)[k] >= interval.deadline->0 + k * interval.period,
    decreases polls.len(),
{
    let now = polls.first();
    let next = interval.poll(now);
    let rest = polls.drop_first();
    if interval.fires(now) {
        lemma_next_on_grid(interval.deadline->0, interval.period, now);
        assert(interval.ticks(polls) =~= seq![now] + next.ticks(rest));
        if k == 0 {
            assert(interval.ticks(polls)[0] == now);
            assert(0 * interval.period == 0);
        } else {
            assert(interval.ticks(polls)[k] == next.ticks(rest)[k - 1]);
            if next.deadline is Some {
                lemma_tick_not_early(next, rest, k - 1);
                assert(next.deadline->0 + (k - 1) * interval.period >= interval.deadline->0 + k
                    * interval.period) by (nonlinear_arith)
                    requires
                        next.deadline->0 >= interval.deadline->0 + interval.period,
                ;
            } else {
                lemma_stopped_never_ticks(next, rest);
            }
        }
    } else {
        assert(interval.ticks(polls) =~= next.ticks(rest));
        lemma_tick_not_early(next, rest, k);
    }
}

/// A stopped interval yields no tick.
pub proof fn lemma_stopped_never_ticks(interval: IntervalModel, polls: Seq<u64>)
    requires
        interval.deadline is None || interval.period == 0,
    ensures
        interval.ticks(polls) == Seq::<u64>::empty(),
    decreases polls.len(),
{
    if polls.len() > 0 {
        lemma_stopped_never_ticks(interval.poll(polls.first()), polls.drop_first());
        assert(interval.ticks(polls) =~= Seq::<u64>::empty());
    }
}

/// With period `period` set at the instant `start`, the `k`-th tick
/// (counting from one) fires no earlier than `start + k * period`.
pub proof fn lemma_kth_tick_not_before_kth_period(
    start: u64,
    period: u64,
    polls: Seq<u64>,
    k: int,
)
    requires
        period > 0,
        start + period <= u64::MAX,
        1 <= k <= (IntervalModel { period: 0, deadline: None }).set_period(
            start,
            period,
        ).ticks(polls).len(),
    ensures
        (IntervalModel { period: 0, deadline: None }).set_period(
            start,
            period,
        ).ticks(polls)[k - 1] >= start + k * period,
{
    let interval = (IntervalModel { period: 0, deadline: None }).set_period(
        start,
        period,
    );
    lemma_tick_not_early(interval, polls, k - 1);
    assert(start + period + (k - 1) * period == start + k * period) by (nonlinear_arith);
}

/// An interval can be polled if its factory can be called.
pub proof fn lemma_interval_ready<M, F: Fn() -> M>(interval: Interval<F>)
    requires
        call_requires(interval.factory(), ()),
    ensures
        Source::<M>::ready(&interval),
{
}

/// What a poll of an interval is like.
pub proof fn lemma_interval_polled<M, F: Fn() -> M>(
    interval: Interval<F>,
    now: u64,
    after: Interval<F>,
    poll: SourcePoll<M>,
)
    requires
        Source::<M>::polled(&interval, now, &after, poll),
    ensures
        after.factory() == interval.factory(),
        after@ == interval@.poll(now),
        interval@.fires(now) ==> poll is Ready && call_ensures(
            interval.factory(),
            (),
            poll->0.message,
        ),
        !interval@.fires(now) ==> poll is Pending,
{
}

/// Tells its owner periodically that a period has passed, by envelopes that
/// the message factory fills. A new interval is stopped until its period is
/// set.
pub struct Interval<F> {
    message_factory: F,
    period: u64,
    deadline: Option<u64>,
}

impl<F> View for Interval<F> {
    type V = IntervalModel;

    closed spec fn view(&self) -> IntervalModel {
        IntervalModel { period: self.period, deadline: self.deadline }
    }
}

impl<F> Interval<F> {
    /// The factory that fills the envelopes.
    pub closed spec fn factory(&self) -> F {
        self.message_factory
    }

    /// A stopped interval.
    pub fn new(f: F) -> (interval: Interval<F>)
        ensures
            interval.factory() == f,
            interval@ == (IntervalModel { period: 0, deadline: None }),
    {
        Interval { message_factory: f, period: 0, deadline: None }
    }

    /// Sets the distance between ticks at the instant `now`.
    pub fn set_period(&mut self, now: u64, period: u64)
        ensures
            final(self).factory() == old(self).factory(),
            final(self)@ == old(self)@.set_period(now, period),
    {
        if period != self.period {
            self.period = period;
            self.deadline = if period > 0 {
                now.checked_add(period)
            } else {
                None
            };
        }
    }

    pub fn period(&self) -> (period: u64)
        ensures
            period == self@.period,
    {
        self.period
    }

    pub fn deadline(&self) -> (deadline: Option<u64>)
        ensures
            deadline == self@.deadline,
    {
        self.deadline
    }
}

impl<M, F: Fn() -> M> Source<M> for Interval<F> {
    /// The factory can be called.
    open spec fn ready(&self) -> bool {
        call_requires(self.factory(), ())
    }

    /// A poll fires if the period is set and `now` has reached the
    /// deadline: the envelope is regular, comes from nobody and holds a
    /// message of the factory. Otherwise it yields nothing. An interval is
    /// never finished.
    open spec fn polled(&self, now: u64, after: &Self, poll: SourcePoll<M>) -> bool {
        &&& after.factory() == self.factory()
        &&& after@ == self@.poll(now)
        &&& self@.fires(now) ==> (poll matches SourcePoll::Ready(envelope) && envelope.kind == (
        MessageKind::Regular { sender: Addr::spec_null() }) && envelope.created_at == now
            && call_ensures(self.factory(), (), envelope.message))
        &&& !self@.fires(now) ==> poll is Pending
    }

    /// Fires if the period is set and `now` has reached the deadline: the
    /// envelope is regular, comes from nobody and holds a message of the
    /// factory. Otherwise nothing happens. An interval is never finished.
    fn poll_recv(&mut self, now: u64) -> (poll: SourcePoll<M>)
        ensures
            final(self).factory() == old(self).factory(),
            final(self)@ == old(self)@.poll(now),
            old(self)@.fires(now) ==> (poll matches SourcePoll::Ready(envelope) && envelope.kind == (
            MessageKind::Regular { sender: Addr::spec_null() }) && envelope.created_at == now
                && call_ensures(old(self).factory(), (), envelope.message)),
            !old(self)@.fires(now) ==> poll is Pending,
    {
        let deadline = match self.deadline {
            Some(deadline) => deadline,
            None => now,
        };
        if self.period == 0 || self.deadline.is_none() || now < deadline {
            return SourcePoll::Pending;
        }
        let behind: u64 = (now - deadline) % self.period;
        proof {
            lemma_next_on_grid(deadline, self.period, now);
        }
        self.deadline = (now - behind).checked_add(self.period);
        let message = (self.message_factory)();
        let kind = MessageKind::Regular { sender: Addr::null() };
        SourcePoll::Ready(Envelope::new(message, kind, now))
    }
}

} // verus!
