//! When a failed actor is started again.
//!
//! The delay before a restart starts at 50 ms and doubles with every failure
//! up to 10 s. Each delay is spread by up to a fifth to either side, by a
//! random number that the caller supplies. A child that has stayed `Normal`
//! for 30 s starts over from 50 ms.

use vstd::prelude::*;
use crate::actor::ActorStatusKind;

verus! {

/// The first delay, in milliseconds.
pub const BACKOFF_START: u64 = 50;

/// The largest delay before the spread, in milliseconds.
pub const BACKOFF_CAP: u64 = 10_000;

/// How long a child has to stay `Normal` for its delay to start over.
pub const STABLE_AFTER: u64 = 30_000;

/// The widest spread to either side of a delay: a fifth, rounded down.
pub open spec fn spread(base: u64) -> int {
    base as int / 5
}

/// The delay `base`, moved by `entropy` to one of the `2 * spread + 1`
/// values from `base - spread` to `base + spread`.
pub open spec fn jittered(base: u64, entropy: u64) -> int {
    base - spread(base) + entropy as int % (2 * spread(base) + 1)
}

/// The delay that follows `base`: twice as long, up to the cap.
pub open spec fn doubled(base: u64) -> u64 {
    if 2 * base >= BACKOFF_CAP {
        BACKOFF_CAP
    } else {
        (2 * base) as u64
    }
}

/// The delay before the spread after `failures` failures in a row.
pub open spec fn base_after(failures: nat) -> u64
    decreases failures,
{
    if failures == 0 {
        BACKOFF_START
    } else {
        doubled(base_after((failures - 1) as nat))
    }
}

/// A spread delay is within a fifth of its base.
pub proof fn lemma_jitter_within_fifth(base: u64, entropy: u64)
    ensures
        base - spread(base) <= jittered(base, entropy) <= base + spread(base),
        4 * base <= 5 * jittered(base, entropy) <= 6 * base,
{
}

/// The delays 50, 100, 200, ... reach the cap with the eighth failure and
/// stay there.
pub proof fn lemma_base_sequence(failures: nat)
    ensures
        BACKOFF_START <= base_after(failures) <= BACKOFF_CAP,
        failures >= 8 ==> base_after(failures) == BACKOFF_CAP,
        base_after(0) == 50,
        base_after(1) == 100,
        base_after(7) == 6400,
    decreases failures,
{
    reveal_with_fuel(base_after, 9);
    if failures > 8 {
        lemma_base_sequence((failures - 1) as nat);
    }
}

/// The mathematical state of a backoff.
pub struct BackoffModel {
    /// The next delay before the spread.
    pub base: u64,
    /// Since when the child has been `Normal` without a break, if it is.
    pub stable_since: Option<u64>,
}

impl BackoffModel {
    pub open spec fn wf(self) -> bool {
        BACKOFF_START <= self.base <= BACKOFF_CAP
    }

    /// Whether the child has stayed `Normal` long enough by `now`.
    pub open spec fn is_stable(self, now: u64) -> bool {
        self.stable_since matches Some(since) && now >= since && now - since >= STABLE_AFTER
    }

    /// The base of the delay for a failure at `now`.
    pub open spec fn due_base(self, now: u64) -> u64 {
        if self.is_stable(now) {
            BACKOFF_START
        } else {
            self.base
        }
    }

    /// The state after the child was seen with status `kind` at `now`.
    pub open spec fn observe(self, kind: ActorStatusKind, now: u64) -> BackoffModel {
        if kind is Normal {
            if self.stable_since is None {
                BackoffModel { stable_since: Some(now), ..self }
            } else {
                self
            }
        } else {
            BackoffModel { stable_since: None, ..self }
        }
    }

    /// The state after a failure at `now`.
    pub open spec fn fail(self, now: u64) -> BackoffModel {
        BackoffModel { base: doubled(self.due_base(now)), stable_since: None }
    }
}

/// The restart delays of one child.
#[derive(Clone, Copy, Debug)]
pub struct Backoff {
    base: u64,
    stable_since: Option<u64>,
}

impl View for Backoff {
    type V = BackoffModel;

    closed spec fn view(&self) -> BackoffModel {
        BackoffModel { base: self.base, stable_since: self.stable_since }
    }
}

impl Backoff {
    /// Holds of every backoff that this module hands out.
    pub open spec fn inv(&self) -> bool {
        self@.wf()
    }

    /// The backoff of a child that has not failed yet.
    pub fn new() -> (backoff: Backoff)
        ensures
            backoff.inv(),
            backoff@ == (BackoffModel { base: BACKOFF_START, stable_since: None }),
    {
        Backoff { base: BACKOFF_START, stable_since: None }
    }

    /// Notes the status that the child has at `now`.
    pub fn observe(&mut self, kind: ActorStatusKind, now: u64)
        requires
            old(self).inv(),
        ensures
            final(self).inv(),
            final(self)@ == old(self)@.observe(kind, now),
    {
        match kind {
            ActorStatusKind::Normal => {
                if self.stable_since.is_none() {
                    self.stable_since = Some(now);
                }
            },
            _ => {
                self.stable_since = None;
            },
        }
    }

    /// Notes a failure at `now` and returns the delay before the restart:
    /// the due base, spread by `entropy`. The next base is twice the due
    /// one, up to the cap.
    pub fn fail(&mut self, now: u64, entropy: u64) -> (delay: u64)
        requires
            old(self).inv(),
        ensures
            final(self).inv(),
            final(self)@ == old(self)@.fail(now),
            delay == jittered(old(self)@.due_base(now), entropy),
    {
        let stable = match self.stable_since {
            Some(since) => now >= since && now - since >= STABLE_AFTER,
            None => false,
        };
        let base: u64 = if stable {
            BACKOFF_START
        } else {
            self.base
        };
        let spread: u64 = base / 5;
        let delay: u64 = base - spread + entropy % (2 * spread + 1);
        self.base = if 2 * base >= BACKOFF_CAP {
            BACKOFF_CAP
        } else {
            2 * base
        };
        self.stable_since = None;
        delay
    }

    pub fn base(&self) -> (base: u64)
        ensures
            base == self@.base,
    {
        self.base
    }
}

} // verus!
