//! Side channels that feed an actor's receive loop next to its mailbox.

use vstd::prelude::*;
use crate::envelope::Envelope;

verus! {

/// What a source yields at one attempt.
#[derive(Debug)]
pub enum SourcePoll<M> {
    /// An envelope.
    Ready(Envelope<M>),
    /// Nothing now; there may be something later.
    Pending,
    /// Nothing, now or ever: the source is to be detached.
    Finished,
}

/// A producer of envelopes that is polled, never waited for.
pub trait Source<M> {
    /// What must hold of the source for it to be polled. Polling keeps it.
    /// Unless a source says otherwise, nothing is asked of it.
    open spec fn ready(&self) -> bool {
        true
    }

    /// What holds of a poll of this source at the instant `now` that yields
    /// `poll` and leaves the source as `after`. Unless a source says
    /// otherwise, nothing is known of its polls.
    open spec fn polled(&self, now: u64, after: &Self, poll: SourcePoll<M>) -> bool {
        true
    }

    /// One attempt to get an envelope at the instant `now`.
    fn poll_recv(&mut self, now: u64) -> (poll: SourcePoll<M>)
        requires
            old(self).ready(),
        ensures
            final(self).ready(),
            old(self).polled(now, final(self), poll),
    ;
}

} // verus!
