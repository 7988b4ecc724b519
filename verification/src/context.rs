//! Receiving from the mailbox and from attached sources as one stream.
//!
//! Every attached source has a slot. The sources are asked first, in a circle
//! that starts behind the source that delivered last, so that no source that
//! is always ready starves the others. A source that is finished is detached:
//! its slot stays empty. The mailbox is asked only when every source was
//! asked and none delivered.

use vstd::prelude::*;
use crate::actor::Actor;
use crate::envelope::Envelope;
use crate::mailbox::RecvPoll;
use crate::source::{Source, SourcePoll};

verus! {

/// The sources that are attached to an actor's receive loop.
pub struct Attached<S> {
    sources: Vec<Option<S>>,
    cursor: usize,
}

/// What one attempt of a composite receive yields, and where it is from.
pub struct Received<M> {
    pub poll: RecvPoll<M>,
    /// The slot of the source that delivered; `None` if the mailbox was
    /// asked.
    pub source: Option<usize>,
}

/// Whether slot `j` is asked before slot `delivered` in the circle that
/// starts at `cursor`.
pub open spec fn asked_before(cursor: int, delivered: int, j: int) -> bool {
    if cursor <= delivered {
        cursor <= j < delivered
    } else {
        j >= cursor || j < delivered
    }
}

/// How many of the first `upto` slots hold a source.
pub open spec fn attached_among<S>(slots: Seq<Option<S>>, upto: int) -> nat
    decreases upto,
{
    if upto <= 0 {
        0
    } else {
        attached_among(slots, upto - 1) + (if slots[upto - 1] is Some {
            1nat
        } else {
            0nat
        })
    }
}

impl<S> Attached<S> {
    /// The slots, in the order of attaching: a source, or nothing where a
    /// source was detached.
    pub closed spec fn sources(&self) -> Seq<Option<S>> {
        self.sources@
    }

    /// The slot that is asked first.
    pub closed spec fn cursor(&self) -> nat {
        self.cursor as nat
    }

    /// The cursor points at a slot, if there is one.
    pub open spec fn inv(&self) -> bool {
        self.cursor() < self.sources().len() || self.cursor() == 0
    }

    /// Whether every attached source can be polled.
    pub open spec fn all_ready<M>(&self) -> bool where S: Source<M> {
        forall|j: int|
            0 <= j < self.sources().len() ==> ((#[trigger] self.sources()[j]) matches Some(source)
                ==> source.ready())
    }

    /// Whether a slot that held `before` and holds `after` was asked at
    /// `now` and did not deliver: a source that had nothing stays, one that is
    /// finished is gone, and an empty slot stays empty.
    pub open spec fn passed<M>(before: Option<S>, after: Option<S>, now: u64) -> bool where
        S: Source<M>,
     {
        match before {
            None => after is None,
            Some(source) => match after {
                Some(left) => source.polled(now, &left, SourcePoll::<M>::Pending),
                None => exists|left: S| source.polled(now, &left, SourcePoll::<M>::Finished),
            },
        }
    }

    /// Whether a slot that held `before` and holds `after` was asked at
    /// `now` and delivered `envelope`.
    pub open spec fn delivered<M>(
        before: Option<S>,
        after: Option<S>,
        now: u64,
        envelope: Envelope<M>,
    ) -> bool where S: Source<M> {
        before matches Some(source) && after matches Some(left) && source.polled(
            now,
            &left,
            SourcePoll::Ready(envelope),
        )
    }

    /// The slot behind `index` in the circle of `len` slots.
    pub open spec fn spec_after(index: nat, len: nat) -> nat {
        if index + 1 >= len {
            0
        } else {
            index + 1
        }
    }

    /// Nothing attached.
    pub fn new() -> (attached: Attached<S>)
        ensures
            attached.inv(),
            attached.sources() == Seq::<Option<S>>::empty(),
            attached.cursor() == 0,
    {
        Attached { sources: Vec::new(), cursor: 0 }
    }

    /// Attaches `source` in a new slot behind the others.
    pub fn attach(&mut self, source: S)
        requires
            old(self).inv(),
        ensures
            final(self).inv(),
            final(self).sources() == old(self).sources().push(Some(source)),
            final(self).cursor() == old(self).cursor(),
    {
        self.sources.push(Some(source));
    }

    /// The number of attached sources.
    pub fn len(&self) -> (len: usize)
        ensures
            len == attached_among(self.sources(), self.sources().len() as int),
    {
        let mut len: usize = 0;
        let mut i: usize = 0;
        while i < self.sources.len()
            invariant
                i <= self.sources.len(),
                len <= i,
                len == attached_among(self.sources@, i as int),
            decreases self.sources.len() - i,
        {
            if self.sources[i].is_some() {
                len += 1;
            }
            i += 1;
        }
        len
    }

    /// Does what follows asking the source that was taken out of slot
    /// `index`: a source that yielded an envelope goes back to its slot and
    /// the envelope is delivered; a source that has nothing now goes back to
    /// its slot; a source that is finished stays out.
    pub fn settle<M>(&mut self, index: usize, source: S, poll: SourcePoll<M>) -> (yielded: Option<
        Envelope<M>,
    >)
        requires
            index < old(self).sources().len(),
        ensures
            final(self).cursor() == old(self).cursor(),
            match poll {
                SourcePoll::Ready(envelope) => yielded == Some(envelope) && final(self).sources()
                    == old(self).sources().update(index as int, Some(source)),
                SourcePoll::Pending => yielded is None && final(self).sources() == old(
                    self,
                ).sources().update(index as int, Some(source)),
                SourcePoll::Finished => yielded is None && final(self).sources() == old(
                    self,
                ).sources(),
            },
    {
        match poll {
            SourcePoll::Ready(envelope) => {
                self.sources.set(index, Some(source));
                Some(envelope)
            },
            SourcePoll::Pending => {
                self.sources.set(index, Some(source));
                None
            },
            SourcePoll::Finished => None,
        }
    }

    /// Asks the sources of the slots from `from` up to `to`, in order, until
    /// one delivers.
    fn scan<M>(&mut self, from: usize, to: usize, now: u64) -> (found: Option<
        (usize, Envelope<M>),
    >) where S: Source<M>
        requires
            from <= to <= old(self).sources().len(),
            old(self).all_ready::<M>(),
        ensures
            final(self).all_ready::<M>(),
            final(self).cursor() == old(self).cursor(),
            final(self).sources().len() == old(self).sources().len(),
            match found {
                Some((index, envelope)) => {
                    &&& from <= index < to
                    &&& Self::delivered(
                        old(self).sources()[index as int],
                        final(self).sources()[index as int],
                        now,
                        envelope,
                    )
                    &&& forall|j: int|
                        from <= j < index ==> Self::passed::<M>(
                            old(self).sources()[j],
                            #[trigger] final(self).sources()[j],
                            now,
                        )
                    &&& forall|j: int|
                        0 <= j < final(self).sources().len() && !(from <= j <= index)
                            ==> #[trigger] final(self).sources()[j] == old(self).sources()[j]
                },
                None => {
                    &&& forall|j: int|
                        from <= j < to ==> Self::passed::<M>(
                            old(self).sources()[j],
                            #[trigger] final(self).sources()[j],
                            now,
                        )
                    &&& forall|j: int|
                        0 <= j < final(self).sources().len() && !(from <= j < to)
                            ==> #[trigger] final(self).sources()[j] == old(self).sources()[j]
                },
            },
    {
        let mut i: usize = from;
        while i < to
            invariant
                from <= i <= to,
                to <= self.sources@.len(),
                self.sources@.len() == old(self).sources().len(),
                self.cursor == old(self).cursor,
                self.all_ready::<M>(),
                forall|j: int|
                    from <= j < i ==> Self::passed::<M>(
                        old(self).sources()[j],
                        #[trigger] self.sources@[j],
                        now,
                    ),
                forall|j: int|
                    0 <= j < self.sources@.len() && !(from <= j < i) ==> #[trigger] self.sources@[j]
                        == old(self).sources()[j],
            decreases to - i,
        {
            let ghost before = self.sources@;
            let mut slot: Option<S> = None;
            self.sources.set_and_swap(i, &mut slot);
            match slot {
                None => {
                    assert(self.sources@ =~= before);
                },
                Some(source) => {
                    let mut source = source;
                    let ghost asked = source;
                    assert(before[i as int] == Some(asked));
                    let poll = source.poll_recv(now);
                    let ghost left = source;
                    let ghost answer = poll;
                    match self.settle(i, source, poll) {
                        Some(envelope) => {
                            assert(answer == SourcePoll::Ready(envelope));
                            return Some((i, envelope));
                        },
                        None => {
                            assert(answer is Pending ==> self.sources@[i as int] == Some(left));
                            assert(answer is Finished ==> self.sources@[i as int] is None);
                        },
                    }
                },
            }
            i += 1;
        }
        None
    }

    /// One attempt of the composite receive at the instant `now`. The
    /// sources are asked in the circle that starts at the cursor, each at
    /// most once. The first envelope that a source yields is delivered, the
    /// actor is left alone, the sources behind it are not asked, and the
    /// cursor moves behind it. If every source was asked and none yielded an
    /// envelope, the mailbox of the actor is asked, as [`Actor::poll_recv`]
    /// does, and so the attempt is finished exactly when the mailbox is
    /// closed and drained. A source that is finished is detached.
    pub fn poll_recv<M>(&mut self, actor: &mut Actor<M>, now: u64) -> (received: Received<M>) where
        S: Source<M>,

        requires
            old(self).inv(),
            old(actor).inv(),
            old(self).all_ready::<M>(),
        ensures
            final(self).inv(),
            final(actor).inv(),
            final(self).all_ready::<M>(),
            final(self).sources().len() == old(self).sources().len(),
            match received.source {
                Some(index) => {
                    &&& index < old(self).sources().len()
                    &&& received.poll matches RecvPoll::Ready(envelope) && Self::delivered(
                        old(self).sources()[index as int],
                        final(self).sources()[index as int],
                        now,
                        envelope,
                    )
                    &&& final(actor)@ == old(actor)@
                    &&& final(self).cursor() == Self::spec_after(
                        index as nat,
                        old(self).sources().len(),
                    )
                    &&& forall|j: int|
                        0 <= j < old(self).sources().len() && j != index ==> (if asked_before(
                            old(self).cursor() as int,
                            index as int,
                            j,
                        ) {
                            Self::passed::<M>(
                                old(self).sources()[j],
                                #[trigger] final(self).sources()[j],
                                now,
                            )
                        } else {
                            final(self).sources()[j] == old(self).sources()[j]
                        })
                },
                None => {
                    &&& forall|j: int|
                        0 <= j < old(self).sources().len() ==> Self::passed::<M>(
                            old(self).sources()[j],
                            #[trigger] final(self).sources()[j],
                            now,
                        )
                    &&& final(self).cursor() == old(self).cursor()
                    &&& final(actor)@ == old(actor)@.recv()
                    &&& received.poll == old(actor)@.mailbox.recv_poll()
                },
            },
    {
        let len = self.sources.len();
        let start = self.cursor;
        let behind = self.scan(start, len, now);
        let ghost halfway = self.sources@;
        let found = match behind {
            Some(found) => Some(found),
            None => self.scan(0, start, now),
        };
        match found {
            Some((index, envelope)) => {
                self.cursor = if index + 1 >= len {
                    0
                } else {
                    index + 1
                };
                proof {
                    assert forall|j: int|
                        0 <= j < old(self).sources().len() && j != index implies (if asked_before(
                        start as int,
                        index as int,
                        j,
                    ) {
                        Self::passed::<M>(
                            old(self).sources()[j],
                            #[trigger] self.sources@[j],
                            now,
                        )
                    } else {
                        self.sources@[j] == old(self).sources()[j]
                    }) by {
                        if behind is None {
                            assert(self.sources@[j] == halfway[j] || halfway[j] == old(
                                self,
                            ).sources()[j]);
                        }
                    }
                }
                Received { poll: RecvPoll::Ready(envelope), source: Some(index) }
            },
            None => {
                proof {
                    assert forall|j: int| 0 <= j < old(self).sources().len() implies Self::passed::<
                        M,
                    >(old(self).sources()[j], #[trigger] self.sources@[j], now) by {
                        assert(self.sources@[j] == halfway[j] || halfway[j] == old(
                            self,
                        ).sources()[j]);
                    }
                }
                Received { poll: actor.poll_recv(), source: None }
            },
        }
    }
}

} // verus!
