//! Awaiting the responses to one request that went to several destinations.
//!
//! Every destination has its own slot in the requester's table. A fan-out
//! keeps the slots that are still open and the outcomes that are in, in the
//! order in which they came in. A destination that could not be reached is
//! an outcome from the start.

use vstd::prelude::*;
use crate::envelope::Envelope;
use crate::errors::RequestError;
use crate::request_table::{RequestPoll, RequestTable, RequestTableModel};

verus! {

/// What one destination answered, or why it did not.
pub type Resolved<M> = Result<Envelope<M>, RequestError>;

/// The mathematical state of a fan-out.
pub struct FanoutModel<M> {
    /// The slots that are still awaited, in the order of sending.
    pub pending: Seq<u64>,
    /// The outcomes that are in, in the order of completion.
    pub outcomes: Seq<Resolved<M>>,
}

/// What one look at a slot adds to the outcomes: a slot that the table does
/// not know counts as ignored, an open one adds nothing.
pub open spec fn settled<M>(poll: RequestPoll<M>) -> Seq<Resolved<M>> {
    match poll {
        RequestPoll::Ready(outcome) => seq![outcome],
        RequestPoll::Pending => Seq::empty(),
        RequestPoll::Unknown => seq![Err(RequestError::Ignored)],
    }
}

/// What one look at a slot leaves to await.
pub open spec fn awaited<M>(id: u64, poll: RequestPoll<M>) -> Seq<u64> {
    match poll {
        RequestPoll::Pending => seq![id],
        _ => Seq::empty(),
    }
}

impl<M> FanoutModel<M> {
    /// The number of destinations.
    pub open spec fn expected(self) -> nat {
        self.pending.len() + self.outcomes.len()
    }

    /// The fan-out with one more destination that the request was sent to,
    /// awaited in slot `id`.
    pub open spec fn expect(self, id: u64) -> Self {
        FanoutModel { pending: self.pending.push(id), ..self }
    }

    /// The fan-out with one more destination that the request could not be
    /// sent to.
    pub open spec fn fail(self, error: RequestError) -> Self {
        FanoutModel { outcomes: self.outcomes.push(Err(error)), ..self }
    }

    /// The outcomes once the requester is gone: those that are in, then
    /// `Closed` for every destination that is still awaited.
    pub open spec fn closed_outcomes(self) -> Seq<Resolved<M>> {
        self.outcomes + Seq::new(self.pending.len(), |i: int| Err(RequestError::Closed))
    }

    /// The table after every slot of `ids` was looked at, in order.
    pub open spec fn table_after(
        table: RequestTableModel<M>,
        ids: Seq<u64>,
        requester_closed: bool,
    ) -> RequestTableModel<M>
        decreases ids.len(),
    {
        if ids.len() == 0 {
            table
        } else {
            Self::table_after(table, ids.drop_last(), requester_closed).after_poll(
                ids.last(),
                requester_closed,
            )
        }
    }

    /// What looking at the last slot of `ids`, after the others, yields.
    pub open spec fn last_poll(
        table: RequestTableModel<M>,
        ids: Seq<u64>,
        requester_closed: bool,
    ) -> RequestPoll<M>
        recommends
            ids.len() > 0,
    {
        Self::table_after(table, ids.drop_last(), requester_closed).poll_result(
            ids.last(),
            requester_closed,
        )
    }

    /// The outcomes that looking at every slot of `ids`, in order, brings in.
    pub open spec fn settled_by(
        table: RequestTableModel<M>,
        ids: Seq<u64>,
        requester_closed: bool,
    ) -> Seq<Resolved<M>>
        decreases ids.len(),
    {
        if ids.len() == 0 {
            Seq::empty()
        } else {
            Self::settled_by(table, ids.drop_last(), requester_closed) + settled(
                Self::last_poll(table, ids, requester_closed),
            )
        }
    }

    /// The slots of `ids` that are still open after each was looked at.
    pub open spec fn awaited_after(
        table: RequestTableModel<M>,
        ids: Seq<u64>,
        requester_closed: bool,
    ) -> Seq<u64>
        decreases ids.len(),
    {
        if ids.len() == 0 {
            Seq::empty()
        } else {
            Self::awaited_after(table, ids.drop_last(), requester_closed) + awaited(
                ids.last(),
                Self::last_poll(table, ids, requester_closed),
            )
        }
    }

    /// The fan-out after one sweep over its pending slots.
    pub open spec fn sweep(self, table: RequestTableModel<M>, requester_closed: bool) -> Self {
        FanoutModel {
            pending: Self::awaited_after(table, self.pending, requester_closed),
            outcomes: self.outcomes + Self::settled_by(table, self.pending, requester_closed),
        }
    }
}

/// Every slot that a sweep looks at is then either still awaited or has
/// brought in exactly one outcome: the number of destinations stays.
pub proof fn lemma_sweep_keeps_count<M>(
    table: RequestTableModel<M>,
    ids: Seq<u64>,
    requester_closed: bool,
)
    ensures
        FanoutModel::<M>::awaited_after(table, ids, requester_closed).len()
            + FanoutModel::<M>::settled_by(table, ids, requester_closed).len() == ids.len(),
        requester_closed ==> FanoutModel::<M>::awaited_after(table, ids, requester_closed).len()
            == 0,
    decreases ids.len(),
{
    if ids.len() > 0 {
        lemma_sweep_keeps_count(table, ids.drop_last(), requester_closed);
    }
}

/// A sweep keeps the owner of the table and its well-formedness.
pub proof fn lemma_table_after<M>(
    table: RequestTableModel<M>,
    ids: Seq<u64>,
    requester_closed: bool,
)
    requires
        table.wf(),
    ensures
        FanoutModel::<M>::table_after(table, ids, requester_closed).wf(),
        FanoutModel::<M>::table_after(table, ids, requester_closed).owner == table.owner,
        FanoutModel::<M>::table_after(table, ids, requester_closed).next_id == table.next_id,
    decreases ids.len(),
{
    if ids.len() > 0 {
        lemma_table_after(table, ids.drop_last(), requester_closed);
    }
}

/// The first response among `outcomes`, if there is one.
pub open spec fn first_response<M>(outcomes: Seq<Resolved<M>>) -> Option<int> {
    if exists|i: int| 0 <= i < outcomes.len() && (#[trigger] outcomes[i]) is Ok {
        Some(
            choose|i: int|
                0 <= i < outcomes.len() && (#[trigger] outcomes[i]) is Ok && forall|j: int|
                    0 <= j < i ==> !((#[trigger] outcomes[j]) is Ok),
        )
    } else {
        None
    }
}

/// The table without the slots of `ids`.
pub open spec fn cancel_each<M>(table: RequestTableModel<M>, ids: Seq<u64>) -> RequestTableModel<M>
    decreases ids.len(),
{
    if ids.len() == 0 {
        table
    } else {
        cancel_each(table, ids.drop_last()).cancel(ids.last())
    }
}

/// What awaiting any response yields once the outcomes are `outcomes` and
/// nothing is pending: the first response, else the first failure, else
/// `Closed` if there was no destination at all.
pub open spec fn any_of<M>(outcomes: Seq<Resolved<M>>) -> Resolved<M> {
    match first_response(outcomes) {
        Some(i) => outcomes[i],
        None => if outcomes.len() > 0 {
            outcomes[0]
        } else {
            Err(RequestError::Closed)
        },
    }
}

/// A request to N destinations has N outcomes: a sweep keeps the number of
/// destinations, and once the requester is closed nothing stays pending.
pub proof fn lemma_fanout_count<M>(
    fanout: FanoutModel<M>,
    table: RequestTableModel<M>,
    requester_closed: bool,
)
    ensures
        fanout.sweep(table, requester_closed).expected() == fanout.expected(),
        requester_closed ==> fanout.sweep(table, requester_closed).outcomes.len()
            == fanout.expected(),
{
    lemma_sweep_keeps_count(table, fanout.pending, requester_closed);
}

/// The responses, and the failures, to one request that went to several
/// destinations.
#[derive(Debug)]
pub struct Fanout<M> {
    pending: Vec<u64>,
    outcomes: Vec<Resolved<M>>,
}

impl<M> View for Fanout<M> {
    type V = FanoutModel<M>;

    closed spec fn view(&self) -> FanoutModel<M> {
        FanoutModel { pending: self.pending@, outcomes: self.outcomes@ }
    }
}

impl<M> Fanout<M> {
    /// A fan-out to no destination yet.
    pub fn new() -> (fanout: Fanout<M>)
        ensures
            fanout@ == (FanoutModel::<M> { pending: Seq::empty(), outcomes: Seq::empty() }),
    {
        Fanout { pending: Vec::new(), outcomes: Vec::new() }
    }

    /// Notes a destination that the request was sent to, with the slot that
    /// its response fills.
    pub fn expect(&mut self, id: u64)
        ensures
            final(self)@ == old(self)@.expect(id),
    {
        self.pending.push(id);
    }

    /// Notes a destination that the request could not be sent to.
    pub fn fail(&mut self, error: RequestError)
        ensures
            final(self)@ == old(self)@.fail(error),
    {
        self.outcomes.push(Err(error));
    }

    /// The number of destinations.
    pub fn expected(&self) -> (count: usize)
        requires
            self@.expected() <= usize::MAX,
        ensures
            count == self@.expected(),
    {
        self.pending.len() + self.outcomes.len()
    }

    /// Whether every destination has an outcome.
    pub fn is_complete(&self) -> (complete: bool)
        ensures
            complete == (self@.pending.len() == 0),
    {
        self.pending.len() == 0
    }

    /// Looks once at every pending slot of `table`, in the order of sending:
    /// a settled slot is cleared and its outcome noted, an open one stays
    /// pending, unless the requester is closed, which ends it as `Closed`.
    pub fn sweep(&mut self, table: &mut RequestTable<M>, requester_closed: bool)
        requires
            old(table).inv(),
        ensures
            final(table).inv(),
            final(table)@ == FanoutModel::<M>::table_after(
                old(table)@,
                old(self)@.pending,
                requester_closed,
            ),
            final(self)@ == old(self)@.sweep(old(table)@, requester_closed),
    {
        let mut ids: Vec<u64> = Vec::new();
        std::mem::swap(&mut ids, &mut self.pending);
        let mut i: usize = 0;
        proof {
            assert(ids@.take(0) =~= Seq::<u64>::empty());
            assert(self.outcomes@ =~= old(self).outcomes@ + Seq::<Resolved<M>>::empty());
        }
        while i < ids.len()
            invariant
                i <= ids.len(),
                ids@ == old(self)@.pending,
                table.inv(),
                table@ == FanoutModel::<M>::table_after(
                    old(table)@,
                    ids@.take(i as int),
                    requester_closed,
                ),
                self.pending@ == FanoutModel::<M>::awaited_after(
                    old(table)@,
                    ids@.take(i as int),
                    requester_closed,
                ),
                self.outcomes@ == old(self)@.outcomes + FanoutModel::<M>::settled_by(
                    old(table)@,
                    ids@.take(i as int),
                    requester_closed,
                ),
            decreases ids.len() - i,
        {
            let id = ids[i];
            let ghost prefix = ids@.take(i as int + 1);
            proof {
                assert(prefix.drop_last() =~= ids@.take(i as int));
                assert(prefix.last() == id);
            }
            match table.poll(id, requester_closed) {
                RequestPoll::Ready(outcome) => {
                    self.outcomes.push(outcome);
                },
                RequestPoll::Pending => {
                    self.pending.push(id);
                },
                RequestPoll::Unknown => {
                    self.outcomes.push(Err(RequestError::Ignored));
                },
            }
            proof {
                assert(self.pending@ =~= FanoutModel::<M>::awaited_after(
                    old(table)@,
                    prefix,
                    requester_closed,
                ));
                assert(self.outcomes@ =~= old(self)@.outcomes + FanoutModel::<M>::settled_by(
                    old(table)@,
                    prefix,
                    requester_closed,
                ));
            }
            i += 1;
        }
        proof {
            assert(ids@.take(ids@.len() as int) =~= ids@);
        }
    }

    /// Ends the fan-out of a requester that is gone: every destination that
    /// is still awaited ends as `Closed`, and the outcomes are handed out, one
    /// per destination.
    pub fn close(&mut self) -> (all: Vec<Resolved<M>>)
        ensures
            all@ == old(self)@.closed_outcomes(),
            all@.len() == old(self)@.expected(),
            final(self)@ == (FanoutModel::<M> { pending: Seq::empty(), outcomes: Seq::empty() }),
    {
        let mut pending: Vec<u64> = Vec::new();
        std::mem::swap(&mut pending, &mut self.pending);
        let mut all: Vec<Resolved<M>> = Vec::new();
        std::mem::swap(&mut all, &mut self.outcomes);
        let mut i: usize = 0;
        while i < pending.len()
            invariant
                i <= pending.len(),
                pending@ == old(self)@.pending,
                all@ == old(self)@.outcomes + Seq::new(
                    i as nat,
                    |k: int| Err::<Envelope<M>, _>(RequestError::Closed),
                ),
            decreases pending.len() - i,
        {
            all.push(Err(RequestError::Closed));
            assert(all@ =~= old(self)@.outcomes + Seq::new(
                (i + 1) as nat,
                |k: int| Err::<Envelope<M>, _>(RequestError::Closed),
            ));
            i += 1;
        }
        all
    }

    /// The place of the first response among the outcomes that are in.
    fn find_response(&self) -> (found: Option<usize>)
        ensures
            match found {
                Some(i) => first_response(self@.outcomes) == Some(i as int) && i
                    < self@.outcomes.len() && self@.outcomes[i as int] is Ok && any_of(
                    self@.outcomes,
                ) is Ok,
                None => first_response(self@.outcomes) is None && (self@.outcomes.len() > 0
                    ==> !(any_of(self@.outcomes) is Ok)),
            },
    {
        let mut i: usize = 0;
        while i < self.outcomes.len()
            invariant
                i <= self.outcomes.len(),
                forall|j: int| 0 <= j < i ==> !((#[trigger] self.outcomes@[j]) is Ok),
            decreases self.outcomes.len() - i,
        {
            if self.outcomes[i].is_ok() {
                proof {
                    let chosen = first_response(self@.outcomes)->0;
                    assert(self@.outcomes[i as int] is Ok);
                    if chosen < i {
                        assert(!(self.outcomes@[chosen] is Ok));
                    }
                    if i < chosen {
                        assert(!(self@.outcomes[i as int] is Ok));
                    }
                }
                return Some(i);
            }
            i += 1;
        }
        proof {
            if self@.outcomes.len() > 0 {
                assert(!(self.outcomes@[0] is Ok));
            }
        }
        None
    }

    /// One attempt of awaiting any response: sweeps once, and yields the
    /// first response that is in; the slots that are still pending are then
    /// given up. Without a response it yields the first failure once every
    /// destination has an outcome, and `Closed` if there was no destination.
    /// A fan-out that has yielded is empty.
    pub fn poll_any(&mut self, table: &mut RequestTable<M>, requester_closed: bool) -> (any: Option<
        Resolved<M>,
    >)
        requires
            old(table).inv(),
        ensures
            final(table).inv(),
            match any {
                Some(outcome) => {
                    &&& outcome == any_of(
                        old(self)@.sweep(old(table)@, requester_closed).outcomes,
                    )
                    &&& outcome is Ok || old(self)@.sweep(
                        old(table)@,
                        requester_closed,
                    ).pending.len() == 0
                    &&& final(self)@ == (FanoutModel::<M> {
                        pending: Seq::empty(),
                        outcomes: Seq::empty(),
                    })
                    &&& final(table)@ == cancel_each(
                        FanoutModel::<M>::table_after(
                            old(table)@,
                            old(self)@.pending,
                            requester_closed,
                        ),
                        old(self)@.sweep(old(table)@, requester_closed).pending,
                    )
                },
                None => {
                    &&& final(self)@ == old(self)@.sweep(old(table)@, requester_closed)
                    &&& final(self)@.pending.len() > 0
                    &&& first_response(final(self)@.outcomes) is None
                    &&& final(table)@ == FanoutModel::<M>::table_after(
                        old(table)@,
                        old(self)@.pending,
                        requester_closed,
                    )
                },
            },
    {
        self.sweep(table, requester_closed);
        let ghost swept = self@;
        let ghost polled = table@;
        let found = self.find_response();
        if found.is_none() && self.pending.len() > 0 {
            return None;
        }
        self.give_up(table);
        Some(self.take_any(found))
    }

    /// Gives up every pending slot.
    fn give_up(&mut self, table: &mut RequestTable<M>)
        requires
            old(table).inv(),
        ensures
            final(table).inv(),
            final(table)@ == cancel_each(old(table)@, old(self)@.pending),
            final(self)@ == (FanoutModel { pending: Seq::empty(), ..old(self)@ }),
    {
        let mut pending: Vec<u64> = Vec::new();
        std::mem::swap(&mut pending, &mut self.pending);
        let mut k: usize = 0;
        proof {
            assert(pending@.take(0) =~= Seq::<u64>::empty());
        }
        while k < pending.len()
            invariant
                k <= pending.len(),
                table.inv(),
                table@ == cancel_each(old(table)@, pending@.take(k as int)),
            decreases pending.len() - k,
        {
            table.cancel(pending[k]);
            proof {
                let prefix = pending@.take(k as int + 1);
                assert(prefix.drop_last() =~= pending@.take(k as int));
                assert(prefix.last() == pending@[k as int]);
            }
            k += 1;
        }
        proof {
            assert(pending@.take(pending@.len() as int) =~= pending@);
        }
    }

    /// Hands out the outcome that awaiting any response yields, given the
    /// place of the first response, and forgets the others.
    fn take_any(&mut self, found: Option<usize>) -> (outcome: Resolved<M>)
        requires
            match found {
                Some(i) => first_response(old(self)@.outcomes) == Some(i as int) && i < old(
                    self,
                )@.outcomes.len(),
                None => first_response(old(self)@.outcomes) is None,
            },
        ensures
            outcome == any_of(old(self)@.outcomes),
            final(self)@ == (FanoutModel { outcomes: Seq::empty(), ..old(self)@ }),
    {
        let mut outcomes: Vec<Resolved<M>> = Vec::new();
        std::mem::swap(&mut outcomes, &mut self.outcomes);
        match found {
            Some(i) => outcomes.swap_remove(i),
            None => {
                if outcomes.len() > 0 {
                    outcomes.swap_remove(0)
                } else {
                    Err(RequestError::Closed)
                }
            },
        }
    }

    /// One attempt of awaiting all responses: sweeps once, and if every
    /// destination then has an outcome, hands the outcomes out, one per
    /// destination, in the order of completion.
    pub fn poll_all(&mut self, table: &mut RequestTable<M>, requester_closed: bool) -> (all: Option<
        Vec<Resolved<M>>,
    >)
        requires
            old(table).inv(),
        ensures
            final(table).inv(),
            final(table)@ == FanoutModel::<M>::table_after(
                old(table)@,
                old(self)@.pending,
                requester_closed,
            ),
            match all {
                Some(outcomes) => outcomes@ == old(self)@.sweep(
                    old(table)@,
                    requester_closed,
                ).outcomes && outcomes@.len() == old(self)@.expected() && final(self)@
                    == (FanoutModel::<M> { pending: Seq::empty(), outcomes: Seq::empty() }),
                None => final(self)@ == old(self)@.sweep(old(table)@, requester_closed)
                    && final(self)@.pending.len() > 0,
            },
            requester_closed ==> all is Some,
    {
        self.sweep(table, requester_closed);
        proof {
            lemma_fanout_count(old(self)@, old(table)@, requester_closed);
            lemma_sweep_keeps_count(old(table)@, old(self)@.pending, requester_closed);
        }
        if self.pending.len() == 0 {
            let mut outcomes: Vec<Resolved<M>> = Vec::new();
            std::mem::swap(&mut outcomes, &mut self.outcomes);
            Some(outcomes)
        } else {
            None
        }
    }
}

} // verus!
