//! Correlation of outstanding requests with their responses.
//!
//! Every request that an actor sends gets a slot in the actor's table. A slot
//! starts `Open` and leaves that state at most once: to `Fulfilled` when the
//! response arrives, or to `Ignored` when the response token is dropped.
//! Awaiting a settled slot clears it.

use vstd::prelude::*;
use std::collections::BTreeMap;
use crate::addr::Addr;
use crate::envelope::{Envelope, MessageKind};
use crate::errors::RequestError;

verus! {

broadcast use {vstd::std_specs::btree::group_btree_axioms, vstd::laws_cmp::group_laws_cmp};

/// The state of one outstanding request.
#[derive(Debug)]
pub enum Slot<M> {
    /// No response yet.
    Open,
    /// The response, not yet taken by the requester.
    Fulfilled(Envelope<M>),
    /// The response token was dropped without a reply.
    Ignored,
}

/// What the holder of a response token does with it.
pub enum TokenUse<M> {
    Fulfill(Envelope<M>),
    DropToken,
}

impl<M> Slot<M> {
    /// The slot after one use of a token for it: only an open slot changes.
    pub open spec fn settle(self, token_use: TokenUse<M>) -> Slot<M> {
        match self {
            Slot::Open => match token_use {
                TokenUse::Fulfill(response) => Slot::Fulfilled(response),
                TokenUse::DropToken => Slot::Ignored,
            },
            _ => self,
        }
    }

    /// The slot after a history of token uses.
    pub open spec fn settle_all(self, uses: Seq<TokenUse<M>>) -> Slot<M>
        decreases uses.len(),
    {
        if uses.len() == 0 {
            self
        } else {
            self.settle(uses.first()).settle_all(uses.drop_first())
        }
    }
}

/// A settled slot never changes again, whatever is tried on it.
pub proof fn lemma_settled_slot_is_final<M>(slot: Slot<M>, uses: Seq<TokenUse<M>>)
    requires
        !(slot is Open),
    ensures
        slot.settle_all(uses) == slot,
    decreases uses.len(),
{
    if uses.len() > 0 {
        lemma_settled_slot_is_final(slot.settle(uses.first()), uses.drop_first());
    }
}

/// At most one response per request: of any history of token uses on an open
/// slot only the first one counts.
pub proof fn lemma_first_use_decides<M>(uses: Seq<TokenUse<M>>)
    requires
        uses.len() > 0,
    ensures
        Slot::<M>::Open.settle_all(uses) == Slot::<M>::Open.settle(uses.first()),
{
    lemma_settled_slot_is_final(Slot::<M>::Open.settle(uses.first()), uses.drop_first());
}

/// The mathematical state of a request table.
pub struct RequestTableModel<M> {
    pub owner: Addr,
    pub slots: Map<u64, Slot<M>>,
    pub next_id: u64,
}

impl<M> RequestTableModel<M> {
    /// Identifiers are handed out in increasing order and never twice.
    pub open spec fn wf(self) -> bool {
        forall|id: u64| #[trigger] self.slots.contains_key(id) ==> id < self.next_id
    }

    /// The identifier that the next request gets, while there is one left.
    pub open spec fn fresh_id(self) -> Option<u64> {
        if self.next_id == u64::MAX {
            None
        } else {
            Some(self.next_id)
        }
    }

    /// The table after a request was registered: it has a new open slot,
    /// unless the identifiers have run out.
    pub open spec fn allocate(self) -> Self {
        if self.next_id == u64::MAX {
            self
        } else {
            RequestTableModel {
                slots: self.slots.insert(self.next_id, Slot::Open),
                next_id: (self.next_id + 1) as u64,
                ..self
            }
        }
    }

    /// The table without slot `id`.
    pub open spec fn cancel(self, id: u64) -> Self {
        RequestTableModel { slots: self.slots.remove(id), ..self }
    }

    /// What the responder learns when it answers request `id`: nothing
    /// listens unless the slot is open.
    pub open spec fn fulfill_result(self, id: u64) -> Result<(), RequestError> {
        if self.is_open(id) {
            Ok(())
        } else {
            Err(RequestError::Ignored)
        }
    }

    /// The table after one use of the token for `id`.
    pub open spec fn settle(self, id: u64, token_use: TokenUse<M>) -> Self {
        if self.slots.contains_key(id) {
            RequestTableModel { slots: self.slots.insert(id, self.slots[id].settle(token_use)), ..self }
        } else {
            self
        }
    }

    /// Settling keeps the owner, the identifiers in use and well-formedness.
    pub proof fn lemma_settle_wf(self, id: u64, token_use: TokenUse<M>)
        requires
            self.wf(),
        ensures
            self.settle(id, token_use).wf(),
            self.settle(id, token_use).owner == self.owner,
            self.settle(id, token_use).slots.dom() == self.slots.dom(),
    {
        assert(self.settle(id, token_use).slots.dom() =~= self.slots.dom());
    }

    /// Whether a use of the token for `id` takes effect.
    pub open spec fn is_open(self, id: u64) -> bool {
        self.slots.contains_key(id) && self.slots[id] is Open
    }

    /// The table after the requester looked at slot `id`: a settled slot is
    /// cleared, and so is an open one if the requester is closed.
    pub open spec fn after_poll(self, id: u64, requester_closed: bool) -> Self {
        if self.slots.contains_key(id) && (requester_closed || !(self.slots[id] is Open)) {
            RequestTableModel { slots: self.slots.remove(id), ..self }
        } else {
            self
        }
    }

    /// What the requester sees when it looks at slot `id`.
    pub open spec fn poll_result(self, id: u64, requester_closed: bool) -> RequestPoll<M> {
        if !self.slots.contains_key(id) {
            RequestPoll::Unknown
        } else {
            match self.slots[id] {
                Slot::Fulfilled(response) => RequestPoll::Ready(Ok(response)),
                Slot::Ignored => RequestPoll::Ready(Err(RequestError::Ignored)),
                Slot::Open => if requester_closed {
                    RequestPoll::Ready(Err(RequestError::Closed))
                } else {
                    RequestPoll::Pending
                },
            }
        }
    }
}

/// What awaiting one request yields at one attempt.
#[derive(Debug)]
pub enum RequestPoll<M> {
    /// The request is settled: its response, or why there is none.
    Ready(Result<Envelope<M>, RequestError>),
    /// Still open.
    Pending,
    /// The table has no such request: it was never made, or is already
    /// cleared.
    Unknown,
}

/// The outstanding requests of one actor.
#[derive(Debug)]
pub struct RequestTable<M> {
    owner: Addr,
    slots: BTreeMap<u64, Slot<M>>,
    next_id: u64,
}

impl<M> View for RequestTable<M> {
    type V = RequestTableModel<M>;

    closed spec fn view(&self) -> RequestTableModel<M> {
        RequestTableModel { owner: self.owner, slots: self.slots@, next_id: self.next_id }
    }
}

impl<M> RequestTable<M> {
    /// Holds of every table that this module hands out.
    pub open spec fn inv(&self) -> bool {
        self@.wf()
    }

    /// The empty table of the actor at `owner`.
    pub fn new(owner: Addr) -> (table: RequestTable<M>)
        ensures
            table.inv(),
            table@.owner == owner,
            table@.slots == Map::<u64, Slot<M>>::empty(),
            table@.next_id == 0,
    {
        RequestTable { owner, slots: BTreeMap::new(), next_id: 0 }
    }

    pub fn owner(&self) -> (owner: Addr)
        ensures
            owner == self@.owner,
    {
        self.owner
    }

    /// Registers a new open slot and returns its identifier, which no slot
    /// of this table had before. Fails only when the identifiers have run
    /// out; the table is then unchanged.
    pub fn allocate(&mut self) -> (id: Option<u64>)
        requires
            old(self).inv(),
        ensures
            final(self).inv(),
            final(self)@ == old(self)@.allocate(),
            id == old(self)@.fresh_id(),
            id matches Some(id) ==> !old(self)@.slots.contains_key(id),
    {
        assert(self@.slots == self.slots@);
        if self.next_id == u64::MAX {
            None
        } else {
            let id = self.next_id;
            self.slots.insert(id, Slot::Open);
            self.next_id = id + 1;
            Some(id)
        }
    }

    /// The kind of the envelope that carries the request with slot `id`.
    pub fn request_kind(&self, id: u64) -> (kind: MessageKind)
        ensures
            kind == (MessageKind::Request { sender: self@.owner, correlation_id: id }),
    {
        MessageKind::Request { sender: self.owner, correlation_id: id }
    }

    /// Applies one token use to slot `id`; says whether it took effect.
    fn use_token(&mut self, id: u64, token_use: TokenUse<M>) -> (effective: bool)
        requires
            old(self).inv(),
        ensures
            final(self).inv(),
            final(self)@ == old(self)@.settle(id, token_use),
            effective == old(self)@.is_open(id),
    {
        assert(self@.slots == self.slots@);
        match self.slots.remove(&id) {
            None => {
                assert(self@.slots =~= old(self)@.slots);
                false
            },
            Some(Slot::Open) => {
                let settled = match token_use {
                    TokenUse::Fulfill(response) => Slot::Fulfilled(response),
                    TokenUse::DropToken => Slot::Ignored,
                };
                self.slots.insert(id, settled);
                assert(self@.slots =~= old(self)@.slots.insert(id, settled));
                true
            },
            Some(slot) => {
                self.slots.insert(id, slot);
                assert(self@.slots =~= old(self)@.slots);
                assert(old(self)@.slots.insert(id, slot) =~= old(self)@.slots);
                false
            },
        }
    }

    /// Stores `response` in slot `id` if that slot is open. Otherwise the
    /// table is unchanged and the responder learns that nobody listens.
    /// On success the caller wakes the requester.
    pub fn fulfill(&mut self, id: u64, response: Envelope<M>) -> (result: Result<
        (),
        RequestError,
    >)
        requires
            old(self).inv(),
        ensures
            final(self).inv(),
            final(self)@ == old(self)@.settle(id, TokenUse::Fulfill(response)),
            result == old(self)@.fulfill_result(id),
    {
        if self.use_token(id, TokenUse::Fulfill(response)) {
            Ok(())
        } else {
            Err(RequestError::Ignored)
        }
    }

    /// Marks slot `id` ignored if it is open; says whether it was, in which
    /// case the caller wakes the requester.
    pub fn drop_token(&mut self, id: u64) -> (ignored: bool)
        requires
            old(self).inv(),
        ensures
            final(self).inv(),
            final(self)@ == old(self)@.settle(id, TokenUse::DropToken),
            ignored == old(self)@.is_open(id),
    {
        self.use_token(id, TokenUse::DropToken)
    }

    /// One attempt of awaiting request `id`. A settled slot is handed out and
    /// cleared. An open slot stays, unless the requester is closed: then it is
    /// cleared and the request ends as `Closed`.
    pub fn poll(&mut self, id: u64, requester_closed: bool) -> (poll: RequestPoll<M>)
        requires
            old(self).inv(),
        ensures
            final(self).inv(),
            final(self)@ == old(self)@.after_poll(id, requester_closed),
            poll == old(self)@.poll_result(id, requester_closed),
    {
        match self.slots.remove(&id) {
            None => {
                assert(self@.slots =~= old(self)@.slots);
                RequestPoll::Unknown
            },
            Some(Slot::Fulfilled(response)) => RequestPoll::Ready(Ok(response)),
            Some(Slot::Ignored) => RequestPoll::Ready(Err(RequestError::Ignored)),
            Some(Slot::Open) => {
                if requester_closed {
                    RequestPoll::Ready(Err(RequestError::Closed))
                } else {
                    self.slots.insert(id, Slot::Open);
                    assert(self@.slots =~= old(self)@.slots);
                    RequestPoll::Pending
                }
            },
        }
    }

    /// Gives up request `id`: its slot is removed, so a late response finds
    /// nobody. Says whether there was such a slot.
    pub fn cancel(&mut self, id: u64) -> (removed: bool)
        requires
            old(self).inv(),
        ensures
            final(self).inv(),
            final(self)@ == old(self)@.cancel(id),
            removed == old(self)@.slots.contains_key(id),
    {
        assert(self@.slots == self.slots@);
        self.slots.remove(&id).is_some()
    }

    /// The number of requests that are open or settled but not yet taken.
    pub fn len(&self) -> (len: usize)
        ensures
            len == self@.slots.len(),
    {
        self.slots.len()
    }
}

} // verus!
