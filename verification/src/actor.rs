//! One actor: its mailbox, its request table and its status.
//!
//! | from             | to           | trigger                          |
//! |------------------|--------------|----------------------------------|
//! | (created)        | Initializing |                                  |
//! | Initializing     | Normal       | the first envelope is received   |
//! | Normal           | Alarming     | `set_status`                     |
//! | Alarming         | Normal       | `set_status`                     |
//! | any non-terminal | Failed       | the actor's body failed          |
//! | any non-terminal | Terminated   | the body returned, or was closed |
//!
//! Setting the kind an actor already has replaces the details. Every other
//! change is refused. Entering `Failed` or `Terminated` closes the mailbox.

use vstd::prelude::*;
use crate::addr::Addr;
use crate::envelope::Envelope;
use crate::errors::{RequestError, SendError, TryRecvError, TrySendError};
use crate::mailbox::{Mailbox, MailboxModel, RecvPoll, SendPoll, DEFAULT_CAPACITY};
use crate::request::{lemma_table_after, Fanout, FanoutModel, Resolved};
use crate::request_table::{RequestPoll, RequestTable, RequestTableModel, Slot, TokenUse};

verus! {

/// The kinds of status an actor can be in.
#[derive(Clone, Copy, PartialEq, Eq, Structural, Debug)]
pub enum ActorStatusKind {
    Normal,
    Initializing,
    Alarming,
    Failed,
    Terminated,
}

/// How loudly a status change is reported.
#[derive(Clone, Copy, PartialEq, Eq, Structural, Debug)]
pub enum Severity {
    Info,
    Error,
}

impl ActorStatusKind {
    /// `Failed` and `Terminated`: an actor never leaves them.
    pub open spec fn spec_is_terminal(self) -> bool {
        self is Failed || self is Terminated
    }

    /// Whether an actor whose kind is `self` may take the kind `next`.
    pub open spec fn spec_allows(self, next: ActorStatusKind) -> bool {
        ||| self == next
        ||| self is Initializing && next is Normal
        ||| self is Normal && next is Alarming
        ||| self is Alarming && next is Normal
        ||| !self.spec_is_terminal() && next.spec_is_terminal()
    }

    /// `Alarming` and `Failed` are reported as errors, the others as
    /// information.
    pub open spec fn spec_severity(self) -> Severity {
        if self is Alarming || self is Failed {
            Severity::Error
        } else {
            Severity::Info
        }
    }

    /// The name of the kind, as it appears in a status text.
    pub open spec fn spec_name(self) -> Seq<char> {
        match self {
            ActorStatusKind::Normal => "Normal"@,
            ActorStatusKind::Initializing => "Initializing"@,
            ActorStatusKind::Alarming => "Alarming"@,
            ActorStatusKind::Failed => "Failed"@,
            ActorStatusKind::Terminated => "Terminated"@,
        }
    }

    #[verifier::when_used_as_spec(spec_is_terminal)]
    pub fn is_terminal(self) -> (terminal: bool)
        ensures
            terminal == self.spec_is_terminal(),
    {
        match self {
            ActorStatusKind::Failed => true,
            ActorStatusKind::Terminated => true,
            _ => false,
        }
    }

    #[verifier::when_used_as_spec(spec_allows)]
    pub fn allows(self, next: ActorStatusKind) -> (allowed: bool)
        ensures
            allowed == self.spec_allows(next),
    {
        if self == next {
            true
        } else {
            match (self, next) {
                (ActorStatusKind::Initializing, ActorStatusKind::Normal) => true,
                (ActorStatusKind::Normal, ActorStatusKind::Alarming) => true,
                (ActorStatusKind::Alarming, ActorStatusKind::Normal) => true,
                _ => !self.is_terminal() && next.is_terminal(),
            }
        }
    }

    #[verifier::when_used_as_spec(spec_severity)]
    pub fn severity(self) -> (severity: Severity)
        ensures
            severity == self.spec_severity(),
    {
        match self {
            ActorStatusKind::Alarming => Severity::Error,
            ActorStatusKind::Failed => Severity::Error,
            _ => Severity::Info,
        }
    }

    pub fn name(self) -> (name: &'static str)
        ensures
            name@ == self.spec_name(),
    {
        match self {
            ActorStatusKind::Normal => "Normal",
            ActorStatusKind::Initializing => "Initializing",
            ActorStatusKind::Alarming => "Alarming",
            ActorStatusKind::Failed => "Failed",
            ActorStatusKind::Terminated => "Terminated",
        }
    }
}

/// The mathematical value of a status: its kind and its details.
pub struct StatusModel {
    pub kind: ActorStatusKind,
    pub details: Option<Seq<char>>,
}

impl StatusModel {
    /// The status of an actor that is in `self` and is asked to take `next`.
    pub open spec fn apply(self, next: StatusModel) -> StatusModel {
        if self.kind.spec_allows(next.kind) {
            next
        } else {
            self
        }
    }

    /// The status after a history of requested statuses.
    pub open spec fn apply_all(self, history: Seq<StatusModel>) -> StatusModel
        decreases history.len(),
    {
        if history.len() == 0 {
            self
        } else {
            self.apply(history.first()).apply_all(history.drop_first())
        }
    }

    /// The text of a status: the name of the kind, then, if there are
    /// details, a colon, a space and the details.
    pub open spec fn text(self) -> Seq<char> {
        match self.details {
            Some(details) => self.kind.spec_name() + ": "@ + details,
            None => self.kind.spec_name(),
        }
    }
}

/// Every change of kind is one of the table's transitions.
pub proof fn lemma_status_change_follows_table(status: StatusModel, next: StatusModel)
    ensures
        status.apply(next).kind == status.kind || status.kind.spec_allows(
            status.apply(next).kind,
        ),
        status.kind.spec_is_terminal() ==> status.apply(next).kind == status.kind,
{
}

/// `Failed` and `Terminated` are absorbing: no history of requested statuses
/// changes the kind of an actor that is in one of them.
pub proof fn lemma_terminal_is_absorbing(status: StatusModel, history: Seq<StatusModel>)
    requires
        status.kind.spec_is_terminal(),
    ensures
        status.apply_all(history).kind == status.kind,
    decreases history.len(),
{
    if history.len() > 0 {
        lemma_terminal_is_absorbing(status.apply(history.first()), history.drop_first());
    }
}

/// Setting the same status twice is the same as setting it once.
pub proof fn lemma_set_status_idempotent(status: StatusModel, next: StatusModel)
    ensures
        status.apply(next).apply(next) == status.apply(next),
{
}

/// Setting a status of the kind that the actor already has replaces the
/// details and nothing else.
pub proof fn lemma_details_replace(status: StatusModel, details: Option<Seq<char>>)
    ensures
        status.apply(StatusModel { kind: status.kind, details }) == (StatusModel {
            kind: status.kind,
            details,
        }),
{
}

/// Appends `tail` to `text`. Wraps `String::push_str`, which is documented
/// to append the given slice onto the end of the string.
#[verifier::external_body]
fn push_str(text: &mut String, tail: &str)
    ensures
        final(text)@ == old(text)@ + tail@,
{
    text.push_str(tail)
}

/// The status of an actor: a kind and optional human-readable details.
#[derive(Clone, Debug)]
pub struct ActorStatus {
    kind: ActorStatusKind,
    details: Option<String>,
}

impl View for ActorStatus {
    type V = StatusModel;

    closed spec fn view(&self) -> StatusModel {
        StatusModel {
            kind: self.kind,
            details: match self.details {
                Some(details) => Some(details@),
                None => None,
            },
        }
    }
}

impl ActorStatus {
    /// A status of the given kind without details.
    pub fn new(kind: ActorStatusKind) -> (status: ActorStatus)
        ensures
            status@ == (StatusModel { kind, details: None }),
    {
        ActorStatus { kind, details: None }
    }

    pub fn normal() -> (status: ActorStatus)
        ensures
            status@ == (StatusModel { kind: ActorStatusKind::Normal, details: None }),
    {
        ActorStatus::new(ActorStatusKind::Normal)
    }

    pub fn initializing() -> (status: ActorStatus)
        ensures
            status@ == (StatusModel { kind: ActorStatusKind::Initializing, details: None }),
    {
        ActorStatus::new(ActorStatusKind::Initializing)
    }

    pub fn alarming() -> (status: ActorStatus)
        ensures
            status@ == (StatusModel { kind: ActorStatusKind::Alarming, details: None }),
    {
        ActorStatus::new(ActorStatusKind::Alarming)
    }

    pub fn failed() -> (status: ActorStatus)
        ensures
            status@ == (StatusModel { kind: ActorStatusKind::Failed, details: None }),
    {
        ActorStatus::new(ActorStatusKind::Failed)
    }

    pub fn terminated() -> (status: ActorStatus)
        ensures
            status@ == (StatusModel { kind: ActorStatusKind::Terminated, details: None }),
    {
        ActorStatus::new(ActorStatusKind::Terminated)
    }

    /// The same kind with `details` in place of any earlier details.
    pub fn with_details(&self, details: &str) -> (status: ActorStatus)
        ensures
            status@ == (StatusModel { kind: self@.kind, details: Some(details@) }),
    {
        ActorStatus { kind: self.kind, details: Some(details.to_owned()) }
    }

    pub fn kind(&self) -> (kind: ActorStatusKind)
        ensures
            kind == self@.kind,
    {
        self.kind
    }

    pub fn details(&self) -> (details: Option<&str>)
        ensures
            match details {
                Some(text) => self@.details == Some(text@),
                None => self@.details is None,
            },
    {
        match &self.details {
            Some(details) => Some(details.as_str()),
            None => None,
        }
    }

    pub fn is_failed(&self) -> (failed: bool)
        ensures
            failed == (self@.kind is Failed),
    {
        self.kind == ActorStatusKind::Failed
    }

    /// The status as text, such as `Alarming: disk is full`.
    pub fn to_text(&self) -> (text: String)
        ensures
            text@ == self@.text(),
    {
        let mut text = self.kind.name().to_owned();
        match &self.details {
            Some(details) => {
                push_str(&mut text, ": ");
                push_str(&mut text, details.as_str());
            },
            None => {},
        }
        text
    }
}

/// The mathematical state of an actor.
pub struct ActorModel<M> {
    pub status: StatusModel,
    pub mailbox: MailboxModel<M>,
    pub requests: RequestTableModel<M>,
}

impl<M> ActorModel<M> {
    /// The address of the actor: the owner of its request table.
    pub open spec fn addr(self) -> Addr {
        self.requests.owner
    }

    /// A terminal actor has a closed mailbox.
    pub open spec fn wf(self) -> bool {
        &&& self.mailbox.wf()
        &&& self.requests.wf()
        &&& self.status.kind.spec_is_terminal() ==> self.mailbox.closed
    }

    /// Whether the actor is closed: its status is `Failed` or `Terminated`.
    pub open spec fn is_closed(self) -> bool {
        self.status.kind.spec_is_terminal()
    }

    /// Whether sends are refused as `Closed`, and open requests end as
    /// `Closed`: the actor is closed, or its mailbox was closed to make it
    /// stop.
    pub open spec fn refuses_sends(self) -> bool {
        self.status.kind.spec_is_terminal() || self.mailbox.closed
    }

    /// The actor with its request table replaced.
    pub open spec fn with_requests(self, requests: RequestTableModel<M>) -> Self {
        ActorModel { requests, ..self }
    }

    /// The actor with its mailbox closed.
    pub open spec fn close(self) -> Self {
        ActorModel { mailbox: self.mailbox.close(), ..self }
    }

    /// The actor after `envelope` was offered to it.
    pub open spec fn send(self, envelope: Envelope<M>) -> Self {
        ActorModel { mailbox: self.mailbox.send(envelope), ..self }
    }

    /// What offering `envelope` without waiting returns.
    pub open spec fn send_result(self, envelope: Envelope<M>) -> Result<
        (),
        TrySendError<Envelope<M>>,
    > {
        if self.refuses_sends() {
            Err(TrySendError::Closed(envelope))
        } else {
            self.mailbox.send_result(envelope)
        }
    }

    /// What asking the actor to take the status `next` reports: the
    /// severity of the change, or nothing if the change is refused.
    pub open spec fn status_report(self, next: StatusModel) -> Option<Severity> {
        if self.status.kind.spec_allows(next.kind) {
            Some(next.kind.spec_severity())
        } else {
            None
        }
    }

    /// The actor after it was asked to take the status `next`.
    pub open spec fn set_status(self, next: StatusModel) -> Self {
        if self.status.kind.spec_allows(next.kind) {
            ActorModel {
                status: next,
                mailbox: if next.kind.spec_is_terminal() {
                    self.mailbox.close()
                } else {
                    self.mailbox
                },
                ..self
            }
        } else {
            self
        }
    }

    /// The actor after one receive: the mailbox gives its oldest envelope,
    /// and getting one ends the initialization.
    pub open spec fn recv(self) -> Self {
        ActorModel {
            status: if self.mailbox.queue.len() > 0 && self.status.kind is Initializing {
                StatusModel { kind: ActorStatusKind::Normal, details: None }
            } else {
                self.status
            },
            mailbox: self.mailbox.recv(),
            ..self
        }
    }
}

/// Whatever is done to an actor, its kind of status stays or changes along
/// the transition table, and a well-formed actor stays well-formed.
pub proof fn lemma_actor_follows_table<M>(
    actor: ActorModel<M>,
    next: StatusModel,
    envelope: Envelope<M>,
)
    requires
        actor.wf(),
    ensures
        actor.status.kind.spec_allows(actor.set_status(next).status.kind),
        actor.status.kind.spec_allows(actor.recv().status.kind),
        actor.send(envelope).status == actor.status,
        actor.close().status == actor.status,
        actor.set_status(next).wf(),
        actor.recv().wf(),
        actor.send(envelope).wf(),
        actor.close().wf(),
{
}

/// Setting the same status twice leaves an actor as setting it once does.
pub proof fn lemma_actor_set_status_idempotent<M>(actor: ActorModel<M>, next: StatusModel)
    ensures
        actor.set_status(next).set_status(next) == actor.set_status(next),
{
}

/// A terminal actor stays closed to sends whatever status is set later.
pub proof fn lemma_terminal_actor_stays_closed<M>(actor: ActorModel<M>, next: StatusModel)
    requires
        actor.wf(),
        actor.status.kind.spec_is_terminal(),
    ensures
        actor.set_status(next).wf(),
        actor.set_status(next).is_closed(),
        actor.set_status(next).refuses_sends(),
        actor.set_status(next).mailbox == actor.mailbox,
{
}

/// One running actor. It is owned by its supervisor; others reach it by its
/// address only.
#[derive(Debug)]
pub struct Actor<M> {
    mailbox: Mailbox<M>,
    request_table: RequestTable<M>,
    status: ActorStatus,
}

impl<M> View for Actor<M> {
    type V = ActorModel<M>;

    closed spec fn view(&self) -> ActorModel<M> {
        ActorModel {
            status: self.status@,
            mailbox: self.mailbox@,
            requests: self.request_table@,
        }
    }
}

impl<M> Actor<M> {
    /// Holds of every actor that this module hands out.
    pub open spec fn inv(&self) -> bool {
        self@.wf()
    }

    /// A new actor at `addr`: initializing, with an open, empty mailbox of
    /// the default capacity and no outstanding requests.
    pub fn new(addr: Addr) -> (actor: Actor<M>)
        ensures
            actor.inv(),
            actor@.addr() == addr,
            actor@.status == (StatusModel { kind: ActorStatusKind::Initializing, details: None }),
            actor@.mailbox == (MailboxModel::<M> {
                queue: Seq::empty(),
                capacity: DEFAULT_CAPACITY as nat,
                closed: false,
            }),
            actor@.requests == (RequestTableModel::<M> { owner: addr, slots: Map::empty(), next_id: 0 }),
    {
        Actor {
            mailbox: Mailbox::new(),
            request_table: RequestTable::new(addr),
            status: ActorStatus::initializing(),
        }
    }

    /// As [`Actor::new`], with a mailbox that holds at most `capacity`
    /// envelopes.
    pub fn with_capacity(addr: Addr, capacity: usize) -> (actor: Actor<M>)
        ensures
            actor.inv(),
            actor@.addr() == addr,
            actor@.status == (StatusModel { kind: ActorStatusKind::Initializing, details: None }),
            actor@.mailbox == (MailboxModel::<M> {
                queue: Seq::empty(),
                capacity: capacity as nat,
                closed: false,
            }),
            actor@.requests == (RequestTableModel::<M> { owner: addr, slots: Map::empty(), next_id: 0 }),
    {
        Actor {
            mailbox: Mailbox::with_capacity(capacity),
            request_table: RequestTable::new(addr),
            status: ActorStatus::initializing(),
        }
    }

    pub fn addr(&self) -> (addr: Addr)
        ensures
            addr == self@.addr(),
    {
        self.request_table.owner()
    }

    pub fn status(&self) -> (status: &ActorStatus)
        ensures
            status@ == self@.status,
    {
        &self.status
    }

    /// Whether the actor is `Failed` or `Terminated`. The call reads the
    /// status and changes nothing.
    pub fn is_closed(&self) -> (closed: bool)
        ensures
            closed == self@.is_closed(),
            closed == self@.status.kind.spec_is_terminal(),
    {
        self.status.kind().is_terminal()
    }

    /// Whether the actor takes no more envelopes: it is closed, or its
    /// mailbox was closed to make it stop.
    pub fn refuses_sends(&self) -> (refuses: bool)
        ensures
            refuses == self@.refuses_sends(),
    {
        self.status.kind().is_terminal() || self.mailbox.is_closed()
    }

    pub fn is_initializing(&self) -> (initializing: bool)
        ensures
            initializing == (self@.status.kind is Initializing),
    {
        self.status.kind() == ActorStatusKind::Initializing
    }

    /// Queues `envelope` in the mailbox unless the actor is closed or the
    /// mailbox is full; then the envelope comes back.
    pub fn try_send(&mut self, envelope: Envelope<M>) -> (result: Result<
        (),
        TrySendError<Envelope<M>>,
    >)
        requires
            old(self).inv(),
        ensures
            final(self).inv(),
            final(self)@ == old(self)@.send(envelope),
            result == old(self)@.send_result(envelope),
    {
        if self.is_closed() {
            return Err(TrySendError::Closed(envelope));
        }
        self.mailbox.try_send(envelope)
    }

    /// One attempt of a send that waits for room in the mailbox.
    pub fn poll_send(&mut self, envelope: Envelope<M>) -> (poll: SendPoll<M>)
        requires
            old(self).inv(),
        ensures
            final(self).inv(),
            final(self)@ == old(self)@.send(envelope),
            poll is Sent <==> old(self)@.mailbox.accepts(),
            old(self)@.refuses_sends() ==> poll == SendPoll::Closed(SendError(envelope)),
            !old(self)@.refuses_sends() && !old(self)@.mailbox.accepts() ==> poll == SendPoll::Pending(
                envelope,
            ),
    {
        self.mailbox.poll_send(envelope)
    }

    /// Takes the oldest envelope of the mailbox. The first envelope that an
    /// initializing actor gets makes it `Normal`.
    pub fn try_recv(&mut self) -> (result: Result<Envelope<M>, TryRecvError>)
        requires
            old(self).inv(),
        ensures
            final(self).inv(),
            final(self)@ == old(self)@.recv(),
            result == old(self)@.mailbox.recv_result(),
    {
        let result = self.mailbox.try_recv();
        if result.is_ok() && self.is_initializing() {
            self.status = ActorStatus::normal();
        }
        result
    }

    /// One attempt of a receive that waits for an envelope. It is finished
    /// exactly when the mailbox is closed and drained.
    pub fn poll_recv(&mut self) -> (poll: RecvPoll<M>)
        requires
            old(self).inv(),
        ensures
            final(self).inv(),
            final(self)@ == old(self)@.recv(),
            poll == old(self)@.mailbox.recv_poll(),
    {
        match self.try_recv() {
            Ok(envelope) => RecvPoll::Ready(envelope),
            Err(TryRecvError::Closed) => RecvPoll::Finished,
            Err(TryRecvError::Empty) => RecvPoll::Pending,
        }
    }

    pub fn mailbox(&self) -> (mailbox: &Mailbox<M>)
        ensures
            mailbox@ == self@.mailbox,
    {
        &self.mailbox
    }

    pub fn request_table(&self) -> (table: &RequestTable<M>)
        ensures
            table@ == self@.requests,
            table.inv() == self@.requests.wf(),
    {
        &self.request_table
    }

    /// Registers a new open request in the actor's table; see
    /// [`RequestTable::allocate`].
    pub fn allocate_request(&mut self) -> (id: Option<u64>)
        requires
            old(self).inv(),
        ensures
            final(self).inv(),
            final(self)@ == old(self)@.with_requests(old(self)@.requests.allocate()),
            id == old(self)@.requests.fresh_id(),
    {
        self.request_table.allocate()
    }

    /// Stores the response to request `id`; see [`RequestTable::fulfill`].
    pub fn fulfill(&mut self, id: u64, response: Envelope<M>) -> (result: Result<(), RequestError>)
        requires
            old(self).inv(),
        ensures
            final(self).inv(),
            final(self)@ == old(self)@.with_requests(
                old(self)@.requests.settle(id, TokenUse::Fulfill(response)),
            ),
            result == old(self)@.requests.fulfill_result(id),
    {
        self.request_table.fulfill(id, response)
    }

    /// Records that the token of request `id` was dropped; see
    /// [`RequestTable::drop_token`].
    pub fn drop_token(&mut self, id: u64) -> (ignored: bool)
        requires
            old(self).inv(),
        ensures
            final(self).inv(),
            final(self)@ == old(self)@.with_requests(
                old(self)@.requests.settle(id, TokenUse::DropToken),
            ),
            ignored == old(self)@.requests.is_open(id),
    {
        self.request_table.drop_token(id)
    }

    /// One attempt of awaiting request `id`. A request that is still open
    /// when the actor is closed ends as `Closed`; see [`RequestTable::poll`].
    pub fn poll_request(&mut self, id: u64) -> (poll: RequestPoll<M>)
        requires
            old(self).inv(),
        ensures
            final(self).inv(),
            final(self)@ == old(self)@.with_requests(
                old(self)@.requests.after_poll(id, old(self)@.refuses_sends()),
            ),
            poll == old(self)@.requests.poll_result(id, old(self)@.refuses_sends()),
    {
        let closed = self.refuses_sends();
        self.request_table.poll(id, closed)
    }

    /// One attempt of awaiting all responses of a fan-out in the actor's
    /// table; see [`Fanout::poll_all`]. If the actor is closed, every
    /// request that is still open ends as `Closed`.
    pub fn poll_all(&mut self, fanout: &mut Fanout<M>) -> (all: Option<Vec<Resolved<M>>>)
        requires
            old(self).inv(),
        ensures
            final(self).inv(),
            final(self)@ == old(self)@.with_requests(
                FanoutModel::<M>::table_after(
                    old(self)@.requests,
                    old(fanout)@.pending,
                    old(self)@.refuses_sends(),
                ),
            ),
            final(self)@.addr() == old(self)@.addr(),
            match all {
                Some(outcomes) => outcomes@ == old(fanout)@.sweep(
                    old(self)@.requests,
                    old(self)@.refuses_sends(),
                ).outcomes && outcomes@.len() == old(fanout)@.expected() && final(fanout)@
                    == (FanoutModel::<M> { pending: Seq::empty(), outcomes: Seq::empty() }),
                None => final(fanout)@ == old(fanout)@.sweep(
                    old(self)@.requests,
                    old(self)@.refuses_sends(),
                ) && final(fanout)@.pending.len() > 0,
            },
            old(self)@.refuses_sends() ==> all is Some,
    {
        let closed = self.refuses_sends();
        proof {
            lemma_table_after(self@.requests, fanout@.pending, closed);
        }
        fanout.poll_all(&mut self.request_table, closed)
    }

    /// Gives up request `id`; see [`RequestTable::cancel`].
    pub fn cancel_request(&mut self, id: u64) -> (removed: bool)
        requires
            old(self).inv(),
        ensures
            final(self).inv(),
            final(self)@ == old(self)@.with_requests(old(self)@.requests.cancel(id)),
            removed == old(self)@.requests.slots.contains_key(id),
    {
        self.request_table.cancel(id)
    }

    /// Asks the actor to take `status`. A change that the transition table
    /// allows is made, and its severity is returned for the caller to
    /// report; a terminal kind also closes the mailbox. Any other change is
    /// refused and leaves the actor as it was.
    pub fn set_status(&mut self, status: ActorStatus) -> (reported: Option<Severity>)
        requires
            old(self).inv(),
        ensures
            final(self).inv(),
            final(self)@ == old(self)@.set_status(status@),
            reported == old(self)@.status_report(status@),
    {
        let kind = status.kind();
        if self.status.kind().allows(kind) {
            if kind.is_terminal() {
                self.mailbox.close();
            }
            self.status = status;
            Some(kind.severity())
        } else {
            None
        }
    }

    /// Closes the mailbox, as the supervisor does to make the actor stop;
    /// says whether this call closed it. Queued envelopes stay receivable.
    pub fn close(&mut self) -> (newly_closed: bool)
        requires
            old(self).inv(),
        ensures
            final(self).inv(),
            final(self)@ == old(self)@.close(),
            newly_closed == !old(self)@.mailbox.closed,
    {
        self.mailbox.close()
    }
}

} // verus!
