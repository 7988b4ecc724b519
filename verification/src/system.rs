//! The groups of a topology together: sending along routes, sending to an
//! address, requesting and responding across groups.

use vstd::prelude::*;
use crate::addr::Addr;
use crate::envelope::{Envelope, MessageKind, ResponseToken};
use crate::errors::{RequestError, RouterError, TryRecvError, TrySendError};
use crate::actor::{ActorStatus, ActorStatusKind, Severity, StatusModel};
use crate::group::{Ensured, Exit, Group, GroupModel, Sent};
use crate::request::{Fanout, FanoutModel, Resolved};
use crate::request_table::{RequestTableModel, TokenUse};
use crate::routers::{Fallback, Outcome};
use crate::topology::{group_addr, Topology, TopologyModel};

verus! {

/// The mathematical state of a system.
pub struct SystemModel<M> {
    pub topology: TopologyModel,
    /// The children of every declared group, in the order of declaration.
    pub groups: Seq<GroupModel<M>>,
}

impl<M> SystemModel<M> {
    /// Every declared group has its children, under its number.
    pub open spec fn wf(self) -> bool {
        &&& self.topology.wf()
        &&& self.groups.len() == self.topology.groups.len()
        &&& forall|i: int|
            0 <= i < self.groups.len() ==> (#[trigger] self.groups[i]).wf() && self.groups[i].group_no
                == i + 1
    }

    /// Whether `addr` lies in a declared group.
    pub open spec fn has_group_of(self, addr: Addr) -> bool {
        1 <= addr.spec_group_slot() <= self.groups.len()
    }

    /// The place of the group that `addr` lies in.
    pub open spec fn index_of(self, addr: Addr) -> int {
        addr.spec_group_slot() - 1
    }

    /// Whether `addr` names a live actor.
    pub open spec fn is_live(self, addr: Addr) -> bool {
        self.has_group_of(addr) && self.groups[self.index_of(addr)].is_live(addr)
    }

    /// The system with the group that `addr` lies in replaced.
    pub open spec fn with_group(self, addr: Addr, group: GroupModel<M>) -> Self {
        SystemModel { groups: self.groups.update(self.index_of(addr), group), ..self }
    }

    /// The groups that the group of `from` has routes to.
    pub open spec fn destinations(self, from: Addr) -> Seq<Addr> {
        self.topology.destinations(
            group_addr(self.index_of(from)),
            self.topology.connections.len() as int,
        )
    }

    /// The request table of the live actor at `addr`.
    pub open spec fn requests_of(self, addr: Addr) -> RequestTableModel<M>
        recommends
            self.is_live(addr),
    {
        self.groups[self.index_of(addr)].actor(addr).requests
    }

    /// The system with the request table of the live actor at `addr`
    /// replaced.
    pub open spec fn with_requests(self, addr: Addr, requests: RequestTableModel<M>) -> Self {
        let group = self.groups[self.index_of(addr)];
        self.with_group(addr, group.with_actor(addr, group.actor(addr).with_requests(requests)))
    }

    /// The identifier that the next request of the actor at `addr` gets:
    /// none if it is no live actor or has none left.
    pub open spec fn fresh_id(self, addr: Addr) -> Option<u64> {
        if self.is_live(addr) {
            self.requests_of(addr).fresh_id()
        } else {
            None
        }
    }

    /// The system after a request of the actor at `addr` was registered.
    pub open spec fn allocate(self, addr: Addr) -> Self {
        if self.is_live(addr) {
            self.with_requests(addr, self.requests_of(addr).allocate())
        } else {
            self
        }
    }

    /// The system after request `id` of the actor at `addr` was given up.
    pub open spec fn cancel(self, addr: Addr, id: u64) -> Self {
        if self.is_live(addr) {
            self.with_requests(addr, self.requests_of(addr).cancel(id))
        } else {
            self
        }
    }

    /// The system after the actor at `addr` looked once at every pending
    /// slot of `fanout`.
    pub open spec fn polled_all(self, addr: Addr, fanout: FanoutModel<M>) -> Self {
        if self.is_live(addr) {
            self.with_group(addr, self.groups[self.index_of(addr)].polled_all(addr, fanout))
        } else {
            self
        }
    }

    /// The envelope that carries `message` as the request with slot `id` of
    /// the actor at `requester`.
    pub open spec fn request_envelope(requester: Addr, id: u64, message: M, now: u64) -> Envelope<
        M,
    > {
        Envelope {
            message,
            kind: MessageKind::Request { sender: requester, correlation_id: id },
            created_at: now,
        }
    }

    /// The system and the fan-out after the actor at `requester` sent
    /// `message` as a request to `target`: a slot is registered in the
    /// requester's table and the request is offered to the target; if it is
    /// taken, the slot is awaited; if not, the slot is given up and the
    /// target is noted as `Closed`. Without a slot the target is noted as
    /// `Closed` and nothing is sent.
    pub open spec fn request_one(
        self,
        fanout: FanoutModel<M>,
        requester: Addr,
        target: Addr,
        message: M,
        now: u64,
    ) -> (Self, FanoutModel<M>) {
        match self.fresh_id(requester) {
            None => (self, fanout.fail(RequestError::Closed)),
            Some(id) => {
                let envelope = Self::request_envelope(requester, id, message, now);
                let registered = self.allocate(requester);
                if registered.send_to_result(target, envelope) is Ok {
                    (registered.send_to(target, envelope), fanout.expect(id))
                } else {
                    (
                        registered.send_to(target, envelope).cancel(requester, id),
                        fanout.fail(RequestError::Closed),
                    )
                }
            },
        }
    }

    /// The system and the fan-out after the actor at `requester` sent the
    /// message at the same place of `messages` as a request to each of
    /// `targets`, in order.
    pub open spec fn request_all(
        self,
        requester: Addr,
        targets: Seq<Addr>,
        messages: Seq<M>,
        now: u64,
    ) -> (Self, FanoutModel<M>)
        decreases targets.len(),
    {
        if targets.len() == 0 {
            (self, FanoutModel { pending: Seq::empty(), outcomes: Seq::empty() })
        } else {
            let before = self.request_all(
                requester,
                targets.drop_last(),
                messages.drop_last(),
                now,
            );
            before.0.request_one(before.1, requester, targets.last(), messages.last(), now)
        }
    }

    /// The system after `envelope` was offered to the actor at `addr`.
    pub open spec fn send_to(self, addr: Addr, envelope: Envelope<M>) -> Self {
        if self.has_group_of(addr) {
            self.with_group(addr, self.groups[self.index_of(addr)].send_to(addr, envelope))
        } else {
            self
        }
    }

    /// What offering `envelope` to the actor at `addr` returns: an address
    /// outside every group is closed.
    pub open spec fn send_to_result(self, addr: Addr, envelope: Envelope<M>) -> Result<
        (),
        TrySendError<Envelope<M>>,
    > {
        if self.has_group_of(addr) {
            self.groups[self.index_of(addr)].send_to_result(addr, envelope)
        } else {
            Err(TrySendError::Closed(envelope))
        }
    }
}

/// The actors of a whole topology.
pub struct System<M> {
    topology: Topology,
    groups: Vec<Group<M>>,
}

impl<M> View for System<M> {
    type V = SystemModel<M>;

    closed spec fn view(&self) -> SystemModel<M> {
        SystemModel {
            topology: self.topology@,
            groups: self.groups@.map_values(|group: Group<M>| group@),
        }
    }
}

impl<M> System<M> {
    /// Holds of every system that this module hands out.
    pub open spec fn inv(&self) -> bool {
        self@.wf()
    }

    /// A system of `topology` in which no group has children yet. The
    /// children get mailboxes of the given capacity, and every group discards
    /// what its router leaves to the default.
    pub fn new(topology: Topology, capacity: usize) -> (system: System<M>)
        requires
            topology.inv(),
        ensures
            system.inv(),
            system@.topology == topology@,
            forall|i: int|
                0 <= i < system@.groups.len() ==> #[trigger] system@.groups[i] == (GroupModel::<
                    M,
                > {
                    group_no: (i + 1) as u16,
                    capacity: capacity as nat,
                    fallback: Fallback::Discard,
                    slots: Seq::empty(),
                }),
    {
        let count = topology.group_count();
        let mut groups: Vec<Group<M>> = Vec::new();
        let mut i: usize = 0;
        while i < count
            invariant
                i <= count,
                count <= u16::MAX,
                groups@.len() == i,
                forall|j: int|
                    0 <= j < i ==> (#[trigger] groups@[j])@ == (GroupModel::<M> {
                        group_no: (j + 1) as u16,
                        capacity: capacity as nat,
                        fallback: Fallback::Discard,
                        slots: Seq::empty(),
                    }),
            decreases count - i,
        {
            groups.push(Group::new((i + 1) as u16, capacity, Fallback::Discard));
            i += 1;
        }
        System { topology, groups }
    }

    /// The topology of the system.
    pub fn topology(&self) -> (topology: &Topology)
        ensures
            topology@ == self@.topology,
    {
        &self.topology
    }

    /// The place of the group that `addr` lies in, if it lies in one.
    fn group_index(&self, addr: Addr) -> (found: Option<usize>)
        ensures
            match found {
                Some(index) => self@.has_group_of(addr) && index == self@.index_of(addr),
                None => !self@.has_group_of(addr),
            },
    {
        let group_no = addr.group_slot() as usize;
        if 1 <= group_no && group_no <= self.groups.len() {
            Some(group_no - 1)
        } else {
            None
        }
    }

    /// The children of the group that `addr` lies in.
    pub fn group(&self, addr: Addr) -> (group: Option<&Group<M>>)
        ensures
            match group {
                Some(group) => self@.has_group_of(addr) && group@ == self@.groups[self@.index_of(
                    addr,
                )],
                None => !self@.has_group_of(addr),
            },
    {
        match self.group_index(addr) {
            Some(index) => Some(&self.groups[index]),
            None => None,
        }
    }

    /// Whether `addr` names a live actor.
    pub fn is_live(&self, addr: Addr) -> (live: bool)
        ensures
            live == self@.is_live(addr),
    {
        match self.group_index(addr) {
            Some(index) => self.groups[index].is_live(addr),
            None => false,
        }
    }

    /// The groups that a message of the actor or group at `from` is routed
    /// to: those that the group of `from` has routes to, in the order of
    /// declaration. Without any, the message has no destinations.
    pub fn destinations(&self, from: Addr) -> (result: Result<Vec<Addr>, RouterError>)
        requires
            self.inv(),
        ensures
            match result {
                Ok(destinations) => destinations@ == self@.destinations(from)
                    && destinations@.len() > 0,
                Err(error) => error == RouterError::NoDestinations && self@.destinations(
                    from,
                ).len() == 0,
            },
    {
        let source = Addr::from_parts(from.group_slot(), 0, 0);
        proof {
            if from.spec_group_slot() == 0 {
                assert(group_addr(self@.index_of(from)) == Addr::spec_from_parts(0, 0, 0));
            }
        }
        let destinations = self.topology.destinations(source);
        if destinations.len() == 0 {
            Err(RouterError::NoDestinations)
        } else {
            Ok(destinations)
        }
    }

    fn take_group(&mut self, index: usize) -> (group: Group<M>)
        requires
            index < old(self)@.groups.len(),
        ensures
            group@ == old(self)@.groups[index as int],
            final(self)@.topology == old(self)@.topology,
            final(self)@.groups == old(self)@.groups.update(
                index as int,
                GroupModel::<M> {
                    group_no: 0,
                    capacity: 0,
                    fallback: Fallback::Discard,
                    slots: Seq::empty(),
                },
            ),
    {
        let mut group = Group::new(0, 0, Fallback::Discard);
        self.groups.set_and_swap(index, &mut group);
        assert(self@.groups =~= old(self)@.groups.update(
            index as int,
            GroupModel::<M> {
                group_no: 0,
                capacity: 0,
                fallback: Fallback::Discard,
                slots: Seq::empty(),
            },
        ));
        group
    }

    fn put_group(&mut self, index: usize, group: Group<M>)
        requires
            index < old(self)@.groups.len(),
        ensures
            final(self)@.topology == old(self)@.topology,
            final(self)@.groups == old(self)@.groups.update(index as int, group@),
    {
        self.groups.set(index, group);
        assert(self@.groups =~= old(self)@.groups.update(index as int, group@));
    }

    /// Offers `envelope` to the actor at `addr`; see [`Group::try_send_to`].
    pub fn try_send_to(&mut self, addr: Addr, envelope: Envelope<M>) -> (result: Result<
        (),
        TrySendError<Envelope<M>>,
    >)
        requires
            old(self).inv(),
        ensures
            final(self).inv(),
            final(self)@ == old(self)@.send_to(addr, envelope),
            result == old(self)@.send_to_result(addr, envelope),
    {
        match self.group_index(addr) {
            None => Err(TrySendError::Closed(envelope)),
            Some(index) => {
                let mut group = self.take_group(index);
                let result = group.try_send_to(addr, envelope);
                self.put_group(index, group);
                assert(self@.groups =~= old(self)@.send_to(addr, envelope).groups);
                result
            },
        }
    }

    /// Routes `message` to the group at `destination` by `outcome`; see
    /// [`Group::try_send`]. Nothing happens if no group is there.
    pub fn try_send(
        &mut self,
        destination: Addr,
        outcome: &Outcome,
        message: &M,
        kind: MessageKind,
        now: u64,
    ) -> (sent: Option<Sent<M>>) where M: Clone
        requires
            old(self).inv(),
        ensures
            final(self).inv(),
            final(self)@.topology == old(self)@.topology,
            final(self)@.groups.len() == old(self)@.groups.len(),
            !old(self)@.has_group_of(destination) ==> sent is None && final(self)@ == old(self)@,
            old(self)@.has_group_of(destination) ==> sent is Some && {
                let before = old(self)@.groups[old(self)@.index_of(destination)];
                let after = final(self)@.groups[old(self)@.index_of(destination)];
                &&& final(self)@ == old(self)@.with_group(destination, after)
                &&& before.evolves_to(after)
                &&& sent->0.targets@ == before.targets(outcome.decide(before.fallback))
                &&& sent->0.spawned@ == before.spawned(outcome.decide(before.fallback))
                &&& exists|envelopes: Seq<Envelope<M>>|
                    {
                        &&& envelopes.len() == sent->0.targets@.len()
                        &&& forall|i: int|
                            0 <= i < envelopes.len() ==> (#[trigger] envelopes[i]).kind == kind
                                && envelopes[i].created_at == now && cloned(
                                *message,
                                envelopes[i].message,
                            )
                        &&& after == before.route(outcome.decide(before.fallback)).send_each(
                            sent->0.targets@,
                            envelopes,
                        )
                        &&& sent->0.results@ == before.route(
                            outcome.decide(before.fallback),
                        ).results_of(sent->0.targets@, envelopes)
                    }
            },
    {
        match self.group_index(destination) {
            None => None,
            Some(index) => {
                let mut group = self.take_group(index);
                let sent = group.try_send(outcome, message, kind, now);
                proof {
                    lemma_evolution_keeps_number(old(self)@.groups[index as int], group@);
                }
                self.put_group(index, group);
                assert(self@.groups =~= old(self)@.with_group(destination, group@).groups);
                Some(sent)
            },
        }
    }

    /// Takes the oldest envelope from the mailbox of the actor at `addr`;
    /// see [`Group::try_recv`].
    pub fn try_recv(&mut self, addr: Addr, now: u64) -> (result: Option<
        Result<Envelope<M>, TryRecvError>,
    >)
        requires
            old(self).inv(),
        ensures
            final(self).inv(),
            !old(self)@.is_live(addr) ==> result is None && final(self)@ == old(self)@,
            old(self)@.is_live(addr) ==> {
                let before = old(self)@.groups[old(self)@.index_of(addr)];
                &&& final(self)@ == old(self)@.with_group(
                    addr,
                    before.with_child(addr, before.actor(addr).recv(), now),
                )
                &&& result == Some(before.actor(addr).mailbox.recv_result())
            },
    {
        match self.group_index(addr) {
            None => None,
            Some(index) => {
                let mut group = self.take_group(index);
                let result = group.try_recv(addr, now);
                proof {
                    lemma_evolution_keeps_number(old(self)@.groups[index as int], group@);
                }
                self.put_group(index, group);
                assert(self@.groups =~= old(self)@.with_group(addr, group@).groups);
                assert(!old(self)@.is_live(addr) ==> self@.groups =~= old(self)@.groups);
                result
            },
        }
    }

    /// Answers the request that `token` stands for with `response`; see
    /// [`Group::respond`]. A requester outside every group is closed.
    pub fn respond(&mut self, token: ResponseToken, response: Envelope<M>) -> (result: Result<
        (),
        RequestError,
    >)
        requires
            old(self).inv(),
        ensures
            final(self).inv(),
            !old(self)@.is_live(token.spec_sender()) ==> final(self)@ == old(self)@ && result
                == Err::<(), _>(RequestError::Closed),
            old(self)@.is_live(token.spec_sender()) ==> {
                let before = old(self)@.groups[old(self)@.index_of(token.spec_sender())];
                let requester = before.actor(token.spec_sender());
                &&& final(self)@ == old(self)@.with_group(
                    token.spec_sender(),
                    before.with_actor(
                        token.spec_sender(),
                        requester.with_requests(
                            requester.requests.settle(
                                token.spec_correlation_id(),
                                TokenUse::Fulfill(response),
                            ),
                        ),
                    ),
                )
                &&& result == requester.requests.fulfill_result(token.spec_correlation_id())
            },
    {
        let addr = token.sender();
        match self.group_index(addr) {
            None => Err(RequestError::Closed),
            Some(index) => {
                let mut group = self.take_group(index);
                let result = group.respond(token, response);
                proof {
                    lemma_evolution_keeps_number(old(self)@.groups[index as int], group@);
                }
                self.put_group(index, group);
                assert(self@.groups =~= old(self)@.with_group(addr, group@).groups);
                assert(!old(self)@.is_live(addr) ==> self@.groups =~= old(self)@.groups);
                result
            },
        }
    }

    /// Sends `message` as a request of the actor at `requester` to each of
    /// `targets`, in order, and returns the fan-out to await. For each
    /// target a slot is registered in the requester's table and an envelope
    /// of kind `Request`, with that slot, a clone of `message` and the
    /// instant `now`, is offered to the target. A target that takes it is
    /// awaited in its slot; for one that does not, the slot is given up and
    /// `Closed` is noted at once; so it is for every target if the requester
    /// is no live actor or has no identifier left. The fan-out expects one
    /// outcome per target.
    pub fn request(&mut self, requester: Addr, targets: &Vec<Addr>, message: &M, now: u64) -> (fanout:
        Fanout<M>) where M: Clone
        requires
            old(self).inv(),
        ensures
            final(self).inv(),
            final(self)@.topology == old(self)@.topology,
            final(self)@.groups.len() == old(self)@.groups.len(),
            fanout@.expected() == targets@.len(),
            exists|messages: Seq<M>|
                {
                    &&& messages.len() == targets@.len()
                    &&& forall|i: int|
                        0 <= i < messages.len() ==> cloned(*message, #[trigger] messages[i])
                    &&& (final(self)@, fanout@) == old(self)@.request_all(
                        requester,
                        targets@,
                        messages,
                        now,
                    )
                },
    {
        let mut fanout = Fanout::new();
        let ghost mut messages: Seq<M> = Seq::empty();
        let mut i: usize = 0;
        proof {
            assert(targets@.take(0) =~= Seq::<Addr>::empty());
        }
        while i < targets.len()
            invariant
                self.inv(),
                i <= targets.len(),
                self@.topology == old(self)@.topology,
                self@.groups.len() == old(self)@.groups.len(),
                fanout@.expected() == i,
                messages.len() == i,
                forall|j: int| 0 <= j < messages.len() ==> cloned(*message, #[trigger] messages[j]),
                (self@, fanout@) == old(self)@.request_all(
                    requester,
                    targets@.take(i as int),
                    messages,
                    now,
                ),
            decreases targets.len() - i,
        {
            let ghost before = self@;
            let ghost awaited = fanout@;
            let copy = message.clone();
            let ghost sent = copy;
            match self.allocate_request(requester) {
                None => {
                    fanout.fail(RequestError::Closed);
                    proof {
                        lemma_allocate_without_id(before, requester);
                    }
                },
                Some(id) => {
                    let kind = MessageKind::Request { sender: requester, correlation_id: id };
                    let envelope = Envelope::new(copy, kind, now);
                    let result = self.try_send_to(targets[i], envelope);
                    match result {
                        Ok(()) => {
                            fanout.expect(id);
                        },
                        Err(_) => {
                            self.cancel_request(requester, id);
                            fanout.fail(RequestError::Closed);
                        },
                    }
                },
            }
            proof {
                let prefix = targets@.take(i as int + 1);
                let grown = messages.push(sent);
                assert(prefix.drop_last() =~= targets@.take(i as int));
                assert(prefix.last() == targets@[i as int]);
                assert(grown.drop_last() =~= messages);
                assert(grown.last() == sent);
                assert((self@, fanout@) == before.request_one(
                    awaited,
                    requester,
                    targets@[i as int],
                    sent,
                    now,
                ));
                messages = grown;
            }
            i += 1;
        }
        proof {
            assert(targets@.take(targets@.len() as int) =~= targets@);
        }
        fanout
    }

    /// Gives the live child for `key` in the group at `group`, spawning it if
    /// the key has no slot; see [`Group::ensure`]. Nothing happens if no
    /// group is there.
    pub fn ensure(&mut self, group: Addr, key: u64) -> (ensured: Ensured)
        requires
            old(self).inv(),
        ensures
            final(self).inv(),
            final(self)@.topology == old(self)@.topology,
            final(self)@.groups.len() == old(self)@.groups.len(),
            !old(self)@.has_group_of(group) ==> final(self)@ == old(self)@ && ensured.addr is None
                && !ensured.spawned,
            old(self)@.has_group_of(group) ==> {
                let before = old(self)@.groups[old(self)@.index_of(group)];
                &&& final(self)@ == old(self)@.with_group(group, before.ensure(key))
                &&& ensured.spawned == before.spawns(key)
                &&& ensured.addr == before.ensure(key).child(key)
            },
            ensured.addr matches Some(addr) ==> final(self)@.is_live(addr),
    {
        match self.group_index(group) {
            None => Ensured { addr: None, spawned: false },
            Some(index) => {
                let mut children = self.take_group(index);
                let ensured = children.ensure(key);
                proof {
                    lemma_evolution_keeps_number(old(self)@.groups[index as int], children@);
                    if ensured.addr is Some {
                        assert(children@.is_live(ensured.addr->0));
                    }
                }
                self.put_group(index, children);
                assert(self@.groups =~= old(self)@.with_group(group, children@).groups);
                ensured
            },
        }
    }

    /// Notes that the body of the actor at `addr` ended; see
    /// [`Group::exit`].
    pub fn exit(&mut self, addr: Addr, failed: bool, now: u64, entropy: u64) -> (exit: Exit<M>)
        requires
            old(self).inv(),
        ensures
            final(self).inv(),
            final(self)@.topology == old(self)@.topology,
            final(self)@.groups.len() == old(self)@.groups.len(),
            !final(self)@.is_live(addr),
            !old(self)@.is_live(addr) ==> final(self)@ == old(self)@ && exit is Unknown,
            old(self)@.is_live(addr) ==> {
                let before = old(self)@.groups[old(self)@.index_of(addr)];
                &&& final(self)@ == old(self)@.with_group(
                    addr,
                    before.exit(addr, failed, now, entropy),
                )
                &&& match exit {
                    Exit::Unknown => false,
                    Exit::Removed { actor } => !failed && actor@ == before.actor(addr).set_status(
                        StatusModel { kind: ActorStatusKind::Terminated, details: None },
                    ),
                    Exit::Restarting { actor, restart_at } => failed && actor@ == before.actor(
                        addr,
                    ).set_status(StatusModel { kind: ActorStatusKind::Failed, details: None })
                        && restart_at == before.restart_time(addr, now, entropy),
                }
            },
    {
        match self.group_index(addr) {
            None => Exit::Unknown,
            Some(index) => {
                let mut children = self.take_group(index);
                let exit = children.exit(addr, failed, now, entropy);
                proof {
                    lemma_evolution_keeps_number(old(self)@.groups[index as int], children@);
                }
                self.put_group(index, children);
                assert(self@.groups =~= old(self)@.with_group(addr, children@).groups);
                assert(!old(self)@.is_live(addr) ==> self@.groups =~= old(self)@.groups);
                exit
            },
        }
    }

    /// Starts the failed child for `key` of the group at `group` again if
    /// it is due at `now`; see [`Group::restart`].
    pub fn restart(&mut self, group: Addr, key: u64, now: u64) -> (addr: Option<Addr>)
        requires
            old(self).inv(),
        ensures
            final(self).inv(),
            final(self)@.topology == old(self)@.topology,
            final(self)@.groups.len() == old(self)@.groups.len(),
            !old(self)@.has_group_of(group) ==> final(self)@ == old(self)@ && addr is None,
            old(self)@.has_group_of(group) ==> {
                let before = old(self)@.groups[old(self)@.index_of(group)];
                &&& final(self)@ == old(self)@.with_group(group, before.restart(key, now))
                &&& addr == (if before.is_due(key, now) {
                    before.restart(key, now).child(key)
                } else {
                    None
                })
            },
            addr matches Some(addr) ==> final(self)@.is_live(addr),
    {
        match self.group_index(group) {
            None => None,
            Some(index) => {
                let mut children = self.take_group(index);
                let addr = children.restart(key, now);
                proof {
                    lemma_evolution_keeps_number(old(self)@.groups[index as int], children@);
                    if addr is Some {
                        assert(children@.is_live(addr->0));
                    }
                }
                self.put_group(index, children);
                assert(self@.groups =~= old(self)@.with_group(group, children@).groups);
                addr
            },
        }
    }

    /// Asks the actor at `addr` to take `status`; see [`Group::set_status`].
    pub fn set_status(&mut self, addr: Addr, status: ActorStatus, now: u64) -> (reported: Option<
        Severity,
    >)
        requires
            old(self).inv(),
        ensures
            final(self).inv(),
            final(self)@.topology == old(self)@.topology,
            final(self)@.groups.len() == old(self)@.groups.len(),
            !old(self)@.has_group_of(addr) ==> final(self)@ == old(self)@ && reported is None,
            old(self)@.has_group_of(addr) ==> {
                let before = old(self)@.groups[old(self)@.index_of(addr)];
                &&& final(self)@ == old(self)@.with_group(
                    addr,
                    before.set_status(addr, status@, now),
                )
                &&& reported == before.status_report(addr, status@)
            },
    {
        match self.group_index(addr) {
            None => None,
            Some(index) => {
                let mut children = self.take_group(index);
                let reported = children.set_status(addr, status, now);
                proof {
                    lemma_evolution_keeps_number(old(self)@.groups[index as int], children@);
                }
                self.put_group(index, children);
                assert(self@.groups =~= old(self)@.with_group(addr, children@).groups);
                reported
            },
        }
    }

    /// Gives up the right to answer the request that `token` stands for;
    /// see [`Group::drop_token`].
    pub fn drop_token(&mut self, token: ResponseToken) -> (ignored: bool)
        requires
            old(self).inv(),
        ensures
            final(self).inv(),
            final(self)@.topology == old(self)@.topology,
            final(self)@.groups.len() == old(self)@.groups.len(),
            !old(self)@.has_group_of(token.spec_sender()) ==> final(self)@ == old(self)@
                && !ignored,
            old(self)@.has_group_of(token.spec_sender()) ==> {
                let before = old(self)@.groups[old(self)@.index_of(token.spec_sender())];
                &&& final(self)@ == old(self)@.with_group(
                    token.spec_sender(),
                    before.use_token(
                        token.spec_sender(),
                        token.spec_correlation_id(),
                        TokenUse::DropToken,
                    ),
                )
                &&& ignored == before.is_open(token.spec_sender(), token.spec_correlation_id())
            },
    {
        let addr = token.sender();
        match self.group_index(addr) {
            None => false,
            Some(index) => {
                let mut children = self.take_group(index);
                let ignored = children.drop_token(token);
                proof {
                    lemma_evolution_keeps_number(old(self)@.groups[index as int], children@);
                }
                self.put_group(index, children);
                assert(self@.groups =~= old(self)@.with_group(addr, children@).groups);
                ignored
            },
        }
    }

    /// Closes the mailbox of every live actor, as a shutdown does; see
    /// [`Group::close_all`]. The actors stay alive to drain their mailboxes.
    pub fn close_all(&mut self)
        requires
            old(self).inv(),
        ensures
            final(self).inv(),
            final(self)@.topology == old(self)@.topology,
            final(self)@.groups.len() == old(self)@.groups.len(),
            forall|i: int|
                0 <= i < final(self)@.groups.len() ==> #[trigger] final(self)@.groups[i] == old(
                    self,
                )@.groups[i].close_all(),
    {
        let mut i: usize = 0;
        assert(self@.groups.len() == self.groups@.len());
        while i < self.groups.len()
            invariant
                self.inv(),
                i <= self.groups.len(),
                self@.groups.len() == self.groups@.len(),
                self@.topology == old(self)@.topology,
                self@.groups.len() == old(self)@.groups.len(),
                forall|j: int|
                    0 <= j < i ==> #[trigger] self@.groups[j] == old(self)@.groups[j].close_all(),
                forall|j: int|
                    i <= j < self@.groups.len() ==> #[trigger] self@.groups[j] == old(
                        self,
                    )@.groups[j],
            decreases self.groups.len() - i,
        {
            let mut group = self.take_group(i);
            group.close_all();
            proof {
                lemma_evolution_keeps_number(old(self)@.groups[i as int], group@);
            }
            self.put_group(i, group);
            i += 1;
        }
    }

    /// Registers a new open request of the actor at `addr`; see
    /// [`Group::allocate_request`].
    pub fn allocate_request(&mut self, addr: Addr) -> (id: Option<u64>)
        requires
            old(self).inv(),
        ensures
            final(self).inv(),
            final(self)@.topology == old(self)@.topology,
            final(self)@.groups.len() == old(self)@.groups.len(),
            final(self)@ == old(self)@.allocate(addr),
            id == old(self)@.fresh_id(addr),
    {
        match self.group_index(addr) {
            None => None,
            Some(index) => {
                let mut group = self.take_group(index);
                let id = group.allocate_request(addr);
                proof {
                    lemma_evolution_keeps_number(old(self)@.groups[index as int], group@);
                }
                self.put_group(index, group);
                assert(self@.groups =~= old(self)@.allocate(addr).groups);
                id
            },
        }
    }

    /// Gives up request `id` of the actor at `addr`; see
    /// [`Group::cancel_request`].
    pub fn cancel_request(&mut self, addr: Addr, id: u64) -> (removed: bool)
        requires
            old(self).inv(),
        ensures
            final(self).inv(),
            final(self)@.topology == old(self)@.topology,
            final(self)@.groups.len() == old(self)@.groups.len(),
            final(self)@ == old(self)@.cancel(addr, id),
            removed == (old(self)@.is_live(addr) && old(self)@.requests_of(
                addr,
            ).slots.contains_key(id)),
    {
        match self.group_index(addr) {
            None => false,
            Some(index) => {
                let mut group = self.take_group(index);
                let removed = group.cancel_request(addr, id);
                proof {
                    lemma_evolution_keeps_number(old(self)@.groups[index as int], group@);
                }
                self.put_group(index, group);
                assert(self@.groups =~= old(self)@.cancel(addr, id).groups);
                removed
            },
        }
    }

    /// One attempt of the actor at `addr` at awaiting all responses of a
    /// fan-out; see [`Group::poll_all`]. If `addr` names no live actor, the
    /// requester is gone: the fan-out ends at once, with `Closed` for every
    /// destination that was still awaited.
    pub fn poll_all(&mut self, addr: Addr, fanout: &mut Fanout<M>) -> (all: Option<
        Vec<Resolved<M>>,
    >)
        requires
            old(self).inv(),
        ensures
            final(self).inv(),
            final(self)@ == old(self)@.polled_all(addr, old(fanout)@),
            all matches Some(outcomes) ==> outcomes@.len() == old(fanout)@.expected() && final(
                fanout)@ == (FanoutModel::<M> { pending: Seq::empty(), outcomes: Seq::empty() }),
            !old(self)@.is_live(addr) ==> (all matches Some(outcomes) && outcomes@ == old(
                fanout,
            )@.closed_outcomes()),
            old(self)@.is_live(addr) ==> (match all {
                Some(outcomes) => outcomes@ == old(fanout)@.sweep(
                    old(self)@.requests_of(addr),
                    old(self)@.groups[old(self)@.index_of(addr)].actor(addr).refuses_sends(),
                ).outcomes,
                None => final(fanout)@ == old(fanout)@.sweep(
                    old(self)@.requests_of(addr),
                    old(self)@.groups[old(self)@.index_of(addr)].actor(addr).refuses_sends(),
                ) && final(fanout)@.pending.len() > 0,
            }),
    {
        match self.group_index(addr) {
            None => Some(fanout.close()),
            Some(index) => {
                let mut group = self.take_group(index);
                let all = group.poll_all(addr, fanout);
                proof {
                    lemma_evolution_keeps_number(old(self)@.groups[index as int], group@);
                }
                self.put_group(index, group);
                assert(self@.groups =~= old(self)@.polled_all(addr, old(fanout)@).groups);
                all
            },
        }
    }
}

/// Where no identifier is left, or the requester is gone, registering a
/// request changes nothing.
pub proof fn lemma_allocate_without_id<M>(system: SystemModel<M>, addr: Addr)
    requires
        system.fresh_id(addr) is None,
    ensures
        system.allocate(addr) == system,
{
    if system.is_live(addr) {
        let group = system.groups[system.index_of(addr)];
        let actor = group.actor(addr);
        assert(actor.with_requests(actor.requests.allocate()) == actor);
        assert(group.with_actor(addr, actor).slots =~= group.slots);
        assert(system.with_group(addr, group).groups =~= system.groups);
    }
}

/// A group keeps its number through its evolution.
pub proof fn lemma_evolution_keeps_number<M>(before: GroupModel<M>, after: GroupModel<M>)
    requires
        before.evolves_to(after),
    ensures
        after.group_no == before.group_no,
{
}

} // verus!
