//! The static graph of actor groups and the routes between them.
//!
//! Groups are numbered from one in the order of their declaration, so that
//! no group has the reserved null address. A route leads from one group to
//! another and is recorded once. An entrypoint is a group that is started
//! unconditionally; it has no inbound route.

use vstd::prelude::*;
use crate::addr::{lemma_from_parts, Addr};

verus! {

/// One declared group.
#[derive(Debug)]
pub struct ActorGroup {
    pub addr: Addr,
    pub name: String,
    pub is_entrypoint: bool,
    pub is_mounted: bool,
}

/// One route.
#[derive(Clone, Copy, PartialEq, Eq, Structural, Debug)]
pub struct Connection {
    pub from: Addr,
    pub to: Addr,
}

/// The mathematical value of one declared group.
pub struct ActorGroupModel {
    pub addr: Addr,
    pub name: Seq<char>,
    pub is_entrypoint: bool,
    pub is_mounted: bool,
}

impl View for ActorGroup {
    type V = ActorGroupModel;

    open spec fn view(&self) -> ActorGroupModel {
        ActorGroupModel {
            addr: self.addr,
            name: self.name@,
            is_entrypoint: self.is_entrypoint,
            is_mounted: self.is_mounted,
        }
    }
}

/// The address of the group that was declared as number `index`, counting
/// from zero.
pub open spec fn group_addr(index: int) -> Addr {
    Addr::spec_from_parts((index + 1) as u16, 0, 0)
}

/// The mathematical value of a topology.
pub struct TopologyModel {
    pub groups: Seq<ActorGroupModel>,
    pub connections: Seq<Connection>,
}

impl TopologyModel {
    /// Whether `addr` is the address of a declared group.
    pub open spec fn has_group(self, addr: Addr) -> bool {
        exists|i: int| 0 <= i < self.groups.len() && #[trigger] self.groups[i].addr == addr
    }

    /// Whether `addr` is the address of an entrypoint.
    pub open spec fn is_entrypoint(self, addr: Addr) -> bool {
        exists|i: int|
            0 <= i < self.groups.len() && #[trigger] self.groups[i].addr == addr
                && self.groups[i].is_entrypoint
    }

    /// Whether some route leads to `addr`.
    pub open spec fn has_inbound(self, addr: Addr) -> bool {
        exists|i: int| 0 <= i < self.connections.len() && (#[trigger] self.connections[i]).to == addr
    }

    pub open spec fn wf(self) -> bool {
        &&& self.groups.len() <= u16::MAX
        &&& forall|i: int| 0 <= i < self.groups.len() ==> (#[trigger] self.groups[i]).addr == group_addr(i)
        &&& forall|i: int|
            0 <= i < self.connections.len() ==> self.has_group((#[trigger] self.connections[i]).from)
                && self.has_group(self.connections[i].to) && !self.is_entrypoint(
                self.connections[i].to,
            )
        &&& self.connections.no_duplicates()
    }

    /// Whether the route from `from` to `to` can be added: both are
    /// declared groups, and `to` is no entrypoint.
    pub open spec fn can_route(self, from: Addr, to: Addr) -> bool {
        self.has_group(from) && self.has_group(to) && !self.is_entrypoint(to)
    }

    /// The topology after the route from `from` to `to` was asked for.
    pub open spec fn route(self, from: Addr, to: Addr) -> Self {
        if self.can_route(from, to) && !self.connections.contains(Connection { from, to }) {
            TopologyModel { connections: self.connections.push(Connection { from, to }), ..self }
        } else {
            self
        }
    }

    /// The groups that `from` has a route to, in the order of declaration of
    /// the routes, among the first `upto` routes.
    pub open spec fn destinations(self, from: Addr, upto: int) -> Seq<Addr>
        decreases upto,
    {
        if upto <= 0 {
            Seq::empty()
        } else {
            self.destinations(from, upto - 1) + (if self.connections[upto - 1].from == from {
                seq![self.connections[upto - 1].to]
            } else {
                Seq::empty()
            })
        }
    }

    /// The entrypoints among the first `upto` groups, in the order of
    /// declaration.
    pub open spec fn entrypoints(self, upto: int) -> Seq<Addr>
        decreases upto,
    {
        if upto <= 0 {
            Seq::empty()
        } else {
            self.entrypoints(upto - 1) + (if self.groups[upto - 1].is_entrypoint {
                seq![self.groups[upto - 1].addr]
            } else {
                Seq::empty()
            })
        }
    }
}

/// Groups are told apart by their addresses, and none has the null address.
pub proof fn lemma_group_addrs_distinct(topology: TopologyModel, i: int, j: int)
    requires
        topology.wf(),
        0 <= i < topology.groups.len(),
        0 <= j < topology.groups.len(),
    ensures
        topology.groups[i].addr == topology.groups[j].addr ==> i == j,
        !topology.groups[i].addr.spec_is_null(),
        topology.groups[i].addr.spec_group_slot() == i + 1,
{
    lemma_from_parts((i + 1) as u16, 0, 0);
    lemma_from_parts((j + 1) as u16, 0, 0);
}

/// No route leads to an entrypoint.
pub proof fn lemma_entrypoint_has_no_inbound(topology: TopologyModel, addr: Addr)
    requires
        topology.wf(),
        topology.is_entrypoint(addr),
    ensures
        !topology.has_inbound(addr),
{
}

/// A handle to one declared group of a topology.
#[derive(Clone, Copy, PartialEq, Eq, Structural, Debug)]
pub struct GroupHandle {
    addr: Addr,
}

/// The groups of a system and the routes between them.
#[derive(Debug)]
pub struct Topology {
    groups: Vec<ActorGroup>,
    connections: Vec<Connection>,
}

impl View for Topology {
    type V = TopologyModel;

    closed spec fn view(&self) -> TopologyModel {
        TopologyModel {
            groups: self.groups@.map_values(|group: ActorGroup| group@),
            connections: self.connections@,
        }
    }
}

impl GroupHandle {
    pub closed spec fn spec_addr(&self) -> Addr {
        self.addr
    }

    /// The address of the group.
    #[verifier::when_used_as_spec(spec_addr)]
    pub fn addr(&self) -> (addr: Addr)
        ensures
            addr == self.spec_addr(),
    {
        self.addr
    }

    /// Marks the group as an entrypoint. A group that is not declared in
    /// `topology`, or that a route leads to, stays as it is.
    pub fn entrypoint(self, topology: &mut Topology) -> (handle: GroupHandle)
        requires
            old(topology).inv(),
        ensures
            final(topology).inv(),
            handle == self,
            final(topology)@ == old(topology)@.mark(
                self.spec_addr(),
                !old(topology)@.has_inbound(self.spec_addr()),
                false,
            ),
    {
        let entrypoint = !topology.has_inbound(self.addr);
        topology.mark(self.addr, entrypoint, false);
        self
    }

    /// Notes that the group got its schema. A group that is not declared in
    /// `topology` stays as it is.
    pub fn mount(&self, topology: &mut Topology)
        requires
            old(topology).inv(),
        ensures
            final(topology).inv(),
            final(topology)@ == old(topology)@.mark(self.spec_addr(), false, true),
    {
        topology.mark(self.addr, false, true);
    }

    /// Adds the route from this group to `other`, unless it is there
    /// already. Says whether the route is there now: it is refused if one of
    /// the groups is not declared in `topology` or `other` is an entrypoint.
    pub fn route_all_to(&self, other: &GroupHandle, topology: &mut Topology) -> (routed: bool)
        requires
            old(topology).inv(),
        ensures
            final(topology).inv(),
            final(topology)@ == old(topology)@.route(self.spec_addr(), other.spec_addr()),
            routed == old(topology)@.can_route(self.spec_addr(), other.spec_addr()),
            routed == final(topology)@.connections.contains(
                Connection { from: self.spec_addr(), to: other.spec_addr() },
            ),
    {
        topology.add_route(self.addr, other.addr)
    }
}

impl TopologyModel {
    /// The topology with the marks of the group at `addr` raised as asked.
    pub open spec fn mark(self, addr: Addr, entrypoint: bool, mounted: bool) -> Self {
        TopologyModel {
            groups: Seq::new(
                self.groups.len(),
                |i: int|
                    if self.groups[i].addr == addr {
                        ActorGroupModel {
                            is_entrypoint: self.groups[i].is_entrypoint || entrypoint,
                            is_mounted: self.groups[i].is_mounted || mounted,
                            ..self.groups[i]
                        }
                    } else {
                        self.groups[i]
                    },
            ),
            ..self
        }
    }

    /// The topology after a group with the given name was declared.
    pub open spec fn declare(self, name: Seq<char>) -> Self {
        TopologyModel {
            groups: self.groups.push(
                ActorGroupModel {
                    addr: group_addr(self.groups.len() as int),
                    name,
                    is_entrypoint: false,
                    is_mounted: false,
                },
            ),
            ..self
        }
    }
}

impl Topology {
    /// Holds of every topology that this module hands out.
    pub open spec fn inv(&self) -> bool {
        self@.wf()
    }

    /// A topology without groups.
    pub fn empty() -> (topology: Topology)
        ensures
            topology.inv(),
            topology@ == (TopologyModel { groups: Seq::empty(), connections: Seq::empty() }),
    {
        let topology = Topology { groups: Vec::new(), connections: Vec::new() };
        assert(topology@.groups =~= Seq::empty());
        topology
    }

    /// Declares a group with the given name and returns a handle to it.
    /// Fails only when the group numbers have run out.
    pub fn local(&mut self, name: &str) -> (handle: Option<GroupHandle>)
        requires
            old(self).inv(),
        ensures
            final(self).inv(),
            match handle {
                Some(handle) => old(self)@.groups.len() < u16::MAX && final(self)@ == old(
                    self,
                )@.declare(name@) && handle.spec_addr() == group_addr(
                    old(self)@.groups.len() as int,
                ),
                None => old(self)@.groups.len() == u16::MAX && final(self)@ == old(self)@,
            },
    {
        assert(self@.groups.len() == self.groups@.len());
        if self.groups.len() >= u16::MAX as usize {
            return None;
        }
        let group_no: u16 = (self.groups.len() + 1) as u16;
        let addr = Addr::from_parts(group_no, 0, 0);
        let group = ActorGroup {
            addr,
            name: name.to_owned(),
            is_entrypoint: false,
            is_mounted: false,
        };
        let ghost declared = group@;
        self.groups.push(group);
        proof {
            let before = old(self)@;
            let after = before.declare(name@);
            assert(self@.groups =~= before.groups.push(declared));
            assert forall|i: int| 0 <= i < after.connections.len() implies after.has_group(
                (#[trigger] after.connections[i]).from,
            ) && after.has_group(after.connections[i].to) && !after.is_entrypoint(
                after.connections[i].to,
            ) by {
                let c = before.connections[i];
                assert(before.has_group(c.from) && before.has_group(c.to));
                let f = choose|k: int| 0 <= k < before.groups.len() && #[trigger] before.groups[k].addr == c.from;
                assert(after.groups[f].addr == c.from);
                let t = choose|k: int| 0 <= k < before.groups.len() && #[trigger] before.groups[k].addr == c.to;
                assert(after.groups[t].addr == c.to);
                if after.is_entrypoint(c.to) {
                    let e = choose|k: int|
                        0 <= k < after.groups.len() && #[trigger] after.groups[k].addr == c.to
                            && after.groups[k].is_entrypoint;
                    assert(e < before.groups.len());
                    assert(before.groups[e].addr == c.to && before.groups[e].is_entrypoint);
                    assert(before.is_entrypoint(c.to));
                }
            }
        }
        Some(GroupHandle { addr })
    }

    /// The index of the group with address `addr`, if it is declared.
    fn index_of(&self, addr: Addr) -> (found: Option<usize>)
        requires
            self.inv(),
        ensures
            match found {
                Some(index) => index < self@.groups.len() && self@.groups[index as int].addr == addr,
                None => !self@.has_group(addr),
            },
    {
        assert(self@.groups.len() == self.groups@.len());
        let mut i: usize = 0;
        while i < self.groups.len()
            invariant
                i <= self.groups.len(),
                self@.groups.len() == self.groups@.len(),
                forall|j: int| 0 <= j < i ==> (#[trigger] self@.groups[j]).addr != addr,
            decreases self.groups.len() - i,
        {
            if self.groups[i].addr == addr {
                return Some(i);
            }
            i += 1;
        }
        None
    }

    /// Whether `addr` is the address of a declared group.
    pub fn has_group(&self, addr: Addr) -> (found: bool)
        requires
            self.inv(),
        ensures
            found == self@.has_group(addr),
    {
        self.index_of(addr).is_some()
    }

    /// Whether some route leads to `addr`.
    pub fn has_inbound(&self, addr: Addr) -> (found: bool)
        ensures
            found == self@.has_inbound(addr),
    {
        let mut i: usize = 0;
        while i < self.connections.len()
            invariant
                i <= self.connections.len(),
                self@.connections == self.connections@,
                forall|j: int| 0 <= j < i ==> (#[trigger] self@.connections[j]).to != addr,
            decreases self.connections.len() - i,
        {
            if self.connections[i].to == addr {
                return true;
            }
            i += 1;
        }
        false
    }

    /// Whether `addr` is the address of an entrypoint.
    pub fn is_entrypoint(&self, addr: Addr) -> (found: bool)
        requires
            self.inv(),
        ensures
            found == self@.is_entrypoint(addr),
    {
        match self.index_of(addr) {
            Some(index) => {
                proof {
                    if self@.is_entrypoint(addr) {
                        let e = choose|k: int|
                            0 <= k < self@.groups.len() && #[trigger] self@.groups[k].addr == addr
                                && self@.groups[k].is_entrypoint;
                        lemma_group_addrs_distinct(self@, e, index as int);
                    }
                }
                self.groups[index].is_entrypoint
            },
            None => false,
        }
    }

    fn mark(&mut self, addr: Addr, entrypoint: bool, mounted: bool)
        requires
            old(self).inv(),
            entrypoint ==> !old(self)@.has_inbound(addr),
        ensures
            final(self).inv(),
            final(self)@ == old(self)@.mark(addr, entrypoint, mounted),
    {
        match self.index_of(addr) {
            None => {
                assert(self@.groups =~= old(self)@.mark(addr, entrypoint, mounted).groups);
            },
            Some(index) => {
                let group = &self.groups[index];
                let marked = ActorGroup {
                    addr: group.addr,
                    name: group.name.clone(),
                    is_entrypoint: group.is_entrypoint || entrypoint,
                    is_mounted: group.is_mounted || mounted,
                };
                self.groups.set(index, marked);
                proof {
                    let before = old(self)@;
                    let after = before.mark(addr, entrypoint, mounted);
                    assert forall|i: int| 0 <= i < before.groups.len() implies (
                    #[trigger] self@.groups[i]) == after.groups[i] by {
                        if i != index {
                            lemma_group_addrs_distinct(before, i, index as int);
                        }
                    }
                    assert(self@.groups =~= after.groups);
                    assert forall|i: int| 0 <= i < after.connections.len() implies after.has_group(
                        (#[trigger] after.connections[i]).from,
                    ) && after.has_group(after.connections[i].to) && !after.is_entrypoint(
                        after.connections[i].to,
                    ) by {
                        let c = before.connections[i];
                        assert(before.has_group(c.from) && before.has_group(c.to));
                        let f = choose|k: int|
                            0 <= k < before.groups.len() && #[trigger] before.groups[k].addr == c.from;
                        assert(after.groups[f].addr == c.from);
                        let t = choose|k: int|
                            0 <= k < before.groups.len() && #[trigger] before.groups[k].addr == c.to;
                        assert(after.groups[t].addr == c.to);
                        if after.is_entrypoint(c.to) {
                            let e = choose|k: int|
                                0 <= k < after.groups.len() && #[trigger] after.groups[k].addr == c.to
                                    && after.groups[k].is_entrypoint;
                            if before.groups[e].is_entrypoint {
                                assert(before.groups[e].addr == c.to);
                                assert(before.is_entrypoint(c.to));
                            } else {
                                assert(before.has_inbound(addr));
                            }
                        }
                    }
                }
            },
        }
    }

    fn add_route(&mut self, from: Addr, to: Addr) -> (routed: bool)
        requires
            old(self).inv(),
        ensures
            final(self).inv(),
            final(self)@ == old(self)@.route(from, to),
            routed == old(self)@.can_route(from, to),
            routed == final(self)@.connections.contains(Connection { from, to }),
    {
        let wanted = Connection { from, to };
        proof {
            if self@.connections.contains(wanted) {
                let i = choose|i: int| 0 <= i < self@.connections.len() && self@.connections[i] == wanted;
                assert(self@.has_group(self@.connections[i].from));
            }
        }
        if !self.has_group(from) || !self.has_group(to) || self.is_entrypoint(to) {
            return false;
        }
        let mut i: usize = 0;
        while i < self.connections.len()
            invariant
                i <= self.connections.len(),
                self.inv(),
                self@ == old(self)@,
                self@.can_route(from, to),
                wanted == (Connection { from, to }),
                self@.connections == self.connections@,
                forall|j: int| 0 <= j < i ==> (#[trigger] self.connections@[j]) != wanted,
            decreases self.connections.len() - i,
        {
            let connection = self.connections[i];
            if connection.from == from && connection.to == to {
                assert(self@.connections[i as int] == wanted);
                return true;
            }
            assert(self.connections@[i as int] != wanted);
            i += 1;
        }
        assert(!self@.connections.contains(wanted));
        self.connections.push(wanted);
        proof {
            assert(self@.groups =~= old(self)@.groups);
            assert(self@.connections =~= old(self)@.connections.push(wanted));
            assert(self@.connections[old(self)@.connections.len() as int] == wanted);
            let after = self@;
            let before = old(self)@;
            assert forall|k: int| 0 <= k < after.connections.len() implies after.has_group(
                (#[trigger] after.connections[k]).from,
            ) && after.has_group(after.connections[k].to) && !after.is_entrypoint(
                after.connections[k].to,
            ) by {
                if k < before.connections.len() {
                    assert(after.connections[k] == before.connections[k]);
                }
            }
        }
        true
    }

    /// The number of declared groups.
    pub fn group_count(&self) -> (count: usize)
        requires
            self.inv(),
        ensures
            count == self@.groups.len(),
            count <= u16::MAX,
    {
        assert(self@.groups.len() == self.groups@.len());
        self.groups.len()
    }

    /// A topology with the same groups and routes.
    pub fn duplicate(&self) -> (copy: Topology)
        requires
            self.inv(),
        ensures
            copy.inv(),
            copy@ == self@,
    {
        let copy = Topology { groups: self.actor_groups(), connections: self.connections() };
        assert(copy@.groups =~= self@.groups);
        copy
    }

    /// The declared groups, in the order of declaration.
    pub fn actor_groups(&self) -> (groups: Vec<ActorGroup>)
        ensures
            groups@.map_values(|group: ActorGroup| group@) == self@.groups,
    {
        let mut groups: Vec<ActorGroup> = Vec::new();
        let mut i: usize = 0;
        while i < self.groups.len()
            invariant
                i <= self.groups.len(),
                groups@.len() == i,
                forall|j: int| 0 <= j < i ==> (#[trigger] groups@[j])@ == self.groups@[j]@,
            decreases self.groups.len() - i,
        {
            let group = &self.groups[i];
            groups.push(
                ActorGroup {
                    addr: group.addr,
                    name: group.name.clone(),
                    is_entrypoint: group.is_entrypoint,
                    is_mounted: group.is_mounted,
                },
            );
            i += 1;
        }
        assert(groups@.map_values(|group: ActorGroup| group@) =~= self@.groups);
        groups
    }

    /// The routes, in the order of declaration.
    pub fn connections(&self) -> (connections: Vec<Connection>)
        ensures
            connections@ == self@.connections,
    {
        let mut connections: Vec<Connection> = Vec::new();
        let mut i: usize = 0;
        while i < self.connections.len()
            invariant
                i <= self.connections.len(),
                connections@ == self.connections@.take(i as int),
            decreases self.connections.len() - i,
        {
            connections.push(self.connections[i]);
            assert(connections@ =~= self.connections@.take(i as int + 1));
            i += 1;
        }
        assert(connections@ =~= self.connections@);
        connections
    }

    /// The groups that `from` has a route to, in the order of declaration of
    /// the routes.
    pub fn destinations(&self, from: Addr) -> (destinations: Vec<Addr>)
        ensures
            destinations@ == self@.destinations(from, self@.connections.len() as int),
    {
        let mut destinations: Vec<Addr> = Vec::new();
        let mut i: usize = 0;
        assert(destinations@ =~= self@.destinations(from, 0));
        while i < self.connections.len()
            invariant
                i <= self.connections.len(),
                self@.connections == self.connections@,
                destinations@ == self@.destinations(from, i as int),
            decreases self.connections.len() - i,
        {
            if self.connections[i].from == from {
                destinations.push(self.connections[i].to);
            }
            assert(destinations@ =~= self@.destinations(from, i as int + 1));
            i += 1;
        }
        destinations
    }

    /// The entrypoints, in the order of declaration.
    pub fn entrypoints(&self) -> (entrypoints: Vec<Addr>)
        ensures
            entrypoints@ == self@.entrypoints(self@.groups.len() as int),
    {
        let mut entrypoints: Vec<Addr> = Vec::new();
        let mut i: usize = 0;
        assert(entrypoints@ =~= self@.entrypoints(0));
        assert(self@.groups.len() == self.groups@.len());
        while i < self.groups.len()
            invariant
                i <= self.groups.len(),
                self@.groups.len() == self.groups@.len(),
                entrypoints@ == self@.entrypoints(i as int),
            decreases self.groups.len() - i,
        {
            if self.groups[i].is_entrypoint {
                entrypoints.push(self.groups[i].addr);
            }
            assert(entrypoints@ =~= self@.entrypoints(i as int + 1));
            i += 1;
        }
        entrypoints
    }
}

} // verus!
