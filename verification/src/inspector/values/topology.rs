//! The topology as clients see it.

use vstd::prelude::*;
use crate::topology::{ActorGroup, Connection};

verus! {

/// One group, as clients see it: the bits of its address and its name.
#[derive(Clone, Debug)]
pub struct TopologyActorGroup {
    pub addr: u64,
    pub name: String,
}

/// One route, as clients see it: the bits of the two addresses.
#[derive(Clone, Copy, PartialEq, Eq, Structural, Debug)]
pub struct TopologyConnection {
    pub from: u64,
    pub to: u64,
}

impl TopologyActorGroup {
    pub fn from(val: ActorGroup) -> (group: TopologyActorGroup)
        ensures
            group.addr == val.addr.bits(),
            group.name@ == val.name@,
    {
        TopologyActorGroup { addr: val.addr.into_bits(), name: val.name }
    }
}

impl TopologyConnection {
    pub fn from(val: Connection) -> (connection: TopologyConnection)
        ensures
            connection == (TopologyConnection { from: val.from.bits(), to: val.to.bits() }),
    {
        TopologyConnection { from: val.from.into_bits(), to: val.to.into_bits() }
    }
}

} // verus!
