//! What clients are told.

use vstd::prelude::*;
use crate::inspector::values::errors::UpdateError;
use crate::inspector::values::topology::{TopologyActorGroup, TopologyConnection};
use crate::topology::{ActorGroup, Topology};

verus! {

/// What a client gets: an update, or why there is none.
pub type UpdateResult = Result<Update, UpdateError>;

/// One message to a client.
#[derive(Clone, Debug)]
pub enum Update {
    /// Tells the client that the connection and the system are alive.
    Heartbeat,
    /// The groups and routes of the system.
    TopologyUpdated { groups: Vec<TopologyActorGroup>, connections: Vec<TopologyConnection> },
}

/// The kind of an update: clients subscribe by kind.
#[derive(Clone, Copy, PartialEq, Eq, Structural, Debug, Hash)]
pub enum UpdateKey {
    Heartbeat,
    TopologyUpdated,
}

impl UpdateKey {
    pub open spec fn spec_code(self) -> u64 {
        match self {
            UpdateKey::Heartbeat => 0,
            UpdateKey::TopologyUpdated => 1,
        }
    }

    /// A number for the kind, by which the kinds are ordered.
    #[verifier::when_used_as_spec(spec_code)]
    pub fn code(self) -> (code: u64)
        ensures
            code == self.spec_code(),
    {
        match self {
            UpdateKey::Heartbeat => 0,
            UpdateKey::TopologyUpdated => 1,
        }
    }
}

impl Update {
    pub open spec fn spec_key(&self) -> UpdateKey {
        match self {
            Update::Heartbeat => UpdateKey::Heartbeat,
            Update::TopologyUpdated { .. } => UpdateKey::TopologyUpdated,
        }
    }

    /// The kind of the update.
    #[verifier::when_used_as_spec(spec_key)]
    pub fn key(&self) -> (key: UpdateKey)
        ensures
            key == self.spec_key(),
    {
        match self {
            Update::Heartbeat => UpdateKey::Heartbeat,
            Update::TopologyUpdated { .. } => UpdateKey::TopologyUpdated,
        }
    }

    /// The update that tells the groups and routes of `topology`: every
    /// group with the bits of its address and its name, every route with the
    /// bits of its two addresses, both in the order of declaration.
    pub fn from(topology: &Topology) -> (update: Update)
        ensures
            update matches Update::TopologyUpdated { groups, connections } && {
                &&& groups@.len() == topology@.groups.len()
                &&& forall|i: int|
                    0 <= i < groups@.len() ==> (#[trigger] groups@[i]).addr
                        == topology@.groups[i].addr.bits() && groups@[i].name@
                        == topology@.groups[i].name
                &&& connections@.len() == topology@.connections.len()
                &&& forall|i: int|
                    0 <= i < connections@.len() ==> #[trigger] connections@[i]
                        == (TopologyConnection {
                        from: topology@.connections[i].from.bits(),
                        to: topology@.connections[i].to.bits(),
                    })
            },
    {
        let declared = topology.actor_groups();
        let routes = topology.connections();
        let mut groups: Vec<TopologyActorGroup> = Vec::new();
        let ghost all = declared@;
        assert(all.map_values(|group: ActorGroup| group@) == topology@.groups);
        assert forall|i: int| 0 <= i < all.len() implies (#[trigger] all[i])@
            == topology@.groups[i] by {
            assert(all.map_values(|group: ActorGroup| group@)[i] == all[i]@);
        }
        let mut i: usize = 0;
        while i < declared.len()
            invariant
                i <= declared.len(),
                declared@ == all,
                groups@.len() == i,
                forall|j: int|
                    0 <= j < i ==> (#[trigger] groups@[j]).addr == all[j].addr.bits()
                        && groups@[j].name@ == all[j].name@,
            decreases declared.len() - i,
        {
            let group = &declared[i];
            let copy = ActorGroup {
                addr: group.addr,
                name: group.name.clone(),
                is_entrypoint: group.is_entrypoint,
                is_mounted: group.is_mounted,
            };
            groups.push(TopologyActorGroup::from(copy));
            i += 1;
        }
        let mut connections: Vec<TopologyConnection> = Vec::new();
        let mut k: usize = 0;
        while k < routes.len()
            invariant
                k <= routes.len(),
                connections@.len() == k,
                forall|j: int|
                    0 <= j < k ==> #[trigger] connections@[j] == (TopologyConnection {
                        from: routes@[j].from.bits(),
                        to: routes@[j].to.bits(),
                    }),
            decreases routes.len() - k,
        {
            connections.push(TopologyConnection::from(routes[k]));
            k += 1;
        }
        Update::TopologyUpdated { groups, connections }
    }
}

} // verus!
