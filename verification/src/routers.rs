//! Routing: which children of a group get an envelope.

use vstd::prelude::*;
use crate::envelope::Envelope;

verus! {

/// What a router decides for one envelope.
#[derive(Debug)]
pub enum Outcome {
    /// To the one child with this key, which is spawned if absent.
    Unicast(u64),
    /// To the child of each listed key, spawned as needed.
    Multicast(Vec<u64>),
    /// To every child that is alive now. Nobody is spawned.
    Broadcast,
    /// To nobody.
    Discard,
    /// Whatever the group does by default.
    Default,
}

/// What a group does with an envelope whose outcome is `Default`.
#[derive(Clone, Copy, PartialEq, Eq, Structural, Debug)]
pub enum Fallback {
    Discard,
    Broadcast,
}

/// The decision of a router, with `Default` resolved and keys as a sequence.
pub enum Decision {
    Unicast(u64),
    Multicast(Seq<u64>),
    Broadcast,
    Discard,
}

impl Outcome {
    /// The decision that this outcome stands for in a group with the default
    /// `fallback`.
    pub open spec fn decide(self, fallback: Fallback) -> Decision {
        match self {
            Outcome::Unicast(key) => Decision::Unicast(key),
            Outcome::Multicast(keys) => Decision::Multicast(keys@),
            Outcome::Broadcast => Decision::Broadcast,
            Outcome::Discard => Decision::Discard,
            Outcome::Default => match fallback {
                Fallback::Discard => Decision::Discard,
                Fallback::Broadcast => Decision::Broadcast,
            },
        }
    }
}

/// A router that maps each envelope to an outcome by a function. The
/// function runs on the sending side, so it must neither block nor wait.
pub struct MapRouter<F> {
    map: F,
}

impl<F> MapRouter<F> {
    /// The routing function.
    pub closed spec fn map(&self) -> F {
        self.map
    }

    pub fn new(map: F) -> (router: MapRouter<F>)
        ensures
            router.map() == map,
    {
        MapRouter { map }
    }

    /// The outcome of the routing function for `envelope`.
    pub fn route<M>(&self, envelope: &Envelope<M>) -> (outcome: Outcome) where
        F: Fn(&Envelope<M>) -> Outcome,

        requires
            call_requires(self.map(), (envelope,)),
        ensures
            call_ensures(self.map(), (envelope,), outcome),
    {
        (self.map)(envelope)
    }
}

} // verus!
