//! Identifiers of scheduled heartbeats.

use vstd::prelude::*;

verus! {

/// The identifier of one scheduled heartbeat. Zero is an identifier like any
/// other.
#[derive(Clone, Copy, PartialEq, Eq, Structural, Debug)]
pub struct Uid(pub u64);

/// Hands out identifiers in increasing order, starting at zero. After the
/// largest it starts over.
#[derive(Debug)]
pub struct UidGenerator {
    next: u64,
}

impl UidGenerator {
    /// The identifier that is handed out next.
    pub closed spec fn upcoming(&self) -> u64 {
        self.next
    }

    /// The identifier that follows `uid`.
    pub open spec fn following(uid: u64) -> u64 {
        if uid == u64::MAX {
            0
        } else {
            (uid + 1) as u64
        }
    }

    /// The identifier that is handed out next.
    pub fn peek(&self) -> (uid: Uid)
        ensures
            uid == Uid(self.upcoming()),
    {
        Uid(self.next)
    }

    /// Hands out the upcoming identifier.
    pub fn next(&mut self) -> (uid: Uid)
        ensures
            uid == Uid(old(self).upcoming()),
            final(self).upcoming() == Self::following(old(self).upcoming()),
    {
        let next = self.next;
        self.next = next.wrapping_add(1);
        Uid(next)
    }
}

impl Default for UidGenerator {
    fn default() -> (generator: UidGenerator)
        ensures
            generator.upcoming() == 0,
    {
        UidGenerator { next: 0 }
    }
}

} // verus!
