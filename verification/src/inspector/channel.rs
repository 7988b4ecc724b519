//! A stream of updates of one kind to the clients that subscribed to it.
//!
//! A client stays subscribed while it takes what it is sent. A client that
//! takes an update has its next heartbeat put off by one period; one that
//! does not is dropped, from the channel and from the listeners.

use vstd::prelude::*;
use vstd::std_specs::iter::IteratorSpec;
use std::collections::BTreeSet;
use crate::inspector::api::Update;
use crate::inspector::values::errors::InspectorError;
use crate::inspector::values::listener::{
    canonical, listeners_get, listeners_get_mut, listeners_of, listeners_remove, push_update,
    slot_key, Listener, ListenerKey, ListenerMap,
};

verus! {

broadcast use {vstd::std_specs::btree::group_btree_axioms, vstd::laws_cmp::group_laws_cmp};

/// The subscribers that are left of `keys` once each was offered an update
/// and those of `takers` took it: the takers that are listeners.
pub open spec fn kept_by(keys: Set<u64>, listeners: Map<u64, Listener>, takers: Set<u64>) -> Set<
    u64,
> {
    Set::new(
        |key: u64| keys.contains(key) && listeners.contains_key(key) && takers.contains(key),
    )
}

/// The listeners once each subscriber of `keys` was offered an update at
/// `now` and those of `takers` took it: a subscriber that took it has its
/// heartbeat put off by `period`, one that did not is gone, and a listener
/// that is not subscribed is as it was.
pub open spec fn listeners_after(
    keys: Set<u64>,
    listeners: Map<u64, Listener>,
    takers: Set<u64>,
    now: u64,
    period: u64,
) -> Map<u64, Listener> {
    Map::new(
        |key: u64| listeners.contains_key(key) && (keys.contains(key) ==> takers.contains(key)),
        |key: u64|
            if keys.contains(key) {
                listeners[key].postponed(now, period)
            } else {
                listeners[key]
            },
    )
}

/// The subscribers of one kind of update.
pub struct Channel {
    heartbeat_period: u64,
    listeners_keys: BTreeSet<u64>,
}

impl Channel {
    /// The keys of the subscribers.
    pub closed spec fn keys(&self) -> Set<u64> {
        self.listeners_keys@
    }

    /// By how much a delivered update puts the next heartbeat off.
    pub closed spec fn period(&self) -> u64 {
        self.heartbeat_period
    }

    /// Every key is kept as the slot map reads it.
    pub open spec fn inv(&self) -> bool {
        forall|key: u64| #[trigger] self.keys().contains(key) ==> slot_key(key) == key
    }

    /// A channel without subscribers.
    pub fn new(heartbeat_period: u64) -> (channel: Channel)
        ensures
            channel.inv(),
            channel.keys() == Set::<u64>::empty(),
            channel.period() == heartbeat_period,
    {
        Channel { heartbeat_period, listeners_keys: BTreeSet::new() }
    }

    /// Subscribes the listener with the given key.
    pub fn subscribe(&mut self, key: ListenerKey)
        requires
            old(self).inv(),
        ensures
            final(self).inv(),
            final(self).keys() == old(self).keys().insert(slot_key(key)),
            final(self).period() == old(self).period(),
    {
        let read = canonical(key);
        self.listeners_keys.insert(read);
        assert(self.keys() == old(self).keys().insert(read));
        assert forall|other: u64| #[trigger] self.keys().contains(other) implies slot_key(other)
            == other by {
            if other != read {
                assert(old(self).keys().contains(other));
            }
        }
    }

    /// The number of subscribers.
    pub fn len(&self) -> (len: usize)
        ensures
            len == self.keys().len(),
    {
        self.listeners_keys.len()
    }

    /// Whether nobody is subscribed.
    pub fn is_empty(&self) -> (empty: bool)
        ensures
            empty == (self.keys().len() == 0),
    {
        self.listeners_keys.len() == 0
    }

    /// The keys of the subscribers, each once.
    pub fn subscribers(&self) -> (keys: Vec<ListenerKey>)
        ensures
            keys@.to_set() == self.keys(),
            keys@.no_duplicates(),
    {
        let mut keys: Vec<u64> = Vec::new();
        for key in iter: self.listeners_keys.iter()
            invariant
                keys@ == iter.seq().take(iter.index()).unref(),
        {
            keys.push(*key);
        }
        proof {
            let all = self.listeners_keys.iter().remaining();
            assert(all.take(all.len() as int) =~= all);
            assert(keys@ =~= all.unref());
        }
        keys
    }

    /// Does what follows an offer to the subscriber with the given key. If
    /// the offer was taken and the listener is there, the subscriber stays
    /// and its next heartbeat is put off to one period after `now`.
    /// Otherwise the subscriber is dropped, from the channel and from the
    /// listeners. Says whether the subscriber stays.
    pub fn settle(&mut self, key: ListenerKey, taken: bool, listeners: &mut ListenerMap, now: u64) -> (kept:
        bool)
        requires
            old(self).inv(),
        ensures
            final(self).inv(),
            final(self).period() == old(self).period(),
            kept == (taken && listeners_of(*old(listeners)).contains_key(slot_key(key))),
            kept ==> final(self).keys() == old(self).keys() && listeners_of(*final(listeners))
                == listeners_of(*old(listeners)).insert(
                slot_key(key),
                listeners_of(*old(listeners))[slot_key(key)].postponed(now, old(self).period()),
            ),
            !kept ==> final(self).keys() == old(self).keys().remove(key) && listeners_of(
                *final(listeners),
            ) == listeners_of(*old(listeners)).remove(slot_key(key)),
    {
        if taken {
            match listeners_get_mut(listeners, key) {
                Some(listener) => {
                    listener.postpone_heartbeat(now, self.heartbeat_period);
                    return true;
                },
                None => {},
            }
        }
        self.listeners_keys.remove(&key);
        listeners_remove(listeners, key);
        assert forall|other: u64| #[trigger] self.keys().contains(other) implies slot_key(other)
            == other by {
            assert(old(self).keys().contains(other));
        }
        false
    }

    /// Offers `update` to every subscriber. Whether a subscriber takes it is
    /// up to the client, so the outcome is stated for whatever the clients
    /// did: the subscribers that remain are exactly those that took the
    /// update, and each of them has its next heartbeat put off to one period
    /// after `now`; every other subscriber is gone from the channel and
    /// from the listeners; listeners that were not subscribed here are
    /// untouched. The call succeeds exactly when someone took the update.
    pub fn send(&mut self, update: &Update, listeners: &mut ListenerMap, now: u64) -> (result:
        Result<(), InspectorError>)
        requires
            old(self).inv(),
        ensures
            final(self).inv(),
            final(self).period() == old(self).period(),
            final(self).keys().subset_of(old(self).keys()),
            forall|key: u64| #[trigger]
                final(self).keys().contains(key) ==> listeners_of(*old(listeners)).contains_key(key)
                    && listeners_of(*final(listeners)).contains_key(key) && listeners_of(
                    *final(listeners),
                )[key] == listeners_of(*old(listeners))[key].postponed(now, old(self).period()),
            forall|key: u64| #[trigger]
                old(self).keys().contains(key) && !final(self).keys().contains(key)
                    ==> !listeners_of(*final(listeners)).contains_key(key),
            forall|key: u64|
                !old(self).keys().contains(key) ==> (#[trigger] listeners_of(
                    *final(listeners),
                ).contains_key(key)) == listeners_of(*old(listeners)).contains_key(key) && (
                listeners_of(*final(listeners)).contains_key(key) ==> listeners_of(
                    *final(listeners),
                )[key] == listeners_of(*old(listeners))[key]),
            result is Ok <==> exists|key: u64| final(self).keys().contains(key),
            result matches Err(error) ==> error.spec_message()
                == "there're no listeners for such updates"@,
            exists|takers: Set<u64>|
                final(self).keys() == kept_by(
                    old(self).keys(),
                    listeners_of(*old(listeners)),
                    takers,
                ) && listeners_of(*final(listeners)) == listeners_after(
                    old(self).keys(),
                    listeners_of(*old(listeners)),
                    takers,
                    now,
                    old(self).period(),
                ),
    {
        let keys = self.subscribers();
        let ghost subscribed = self.keys();
        let ghost before = listeners_of(*listeners);
        let mut is_dry_run = true;
        let mut i: usize = 0;
        while i < keys.len()
            invariant
                i <= keys.len(),
                keys@.no_duplicates(),
                keys@.to_set() == subscribed,
                subscribed == old(self).keys(),
                before == listeners_of(*old(listeners)),
                forall|key: u64| #[trigger] subscribed.contains(key) ==> slot_key(key) == key,
                self.period() == old(self).period(),
                self.keys().subset_of(subscribed),
                forall|j: int|
                    0 <= j < i && self.keys().contains(#[trigger] keys@[j]) ==> before.contains_key(
                        keys@[j],
                    ) && listeners_of(*listeners).contains_key(keys@[j]) && listeners_of(
                        *listeners,
                    )[keys@[j]] == before[keys@[j]].postponed(now, self.period()),
                forall|j: int|
                    0 <= j < i && !self.keys().contains(#[trigger] keys@[j]) ==> !listeners_of(
                        *listeners,
                    ).contains_key(keys@[j]),
                forall|j: int|
                    i <= j < keys@.len() ==> self.keys().contains(#[trigger] keys@[j])
                        && listeners_of(*listeners).contains_key(keys@[j]) == before.contains_key(
                        keys@[j],
                    ) && (before.contains_key(keys@[j]) ==> listeners_of(*listeners)[keys@[j]]
                        == before[keys@[j]]),
                forall|key: u64|
                    !subscribed.contains(key) ==> (#[trigger] listeners_of(*listeners).contains_key(
                        key,
                    )) == before.contains_key(key) && (listeners_of(*listeners).contains_key(key)
                        ==> listeners_of(*listeners)[key] == before[key]),
                is_dry_run <==> forall|j: int| 0 <= j < i ==> !self.keys().contains(#[trigger] keys@[j]),
            decreases keys.len() - i,
        {
            let key = keys[i];
            let ghost held = listeners_of(*listeners);
            let ghost kept = self.keys();
            assert(subscribed.contains(key)) by {
                assert(keys@.to_set().contains(keys@[i as int]));
            }
            let offered = match listeners_get(listeners, key) {
                Some(listener) => push_update(&listener.tx, Ok(update.clone())),
                None => false,
            };
            let taken = self.settle(key, offered, listeners, now);
            if taken {
                is_dry_run = false;
            }
            proof {
                assert forall|j: int| 0 <= j < keys@.len() && j != i implies keys@[j] != key by {}
                assert forall|j: int|
                    0 <= j < i + 1 && self.keys().contains(
                        #[trigger] keys@[j],
                    ) implies before.contains_key(keys@[j]) && listeners_of(
                    *listeners,
                ).contains_key(keys@[j]) && listeners_of(*listeners)[keys@[j]]
                    == before[keys@[j]].postponed(now, self.period()) by {
                    if j < i {
                        assert(kept.contains(keys@[j]));
                    }
                }
                assert forall|j: int| 0 <= j < i + 1 && !self.keys().contains(#[trigger] keys@[j])
                    implies !listeners_of(*listeners).contains_key(keys@[j]) by {
                    if j < i {
                        assert(!kept.contains(keys@[j]));
                    }
                }
                if taken {
                    assert(self.keys().contains(keys@[i as int]));
                } else {
                    assert forall|j: int| 0 <= j < i + 1 implies (!self.keys().contains(
                        #[trigger] keys@[j],
                    ) <==> (j == i || !kept.contains(keys@[j]))) by {}
                }
            }
            i += 1;
        }
        proof {
            assert forall|key: u64| #[trigger] self.keys().contains(key) implies before.contains_key(
                key,
            ) && listeners_of(*listeners).contains_key(key) && listeners_of(*listeners)[key]
                == before[key].postponed(now, self.period()) by {
                assert(keys@.to_set().contains(key));
                let j = choose|j: int| 0 <= j < keys@.len() && keys@[j] == key;
                assert(self.keys().contains(keys@[j]));
            }
            assert forall|key: u64| #[trigger]
                subscribed.contains(key) && !self.keys().contains(key) implies !listeners_of(
                *listeners,
            ).contains_key(key) by {
                assert(keys@.to_set().contains(key));
                let j = choose|j: int| 0 <= j < keys@.len() && keys@[j] == key;
                assert(!self.keys().contains(keys@[j]));
            }
            if !is_dry_run {
                let j = choose|j: int| 0 <= j < i && self.keys().contains(#[trigger] keys@[j]);
                assert(self.keys().contains(keys@[j]));
            } else {
                assert forall|key: u64| !self.keys().contains(key) by {
                    if self.keys().contains(key) {
                        assert(keys@.to_set().contains(key));
                        let j = choose|j: int| 0 <= j < keys@.len() && keys@[j] == key;
                        assert(!self.keys().contains(keys@[j]));
                    }
                }
            }
        }
        proof {
            let takers = self.keys();
            assert(self.keys() =~= kept_by(subscribed, before, takers));
            assert(listeners_of(*listeners) =~= listeners_after(
                subscribed,
                before,
                takers,
                now,
                self.period(),
            ));
        }
        if is_dry_run {
            Err(InspectorError::new("there're no listeners for such updates"))
        } else {
            Ok(())
        }
    }
}

} // verus!
