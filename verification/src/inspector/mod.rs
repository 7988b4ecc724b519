//! An actor that tells clients the topology of the system and keeps their
//! connections alive with heartbeats.
//!
//! Every listener has one scheduled heartbeat, filed under an identifier that
//! grows with time, so that the heartbeat that is due first is found first.
//! Sending anything to a listener puts its heartbeat off. A listener that does
//! not take what it is sent is dropped.

pub mod api;
pub mod channel;
pub mod protocol;
pub mod values;

use vstd::prelude::*;
use std::collections::BTreeMap;
use tokio::sync::mpsc::Sender;
use crate::inspector::api::{Update, UpdateKey, UpdateResult};
use crate::inspector::channel::Channel;
use crate::inspector::protocol::{Config, Request, RequestBody};
use crate::inspector::values::errors::InspectorError;
use crate::inspector::values::listener::{
    listeners_get, listeners_get_mut, listeners_insert, listeners_is_empty, listeners_len,
    listeners_new, listeners_of, listeners_remove, push_update, slot_key, Listener, ListenerKey,
    ListenerMap, LISTENERS_MAX,
};
use crate::inspector::values::schedule::first_heartbeat;
use crate::inspector::values::uid::{Uid, UidGenerator};
use crate::time::interval::Interval;
use crate::time::timer::deadline_after;
use crate::topology::Topology;

verus! {

broadcast use {vstd::std_specs::btree::group_btree_axioms, vstd::laws_cmp::group_laws_cmp};

/// The mathematical state of an inspector.
pub struct InspectorModel {
    /// By how much anything sent to a listener puts its heartbeat off.
    pub period: u64,
    /// The identifier of the heartbeat that is scheduled next.
    pub upcoming: u64,
    /// The scheduled heartbeats: the listener's key by the identifier.
    pub heartbeats: Map<u64, u64>,
    /// The listeners by their keys.
    pub listeners: Map<u64, Listener>,
    /// The subscribers of each kind of update that has a channel.
    pub channels: Map<u64, Set<u64>>,
}

impl InspectorModel {
    /// Whether there is a listener for `key`.
    pub open spec fn knows(self, key: u64) -> bool {
        self.listeners.contains_key(slot_key(key))
    }

    /// The state after the heartbeat of the listener at `key` was filed
    /// under the listener's identifier.
    pub open spec fn schedule(self, key: u64) -> Self {
        if self.knows(key) {
            InspectorModel {
                heartbeats: self.heartbeats.insert(
                    self.listeners[slot_key(key)].heartbeat_uid.0,
                    key,
                ),
                ..self
            }
        } else {
            self
        }
    }

    /// Whether an identifier is left to file a heartbeat under. The last
    /// one is never handed out, so that identifiers do not start over.
    pub open spec fn has_identifier(self) -> bool {
        self.upcoming < u64::MAX
    }

    /// Every identifier in use is below the upcoming one: those that
    /// heartbeats are filed under, and those that listeners hold.
    pub open spec fn wf(self) -> bool {
        &&& forall|uid: u64| #[trigger] self.heartbeats.contains_key(uid) ==> uid < self.upcoming
        &&& forall|key: u64| #[trigger]
            self.listeners.contains_key(key) ==> self.listeners[key].heartbeat_uid.0
                < self.upcoming
    }

    /// The state after the heartbeat of the listener at `key` was put off
    /// at `now`: it is due one period later and is filed under a new
    /// identifier. Nothing changes if no identifier is left.
    pub open spec fn postpone(self, key: u64, now: u64) -> Self {
        if self.knows(key) && self.has_identifier() {
            let listener = self.listeners[slot_key(key)];
            InspectorModel {
                upcoming: UidGenerator::following(self.upcoming),
                heartbeats: self.heartbeats.remove(listener.heartbeat_uid.0).insert(
                    self.upcoming,
                    key,
                ),
                listeners: self.listeners.insert(
                    slot_key(key),
                    Listener {
                        heartbeat_at: deadline_after(now, self.period),
                        heartbeat_uid: Uid(self.upcoming),
                        ..listener
                    },
                ),
                ..self
            }
        } else {
            self
        }
    }

    /// The state after something was offered to the listener at `key` at
    /// `now`: if it was taken, the heartbeat is put off, else the listener is
    /// dropped. A listener whose heartbeat cannot be filed any more, for want
    /// of an identifier, is dropped too.
    pub open spec fn settle(self, key: u64, taken: bool, now: u64) -> Self {
        if !self.knows(key) {
            self
        } else if taken && self.has_identifier() {
            self.postpone(key, now)
        } else {
            InspectorModel { listeners: self.listeners.remove(slot_key(key)), ..self }
        }
    }

    /// Whether no heartbeat is filed.
    pub open spec fn is_unscheduled(self) -> bool {
        forall|uid: u64| !self.heartbeats.contains_key(uid)
    }

    /// The identifier of the heartbeat that was filed first: the least one.
    pub open spec fn first_filed(self) -> u64
        recommends
            !self.is_unscheduled(),
    {
        choose|uid: u64|
            self.heartbeats.contains_key(uid) && forall|other: u64|
                self.heartbeats.contains_key(other) ==> uid <= other
    }

    /// The state without the heartbeat that is filed under `uid`.
    pub open spec fn unfile(self, uid: u64) -> Self {
        InspectorModel { heartbeats: self.heartbeats.remove(uid), ..self }
    }

    /// The state after a tick at `now` that looks at `budget` filed
    /// heartbeats at most, where the heartbeats that are offered are taken
    /// or not as `taken` says, in order. The heartbeat that was filed first
    /// is looked at first: if its listener is gone, it is cleared; if it is
    /// not due yet, the tick ends; else it is cleared and a heartbeat is
    /// offered to the listener, which is settled as any offer is.
    pub open spec fn tick(self, now: u64, budget: nat, taken: Seq<bool>) -> Self
        decreases budget,
    {
        if budget == 0 || self.is_unscheduled() {
            self
        } else {
            let uid = self.first_filed();
            let key = self.heartbeats[uid];
            if !self.knows(key) {
                self.unfile(uid).tick(now, (budget - 1) as nat, taken)
            } else if self.listeners[slot_key(key)].heartbeat_at > now {
                self
            } else if taken.len() > 0 {
                self.unfile(uid).settle(key, taken.first(), now).tick(
                    now,
                    (budget - 1) as nat,
                    taken.drop_first(),
                )
            } else {
                self.unfile(uid).settle(key, false, now).tick(now, (budget - 1) as nat, taken)
            }
        }
    }

    /// Whether `after` can be the state after an update of the kind with the
    /// given code was offered, at `now`, to every subscriber of the kind:
    /// the subscribers that remain took it and have their heartbeats put
    /// off; the others are gone, from the channel and from the listeners;
    /// a channel that nobody is left in is removed; all else is as it was.
    pub open spec fn told(self, after: Self, code: u64, now: u64) -> bool {
        &&& after.period == self.period
        &&& after.upcoming == self.upcoming
        &&& after.heartbeats == self.heartbeats
        &&& !self.channels.contains_key(code) ==> after == self
        &&& after.channels.contains_key(code) <==> exists|key: u64|
            after.subscribers(code).contains(key)
        &&& forall|other: u64|
            other != code ==> (#[trigger] after.channels.contains_key(other))
                == self.channels.contains_key(other) && after.subscribers(other)
                == self.subscribers(other)
        &&& after.subscribers(code).subset_of(self.subscribers(code))
        &&& forall|key: u64| #[trigger]
            after.subscribers(code).contains(key) ==> self.listeners.contains_key(key)
                && after.listeners.contains_key(key) && after.listeners[key]
                == self.listeners[key].postponed(now, self.period)
        &&& forall|key: u64| #[trigger]
            self.subscribers(code).contains(key) && !after.subscribers(code).contains(key)
                ==> !after.listeners.contains_key(key)
        &&& forall|key: u64|
            !self.subscribers(code).contains(key) ==> (#[trigger] after.listeners.contains_key(
                key,
            )) == self.listeners.contains_key(key) && (after.listeners.contains_key(key)
                ==> after.listeners[key] == self.listeners[key])
    }

    /// The subscribers of the kind with the given code.
    pub open spec fn subscribers(self, code: u64) -> Set<u64> {
        if self.channels.contains_key(code) {
            self.channels[code]
        } else {
            Set::empty()
        }
    }

    /// The state after a client with the sending end `tx` subscribed to the
    /// kind with the given code at `now` and got the key `key`.
    pub open spec fn subscribe(self, code: u64, tx: Sender<UpdateResult>, now: u64, key: u64) -> Self {
        InspectorModel {
            upcoming: UidGenerator::following(self.upcoming),
            heartbeats: self.heartbeats.insert(self.upcoming, key),
            listeners: self.listeners.insert(
                key,
                Listener {
                    heartbeat_at: deadline_after(now, self.period),
                    heartbeat_uid: Uid(self.upcoming),
                    tx,
                },
            ),
            channels: self.channels.insert(code, self.subscribers(code).insert(key)),
            ..self
        }
    }
}

/// Which offers were taken: one entry per offer, in order.
pub open spec fn taken_of(offers: Seq<Result<(), InspectorError>>) -> Seq<bool> {
    Seq::new(offers.len(), |i: int| offers[i] is Ok)
}

/// How many of the offers were not taken.
pub open spec fn misses(taken: Seq<bool>) -> nat
    decreases taken.len(),
{
    if taken.len() == 0 {
        0
    } else {
        misses(taken.drop_last()) + (if taken.last() {
            0nat
        } else {
            1nat
        })
    }
}

/// A heartbeat that is put off is filed under an identifier that is larger
/// than the one it had and was not in use, so that no heartbeat of another
/// listener is overwritten: every other filed heartbeat stays as it is.
pub proof fn lemma_postpone_files_anew(state: InspectorModel, key: u64, now: u64)
    requires
        state.wf(),
        state.knows(key),
        state.has_identifier(),
    ensures
        state.postpone(key, now).wf(),
        state.postpone(key, now).listeners[slot_key(key)].heartbeat_uid.0 == state.upcoming,
        state.listeners[slot_key(key)].heartbeat_uid.0 < state.upcoming,
        !state.heartbeats.contains_key(state.upcoming),
        forall|uid: u64|
            uid != state.listeners[slot_key(key)].heartbeat_uid.0 && uid != state.upcoming ==> (
            #[trigger] state.postpone(key, now).heartbeats.contains_key(uid))
                == state.heartbeats.contains_key(uid) && (state.heartbeats.contains_key(uid)
                ==> state.postpone(key, now).heartbeats[uid] == state.heartbeats[uid]),
{
    let after = state.postpone(key, now);
    assert forall|other: u64| #[trigger] after.listeners.contains_key(other) implies after.listeners[other].heartbeat_uid.0
        < after.upcoming by {
        if other != slot_key(key) {
            assert(state.listeners.contains_key(other));
        }
    }
    assert forall|uid: u64| #[trigger] after.heartbeats.contains_key(uid) implies uid
        < after.upcoming by {
        if uid != state.upcoming {
            assert(state.heartbeats.contains_key(uid));
        }
    }
}

/// Subscribing files the first heartbeat of the new listener under an
/// identifier that was not in use, and keeps every identifier in use below
/// the upcoming one.
pub proof fn lemma_subscribe_files_anew(
    state: InspectorModel,
    code: u64,
    tx: Sender<UpdateResult>,
    now: u64,
    key: u64,
)
    requires
        state.wf(),
        state.has_identifier(),
    ensures
        state.subscribe(code, tx, now, key).wf(),
        !state.heartbeats.contains_key(state.upcoming),
{
    let after = state.subscribe(code, tx, now, key);
    assert forall|other: u64| #[trigger] after.listeners.contains_key(other) implies after.listeners[other].heartbeat_uid.0
        < after.upcoming by {
        if other != key {
            assert(state.listeners.contains_key(other));
        }
    }
    assert forall|uid: u64| #[trigger] after.heartbeats.contains_key(uid) implies uid
        < after.upcoming by {
        if uid != state.upcoming {
            assert(state.heartbeats.contains_key(uid));
        }
    }
}

/// Settling an offer keeps every identifier in use below the upcoming one.
pub proof fn lemma_settle_wf(state: InspectorModel, key: u64, taken: bool, now: u64)
    requires
        state.wf(),
    ensures
        state.settle(key, taken, now).wf(),
{
    if state.knows(key) && taken && state.has_identifier() {
        lemma_postpone_files_anew(state, key, now);
    }
    let dropped = state.settle(key, false, now);
    assert forall|other: u64| #[trigger] dropped.listeners.contains_key(other) implies dropped.listeners[other].heartbeat_uid.0
        < dropped.upcoming by {
        assert(state.listeners.contains_key(other));
    }
}

/// Filing the heartbeat of a listener under the identifier that the listener
/// holds keeps every identifier in use below the upcoming one.
pub proof fn lemma_schedule_wf(state: InspectorModel, key: u64)
    requires
        state.wf(),
    ensures
        state.schedule(key).wf(),
{
    let filed = state.schedule(key);
    assert forall|uid: u64| #[trigger] filed.heartbeats.contains_key(uid) implies uid
        < filed.upcoming by {
        if state.knows(key) && uid == state.listeners[slot_key(key)].heartbeat_uid.0 {
            assert(state.listeners.contains_key(slot_key(key)));
        } else {
            assert(state.heartbeats.contains_key(uid));
        }
    }
}

/// Clearing a filed heartbeat keeps every identifier in use below the
/// upcoming one.
pub proof fn lemma_unfile_wf(state: InspectorModel, uid: u64)
    requires
        state.wf(),
    ensures
        state.unfile(uid).wf(),
{
    let unfiled = state.unfile(uid);
    assert forall|other: u64| #[trigger] unfiled.heartbeats.contains_key(other) implies other
        < unfiled.upcoming by {
        assert(state.heartbeats.contains_key(other));
    }
}

/// Putting a heartbeat off keeps the listener and its sending end, and
/// leaves one heartbeat filed for it: the new one.
pub proof fn lemma_postpone(state: InspectorModel, key: u64, now: u64)
    requires
        state.knows(key),
        state.has_identifier(),
    ensures
        state.postpone(key, now).knows(key),
        state.postpone(key, now).listeners[slot_key(key)].tx == state.listeners[slot_key(key)].tx,
        state.postpone(key, now).listeners[slot_key(key)].heartbeat_at == deadline_after(
            now,
            state.period,
        ),
        state.postpone(key, now).heartbeats.contains_key(state.upcoming),
        state.postpone(key, now).heartbeats[state.upcoming] == key,
        state.postpone(key, now).schedule(key) == state.postpone(key, now),
{
    let after = state.postpone(key, now);
    assert(after.schedule(key).heartbeats =~= after.heartbeats);
}

/// What the inspector is told.
pub enum InspectorEvent {
    /// A client asks for something.
    Request(Request),
    /// The heartbeat interval ticked.
    HeartbeatTick,
    /// The topology changed.
    TopologyUpdated,
    /// Anything else: it is passed over.
    Other,
}

/// Something that went wrong while an event was handled, for the log.
pub struct Report {
    pub what: &'static str,
    pub error: InspectorError,
}

/// What a group of inspecting actors is made from: the topology that its
/// actors tell.
pub struct InspectorSchema {
    topology: Topology,
}

/// The schema of a group of inspecting actors that tell `topology`.
pub fn new(topology: Topology) -> (schema: InspectorSchema)
    requires
        topology.inv(),
    ensures
        schema.inv(),
        schema.topology() == topology,
{
    InspectorSchema { topology }
}

impl InspectorSchema {
    /// The topology that the actors of the group tell.
    pub closed spec fn topology(&self) -> Topology {
        self.topology
    }

    pub closed spec fn inv(&self) -> bool {
        self.topology.inv()
    }

    /// The state of an actor of the group that starts with `config`: an
    /// inspector of a copy of the topology, without listeners.
    pub fn start(&self, config: &Config) -> (inspector: Inspector)
        requires
            self.inv(),
        ensures
            inspector.inv(),
            inspector.topology()@ == self.topology()@,
            inspector@ == (InspectorModel {
                period: config.heartbeat_period,
                upcoming: 0,
                heartbeats: Map::empty(),
                listeners: Map::empty(),
                channels: Map::empty(),
            }),
    {
        Inspector::new(config, self.topology.duplicate())
    }
}

/// The state of the inspecting actor.
pub struct Inspector {
    channels: BTreeMap<u64, Channel>,
    heartbeat_indexes: UidGenerator,
    heartbeat_period: u64,
    heartbeats: BTreeMap<u64, u64>,
    listeners: ListenerMap,
    topology: Topology,
}

impl View for Inspector {
    type V = InspectorModel;

    closed spec fn view(&self) -> InspectorModel {
        InspectorModel {
            period: self.heartbeat_period,
            upcoming: self.heartbeat_indexes.upcoming(),
            heartbeats: self.heartbeats@,
            listeners: listeners_of(self.listeners),
            channels: Map::new(
                |code: u64| self.channels@.contains_key(code),
                |code: u64| self.channels@[code].keys(),
            ),
        }
    }
}

impl Inspector {
    /// The topology that the inspector tells.
    pub closed spec fn topology(&self) -> Topology {
        self.topology
    }

    /// Holds of every inspector that this module hands out.
    pub closed spec fn inv(&self) -> bool {
        &&& self.topology.inv()
        &&& self@.wf()
        &&& forall|code: u64| #[trigger]
            self.channels@.contains_key(code) ==> self.channels@[code].inv()
                && self.channels@[code].period() == self.heartbeat_period
    }

    /// In every inspector that this module hands out, the identifiers in
    /// use are below the upcoming one.
    pub proof fn lemma_inv(&self)
        requires
            self.inv(),
        ensures
            self@.wf(),
    {
    }

    /// An inspector of `topology` without listeners, with the heartbeat
    /// period of `config`.
    pub fn new(config: &Config, topology: Topology) -> (inspector: Inspector)
        requires
            topology.inv(),
        ensures
            inspector.inv(),
            inspector.topology() == topology,
            inspector@ == (InspectorModel {
                period: config.heartbeat_period,
                upcoming: 0,
                heartbeats: Map::empty(),
                listeners: Map::empty(),
                channels: Map::empty(),
            }),
    {
        let inspector = Inspector {
            channels: BTreeMap::new(),
            heartbeat_indexes: UidGenerator::default(),
            heartbeat_period: config.heartbeat_period,
            heartbeats: BTreeMap::new(),
            listeners: listeners_new(),
            topology,
        };
        assert(inspector@.channels =~= Map::empty());
        inspector
    }

    /// Whether there is no listener.
    pub fn is_idle(&self) -> (idle: bool)
        ensures
            idle == (forall|key: u64| !(#[trigger] self@.listeners.contains_key(key))),
    {
        assert(self@.listeners == listeners_of(self.listeners));
        listeners_is_empty(&self.listeners)
    }

    /// The number of listeners.
    pub fn listener_count(&self) -> (count: usize)
        ensures
            count == self@.listeners.len(),
    {
        listeners_len(&self.listeners)
    }

    /// The number of scheduled heartbeats.
    pub fn scheduled_count(&self) -> (count: usize)
        ensures
            count == self@.heartbeats.len(),
    {
        self.heartbeats.len()
    }

    /// The number of subscribers of the kind `update_key`.
    pub fn subscriber_count(&self, update_key: UpdateKey) -> (count: usize)
        ensures
            count == self@.subscribers(update_key.spec_code()).len(),
    {
        let code = update_key.code();
        match self.channels.get(&code) {
            Some(channel) => channel.len(),
            None => 0,
        }
    }

    /// Files the heartbeat of the listener at `listener_key` under the
    /// listener's identifier.
    pub fn schedule_heartbeat(&mut self, listener_key: ListenerKey) -> (result: Result<
        (),
        InspectorError,
    >)
        requires
            old(self).inv(),
        ensures
            final(self).inv(),
            final(self).topology() == old(self).topology(),
            final(self)@ == old(self)@.schedule(listener_key),
            result is Ok <==> old(self)@.knows(listener_key),
            result matches Err(error) ==> error.spec_message() == "there's no such listener"@,
    {
        let uid = match listeners_get(&self.listeners, listener_key) {
            Some(listener) => listener.heartbeat_uid,
            None => {
                return Err(InspectorError::new("there's no such listener"));
            },
        };
        self.heartbeats.insert(uid.0, listener_key);
        assert(self@.channels =~= old(self)@.channels);
        proof {
            lemma_schedule_wf(old(self)@, listener_key);
        }
        Ok(())
    }

    /// Puts the heartbeat of the listener at `listener_key` off to one
    /// period after `now`, and files it under a new identifier. Fails,
    /// changing nothing, if there is no such listener or no identifier left.
    pub fn postpone_heartbeat(&mut self, listener_key: ListenerKey, now: u64) -> (result: Result<
        (),
        InspectorError,
    >)
        requires
            old(self).inv(),
        ensures
            final(self).inv(),
            final(self).topology() == old(self).topology(),
            final(self)@ == old(self)@.postpone(listener_key, now),
            result is Ok <==> old(self)@.knows(listener_key) && old(self)@.has_identifier(),
            result matches Err(error) ==> error.spec_message() == (if old(self)@.knows(
                listener_key,
            ) {
                "the identifiers have run out"@
            } else {
                "there's no such listener"@
            }),
    {
        if listeners_get(&self.listeners, listener_key).is_none() {
            return Err(InspectorError::new("there's no such listener"));
        }
        if self.heartbeat_indexes.peek().0 == u64::MAX {
            return Err(InspectorError::new("the identifiers have run out"));
        }
        let period = self.heartbeat_period;
        let uid = self.heartbeat_indexes.next();
        match listeners_get_mut(&mut self.listeners, listener_key) {
            Some(listener) => {
                self.heartbeats.remove(&listener.heartbeat_uid.0);
                listener.heartbeat_at = now.saturating_add(period);
                listener.heartbeat_uid = uid;
            },
            None => {},
        }
        self.heartbeats.insert(uid.0, listener_key);
        proof {
            assert(self@.channels =~= old(self)@.channels);
            lemma_postpone_files_anew(old(self)@, listener_key, now);
            assert(self@.heartbeats =~= old(self)@.postpone(listener_key, now).heartbeats);
        }
        Ok(())
    }

    /// Does what follows an offer to the listener at `listener_key`: if the
    /// offer was taken, the heartbeat is put off; if not, the listener is
    /// dropped. A listener whose heartbeat cannot be filed any more, for want
    /// of an identifier, is dropped too.
    pub fn settle_delivery(&mut self, listener_key: ListenerKey, taken: bool, now: u64) -> (result:
        Result<(), InspectorError>)
        requires
            old(self).inv(),
        ensures
            final(self).inv(),
            final(self).topology() == old(self).topology(),
            final(self)@ == old(self)@.settle(listener_key, taken, now),
            result is Ok <==> old(self)@.knows(listener_key) && taken && old(
                self,
            )@.has_identifier(),
            result matches Err(error) ==> error.spec_message() == (if !old(self)@.knows(
                listener_key,
            ) {
                "there's no such listener"@
            } else if !taken {
                "listener doesn't receive"@
            } else {
                "the identifiers have run out"@
            }),
    {
        if listeners_get(&self.listeners, listener_key).is_none() {
            return Err(InspectorError::new("there's no such listener"));
        }
        let exhausted = self.heartbeat_indexes.peek().0 == u64::MAX;
        if !taken || exhausted {
            listeners_remove(&mut self.listeners, listener_key);
            proof {
                assert(self@.channels =~= old(self)@.channels);
                lemma_settle_wf(old(self)@, listener_key, false, now);
            }
            if !taken {
                return Err(InspectorError::new("listener doesn't receive"));
            }
            return Err(InspectorError::new("the identifiers have run out"));
        }
        self.postpone_heartbeat(listener_key, now)
    }

    /// Offers `update` to the listener at `listener_key`. Whether it is
    /// taken is up to the client; what follows either way is what
    /// [`Inspector::settle_delivery`] does. Without such a listener nothing
    /// is offered and nothing changes.
    pub fn send(&mut self, listener_key: ListenerKey, update: Update, now: u64) -> (result: Result<
        (),
        InspectorError,
    >)
        requires
            old(self).inv(),
        ensures
            final(self).inv(),
            final(self).topology() == old(self).topology(),
            final(self)@ == old(self)@.settle(listener_key, result is Ok, now),
            result is Ok ==> old(self)@.knows(listener_key) && old(self)@.has_identifier(),
            result matches Err(error) ==> {
                &&& !old(self)@.knows(listener_key) ==> error.spec_message()
                    == "there's no such listener"@
                &&& old(self)@.knows(listener_key) ==> error.spec_message()
                    == "listener doesn't receive"@ || (!old(self)@.has_identifier()
                    && error.spec_message() == "the identifiers have run out"@)
            },
    {
        let taken = match listeners_get(&self.listeners, listener_key) {
            Some(listener) => push_update(&listener.tx, Ok(update)),
            None => {
                return Err(InspectorError::new("there's no such listener"));
            },
        };
        self.settle_delivery(listener_key, taken, now)
    }

    /// Subscribes a client with the sending end `tx` to updates of the kind
    /// `update_key`: the client becomes a listener with a new key, its first
    /// heartbeat is due one period after `now` and is filed under the
    /// upcoming identifier, and the channel of the kind, which is made if
    /// there is none, gets the key. Fails, changing nothing, only when the
    /// listeners are as many as the map takes or no identifier is left.
    ///
    /// The heartbeat interval would get its period if the listeners were
    /// found empty once the new one is added. They never are, so the interval
    /// is left as it is.
    pub fn subscribe<F>(
        &mut self,
        update_key: UpdateKey,
        tx: Sender<UpdateResult>,
        now: u64,
        interval: &mut Interval<F>,
    ) -> (result: Result<ListenerKey, InspectorError>)
        requires
            old(self).inv(),
        ensures
            final(self).inv(),
            final(self).topology() == old(self).topology(),
            final(interval)@ == old(interval)@,
            final(interval).factory() == old(interval).factory(),
            match result {
                Ok(key) => old(self)@.listeners.len() <= LISTENERS_MAX && old(
                    self,
                )@.has_identifier() && slot_key(key) == key && !old(
                    self,
                )@.listeners.contains_key(key) && final(self)@ == old(self)@.subscribe(
                    update_key.spec_code(),
                    tx,
                    now,
                    key,
                ),
                Err(error) => (old(self)@.listeners.len() > LISTENERS_MAX || !old(
                    self,
                )@.has_identifier()) && final(self)@ == old(self)@ && error.spec_message() == (
                if old(self)@.listeners.len() > LISTENERS_MAX {
                    "there are too many listeners"@
                } else {
                    "the identifiers have run out"@
                }),
            },
    {
        if listeners_len(&self.listeners) > LISTENERS_MAX {
            return Err(InspectorError::new("there are too many listeners"));
        }
        if self.heartbeat_indexes.peek().0 == u64::MAX {
            return Err(InspectorError::new("the identifiers have run out"));
        }
        let code = update_key.code();
        let mut channel = match self.channels.remove(&code) {
            Some(channel) => channel,
            None => Channel::new(self.heartbeat_period),
        };
        let uid = self.heartbeat_indexes.next();
        let listener = Listener::new(tx, now, self.heartbeat_period, uid);
        let listener_key = listeners_insert(&mut self.listeners, listener);
        channel.subscribe(listener_key);
        self.channels.insert(code, channel);
        if listeners_is_empty(&self.listeners) {
            assert(listeners_of(self.listeners).contains_key(listener_key));
            interval.set_period(now, self.heartbeat_period);
        }
        self.heartbeats.insert(uid.0, listener_key);
        proof {
            let wanted = old(self)@.subscribe(code, tx, now, listener_key);
            assert(self@.channels =~= wanted.channels);
            lemma_subscribe_files_anew(old(self)@, code, tx, now, listener_key);
        }
        Ok(listener_key)
    }

    /// Offers `update` to every subscriber of its kind; see
    /// [`Channel::send`]. A channel that nobody took the update from is
    /// removed. Without a channel of the kind nothing changes.
    pub fn send_to_channel(&mut self, update: Update, now: u64) -> (result: Result<
        (),
        InspectorError,
    >)
        requires
            old(self).inv(),
        ensures
            final(self).inv(),
            final(self).topology() == old(self).topology(),
            old(self)@.told(final(self)@, update.spec_key().spec_code(), now),
            result is Ok <==> final(self)@.channels.contains_key(update.spec_key().spec_code()),
            result matches Err(error) ==> error.spec_message()
                == "there're no listeners for such updates"@,
    {
        let code = update.key().code();
        let mut channel = match self.channels.remove(&code) {
            Some(channel) => channel,
            None => {
                assert(self@.channels =~= old(self)@.channels);
                assert(self@ == old(self)@);
                return Err(InspectorError::new("there're no listeners for such updates"));
            },
        };
        let ghost subscribed = channel.keys();
        assert(subscribed == old(self)@.subscribers(code));
        let sent = channel.send(&update, &mut self.listeners, now);
        proof {
            assert forall|key: u64| #[trigger]
                listeners_of(self.listeners).contains_key(key) implies listeners_of(
                self.listeners,
            )[key].heartbeat_uid.0 < old(self)@.upcoming by {
                assert(old(self)@.listeners.contains_key(key));
                if subscribed.contains(key) {
                    assert(channel.keys().contains(key));
                }
            }
            assert(self@.listeners == listeners_of(self.listeners));
            assert(self@.heartbeats == old(self)@.heartbeats);
            assert(self@.upcoming == old(self)@.upcoming);
            assert(self@.wf());
        }
        match sent {
            Err(error) => {
                assert(!self@.channels.contains_key(code));
                assert(self@.subscribers(code) =~= Set::<u64>::empty());
                Err(error)
            },
            Ok(()) => {
                self.channels.insert(code, channel);
                assert(self@.channels.contains_key(code));
                assert(self@.subscribers(code) == channel.keys());
                Ok(())
            },
        }
    }

    /// Sends a heartbeat to every listener whose heartbeat is due at `now`,
    /// in the order in which the heartbeats were filed, and files a new one
    /// for each listener that took it. Only the heartbeats that are filed
    /// when the tick starts are looked at, so every listener gets at most
    /// one heartbeat per call. Filed heartbeats of listeners that are gone
    /// are cleared on the way. Returns what each offer of a heartbeat came
    /// to, in order: whether a listener takes a heartbeat is up to the
    /// client, and the state after the tick is the one that these outcomes
    /// lead to.
    pub fn heartbeat_tick(&mut self, now: u64) -> (offers: Vec<Result<(), InspectorError>>)
        requires
            old(self).inv(),
        ensures
            final(self).inv(),
            final(self).topology() == old(self).topology(),
            final(self)@ == old(self)@.tick(
                now,
                old(self)@.heartbeats.len(),
                taken_of(offers@),
            ),
            offers@.len() <= old(self)@.heartbeats.len(),
            forall|i: int|
                0 <= i < offers@.len() ==> ((#[trigger] offers@[i]) matches Err(error)
                    ==> error.spec_message() == "listener doesn't receive"@
                    || error.spec_message() == "the identifiers have run out"@),
            final(self)@.period == old(self)@.period,
            final(self)@.channels == old(self)@.channels,
            forall|key: u64| #[trigger]
                final(self)@.listeners.contains_key(key) ==> old(self)@.listeners.contains_key(key)
                    && final(self)@.listeners[key].tx == old(self)@.listeners[key].tx && (final(
                    self)@.listeners[key] == old(self)@.listeners[key] || final(
                    self)@.listeners[key].heartbeat_at == deadline_after(now, old(self)@.period)),
    {
        let total = self.heartbeats.len();
        let mut budget = total;
        let mut offers: Vec<Result<(), InspectorError>> = Vec::new();
        let ghost mut done: Seq<bool> = Seq::empty();
        proof {
            assert(taken_of(offers@) =~= done);
            assert forall|rest: Seq<bool>| #[trigger]
                self@.tick(now, budget as nat, rest) == old(self)@.tick(
                    now,
                    total as nat,
                    done + rest,
                ) by {
                assert(done + rest =~= rest);
            }
        }
        loop
            invariant
                self.inv(),
                self.topology() == old(self).topology(),
                self@.period == old(self)@.period,
                self@.channels == old(self)@.channels,
                total == old(self)@.heartbeats.len(),
                done == taken_of(offers@),
                offers@.len() + budget <= total,
                forall|i: int|
                    0 <= i < offers@.len() ==> ((#[trigger] offers@[i]) matches Err(error)
                        ==> error.spec_message() == "listener doesn't receive"@
                        || error.spec_message() == "the identifiers have run out"@),
                forall|rest: Seq<bool>| #[trigger]
                    self@.tick(now, budget as nat, rest) == old(self)@.tick(
                        now,
                        total as nat,
                        done + rest,
                    ),
                forall|key: u64| #[trigger]
                    self@.listeners.contains_key(key) ==> old(self)@.listeners.contains_key(key)
                        && self@.listeners[key].tx == old(self)@.listeners[key].tx && (
                    self@.listeners[key] == old(self)@.listeners[key]
                        || self@.listeners[key].heartbeat_at == deadline_after(
                        now,
                        old(self)@.period,
                    )),
            ensures
                self.inv(),
                self.topology() == old(self).topology(),
                self@.period == old(self)@.period,
                self@.channels == old(self)@.channels,
                total == old(self)@.heartbeats.len(),
                done == taken_of(offers@),
                offers@.len() <= total,
                forall|i: int|
                    0 <= i < offers@.len() ==> ((#[trigger] offers@[i]) matches Err(error)
                        ==> error.spec_message() == "listener doesn't receive"@
                        || error.spec_message() == "the identifiers have run out"@),
                self@ == old(self)@.tick(now, total as nat, done),
                forall|key: u64| #[trigger]
                    self@.listeners.contains_key(key) ==> old(self)@.listeners.contains_key(key)
                        && self@.listeners[key].tx == old(self)@.listeners[key].tx && (
                    self@.listeners[key] == old(self)@.listeners[key]
                        || self@.listeners[key].heartbeat_at == deadline_after(
                        now,
                        old(self)@.period,
                    )),
            decreases budget,
        {
            let ghost head = self@;
            let ghost allowed = budget as nat;
            if budget == 0 {
                proof {
                    assert(head.tick(now, 0, Seq::<bool>::empty()) == head);
                    assert(done + Seq::<bool>::empty() =~= done);
                }
                break ;
            }
            assert(head.heartbeats == self.heartbeats@);
            let first = first_heartbeat(&self.heartbeats);
            let (uid, listener_key) = match first {
                Some(first) => first,
                None => {
                    proof {
                        assert(head.is_unscheduled());
                        assert(head.tick(now, allowed, Seq::<bool>::empty()) == head);
                        assert(done + Seq::<bool>::empty() =~= done);
                    }
                    break ;
                },
            };
            proof {
                assert(head.heartbeats.contains_key(uid));
                assert(!head.is_unscheduled());
                let chosen = head.first_filed();
                assert(head.heartbeats.contains_key(chosen) && chosen <= uid && uid <= chosen);
            }
            let due = match listeners_get(&self.listeners, listener_key) {
                Some(listener) => Some(listener.heartbeat_at <= now),
                None => None,
            };
            match due {
                None => {
                    self.heartbeats.remove(&uid);
                    budget -= 1;
                    proof {
                        assert(self@.channels =~= old(self)@.channels);
                        assert(self@.listeners == head.listeners);
                        assert(self@ == head.unfile(uid));
                        lemma_unfile_wf(head, uid);
                        assert forall|rest: Seq<bool>| #[trigger]
                            self@.tick(now, budget as nat, rest) == old(self)@.tick(
                                now,
                                total as nat,
                                done + rest,
                            ) by {
                            assert(head.tick(now, allowed, rest) == head.unfile(uid).tick(
                                now,
                                (allowed - 1) as nat,
                                rest,
                            ));
                        }
                    }
                },
                Some(false) => {
                    proof {
                        assert(head.tick(now, allowed, Seq::<bool>::empty()) == head);
                        assert(done + Seq::<bool>::empty() =~= done);
                    }
                    break ;
                },
                Some(true) => {
                    self.heartbeats.remove(&uid);
                    budget -= 1;
                    proof {
                        assert(self@.channels =~= old(self)@.channels);
                        assert(self@.listeners == head.listeners);
                        lemma_unfile_wf(head, uid);
                    }
                    let ghost before = self@;
                    assert(before == head.unfile(uid));
                    let sent = self.send(listener_key, Update::Heartbeat, now);
                    let ghost offered = sent is Ok;
                    let ghost earlier = offers@;
                    offers.push(sent);
                    proof {
                        let after = before.settle(listener_key, offered, now);
                        assert(self@ == after);
                        assert forall|key: u64| #[trigger]
                            after.listeners.contains_key(key) implies before.listeners.contains_key(
                            key,
                        ) && after.listeners[key].tx == before.listeners[key].tx && (
                        after.listeners[key] == before.listeners[key]
                            || after.listeners[key].heartbeat_at == deadline_after(
                            now,
                            before.period,
                        )) by {
                            if sent is Ok {
                                lemma_postpone(before, listener_key, now);
                            }
                        }
                        let grown = done.push(offered);
                        assert(taken_of(offers@) =~= grown);
                        assert forall|rest: Seq<bool>| #[trigger]
                            self@.tick(now, budget as nat, rest) == old(self)@.tick(
                                now,
                                total as nat,
                                grown + rest,
                            ) by {
                            let longer = seq![offered] + rest;
                            assert(longer.first() == offered);
                            assert(longer.drop_first() =~= rest);
                            assert(done + longer =~= grown + rest);
                            assert(head.tick(now, allowed, longer) == after.tick(
                                now,
                                (allowed - 1) as nat,
                                rest,
                            ));
                        }
                        done = grown;
                    }
                },
            }
        }
        offers
    }

    /// Handles one event at the instant `now`:
    /// a request for the topology subscribes the client and sends it the
    /// topology; a tick of the heartbeat interval sends the heartbeats that
    /// are due; a change of the topology is told to the subscribers.
    /// Returns what went wrong, for the log: one report for a request that
    /// could not be served, one for every heartbeat that was not taken,
    /// none for anything else. An event of another kind changes nothing.
    pub fn handle<F>(&mut self, event: InspectorEvent, now: u64, interval: &mut Interval<F>) -> (reports:
        Vec<Report>)
        requires
            old(self).inv(),
        ensures
            final(self).inv(),
            final(self).topology() == old(self).topology(),
            final(self)@.period == old(self)@.period,
            final(interval)@ == old(interval)@,
            final(interval).factory() == old(interval).factory(),
            event is Other ==> final(self)@ == old(self)@ && reports@.len() == 0,
            event is TopologyUpdated ==> reports@.len() == 0 && old(self)@.told(
                final(self)@,
                UpdateKey::TopologyUpdated.spec_code(),
                now,
            ),
            event is HeartbeatTick ==> exists|taken: Seq<bool>|
                final(self)@ == old(self)@.tick(now, old(self)@.heartbeats.len(), taken)
                    && reports@.len() == misses(taken),
            event is HeartbeatTick ==> forall|i: int|
                0 <= i < reports@.len() ==> (#[trigger] reports@[i]).what@
                    == "can't send heartbeat"@,
            event matches InspectorEvent::Request(request) ==> (if old(self)@.listeners.len()
                > LISTENERS_MAX || !old(self)@.has_identifier() {
                final(self)@ == old(self)@ && reports@.len() == 1 && reports@[0].what@
                    == "can't subscribe the listener"@
            } else {
                exists|key: u64, taken: bool|
                    slot_key(key) == key && !old(self)@.listeners.contains_key(key) && final(
                        self)@ == old(self)@.subscribe(
                        UpdateKey::TopologyUpdated.spec_code(),
                        request.spec_tx(),
                        now,
                        key,
                    ).settle(key, taken, now) && (reports@.len() == 0 <==> final(self)@.knows(key))
                        && (reports@.len() > 0 ==> reports@.len() == 1 && reports@[0].what@
                        == "can't send the snapshot to the listener"@)
            }),
    {
        let mut reports: Vec<Report> = Vec::new();
        match event {
            InspectorEvent::Request(request) => {
                let (_, tx, body) = request.into_parts();
                match body {
                    RequestBody::GetTopology => {
                        let update = Update::from(&self.topology);
                        let update_key = update.key();
                        match self.subscribe(update_key, tx, now, interval) {
                            Ok(listener_key) => {
                                let ghost subscribed = self@;
                                assert(subscribed.knows(listener_key));
                                match self.send(listener_key, update, now) {
                                    Ok(()) => {
                                        proof {
                                            lemma_postpone(subscribed, listener_key, now);
                                        }
                                        assert(self@ == subscribed.settle(listener_key, true, now));
                                    },
                                    Err(error) => {
                                        assert(self@ == subscribed.settle(
                                            listener_key,
                                            false,
                                            now,
                                        ));
                                        reports.push(
                                            Report {
                                                what: "can't send the snapshot to the listener",
                                                error,
                                            },
                                        );
                                    },
                                }
                            },
                            Err(error) => {
                                reports.push(Report { what: "can't subscribe the listener", error });
                            },
                        }
                    },
                }
            },
            InspectorEvent::HeartbeatTick => {
                let mut offers = self.heartbeat_tick(now);
                let ghost all = offers@;
                let mut i: usize = 0;
                proof {
                    assert(taken_of(all).take(0) =~= Seq::<bool>::empty());
                }
                while i < offers.len()
                    invariant
                        i <= offers.len(),
                        offers@.len() == all.len(),
                        forall|j: int| i <= j < all.len() ==> offers@[j] == all[j],
                        reports@.len() == misses(taken_of(all).take(i as int)),
                        forall|k: int|
                            0 <= k < reports@.len() ==> (#[trigger] reports@[k]).what@
                                == "can't send heartbeat"@,
                    decreases offers.len() - i,
                {
                    let mut offer: Result<(), InspectorError> = Ok(());
                    offers.set_and_swap(i, &mut offer);
                    proof {
                        let prefix = taken_of(all).take(i as int + 1);
                        assert(prefix.drop_last() =~= taken_of(all).take(i as int));
                        assert(prefix.last() == (all[i as int] is Ok));
                    }
                    match offer {
                        Ok(()) => {},
                        Err(error) => {
                            reports.push(Report { what: "can't send heartbeat", error });
                        },
                    }
                    i += 1;
                }
                proof {
                    assert(taken_of(all).take(all.len() as int) =~= taken_of(all));
                }
            },
            InspectorEvent::TopologyUpdated => {
                let update = Update::from(&self.topology);
                let _ = self.send_to_channel(update, now);
            },
            InspectorEvent::Other => {},
        }
        reports
    }
}

} // verus!
