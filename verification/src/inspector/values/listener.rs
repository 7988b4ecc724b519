//! The clients that listen for updates, and the slot map that holds them.

use vstd::prelude::*;
use slotmap::{DefaultKey, Key, KeyData, SlotMap};
use tokio::sync::mpsc::{Receiver, Sender};
use crate::inspector::api::UpdateResult;
use crate::inspector::values::uid::Uid;
use crate::time::timer::deadline_after;

verus! {

/// The sending end of tokio's bounded channel, as an opaque type.
#[verifier::external_type_specification]
#[verifier::external_body]
#[verifier::reject_recursive_types(T)]
pub struct ExSender<T>(Sender<T>);

/// The receiving end of tokio's bounded channel, as an opaque type.
#[verifier::external_type_specification]
#[verifier::external_body]
#[verifier::reject_recursive_types(T)]
pub struct ExReceiver<T>(Receiver<T>);

/// The key of a listener: the 64 bits of its slot map key.
pub type ListenerKey = u64;

/// The most listeners that a map takes.
pub const LISTENERS_MAX: usize = 0xffff_fffd;

/// One client that listens for updates. A heartbeat is due to it at
/// `heartbeat_at`, unless an update is sent before.
pub struct Listener {
    pub heartbeat_at: u64,
    pub heartbeat_uid: Uid,
    pub tx: Sender<UpdateResult>,
}

impl Listener {
    /// A listener whose first heartbeat is due one period after `now`.
    pub fn new(tx: Sender<UpdateResult>, now: u64, heartbeat_period: u64, heartbeat_uid: Uid) -> (listener: Listener)
        ensures
            listener == (Listener {
                heartbeat_at: deadline_after(now, heartbeat_period),
                heartbeat_uid,
                tx,
            }),
    {
        Listener { heartbeat_at: now.saturating_add(heartbeat_period), heartbeat_uid, tx }
    }

    /// The listener with its next heartbeat due one period after `now`.
    pub open spec fn postponed(self, now: u64, heartbeat_period: u64) -> Listener {
        Listener { heartbeat_at: deadline_after(now, heartbeat_period), ..self }
    }

    /// Puts the next heartbeat off to one period after `now`.
    pub fn postpone_heartbeat(&mut self, now: u64, heartbeat_period: u64)
        ensures
            *final(self) == old(self).postponed(now, heartbeat_period),
    {
        self.heartbeat_at = now.saturating_add(heartbeat_period);
    }
}

/// Offers `update` to the client behind `tx` without waiting, and says
/// whether it was taken. Wraps `Sender::try_send` of tokio's bounded channel,
/// which fails when the channel is full or the receiver is gone. Whether it
/// is taken depends on the client, so nothing is claimed of the result.
#[verifier::external_body]
pub(crate) fn push_update(tx: &Sender<UpdateResult>, update: UpdateResult) -> (taken: bool) {
    tx.try_send(update).is_ok()
}

/// A channel for updates that holds up to `size` of them. Wraps tokio's
/// `mpsc::channel`, which panics for size zero and for sizes above
/// `usize::MAX >> 3`.
#[verifier::external_body]
pub(crate) fn update_channel(size: usize) -> (ends: (Sender<UpdateResult>, Receiver<UpdateResult>))
    requires
        0 < size <= usize::MAX / 8,
{
    tokio::sync::mpsc::channel(size)
}

/// The listeners, in a `SlotMap` of the `slotmap` crate with its default
/// keys. What the map holds is known by [`listeners_of`] only, and changes
/// by the functions below only.
#[verifier::external_body]
pub struct ListenerMap {
    slots: SlotMap<DefaultKey, Listener>,
}

/// The listeners that a map holds, by the bits of their keys.
pub uninterp spec fn listeners_of(map: ListenerMap) -> Map<u64, Listener>;

/// The key that the slot map looks up when it is given `key`: it reads every
/// key with the lowest bit of the version, which marks an occupied slot, set.
pub open spec fn slot_key(key: u64) -> u64 {
    key | 0x1_0000_0000u64
}

/// Reading a key as the slot map does is idempotent.
pub proof fn lemma_slot_key_idempotent(key: u64)
    ensures
        slot_key(slot_key(key)) == slot_key(key),
{
    assert((key | 0x1_0000_0000u64) | 0x1_0000_0000u64 == key | 0x1_0000_0000u64) by (bit_vector);
}

/// The key with the occupied bit set, as the slot map reads it.
pub fn canonical(key: ListenerKey) -> (read: ListenerKey)
    ensures
        read == slot_key(key),
        slot_key(read) == read,
{
    proof {
        lemma_slot_key_idempotent(key);
    }
    key | 0x1_0000_0000u64
}

/// An empty map. Wraps `SlotMap::new`.
#[verifier::external_body]
pub(crate) fn listeners_new() -> (map: ListenerMap)
    ensures
        listeners_of(map) == (Map::<u64, Listener>::empty()),
{
    ListenerMap { slots: SlotMap::new() }
}

/// The number of listeners. Wraps `SlotMap::len`.
#[verifier::external_body]
pub(crate) fn listeners_len(map: &ListenerMap) -> (len: usize)
    ensures
        len == listeners_of(*map).len(),
{
    map.slots.len()
}

/// Whether there is no listener. Wraps `SlotMap::is_empty`.
#[verifier::external_body]
pub(crate) fn listeners_is_empty(map: &ListenerMap) -> (empty: bool)
    ensures
        empty == (forall|key: u64| !(#[trigger] listeners_of(*map).contains_key(key))),
{
    map.slots.is_empty()
}

/// Adds a listener and returns its key. Wraps `SlotMap::insert`, which
/// panics when the map is full, takes a vacant slot or a new one, and
/// returns that slot's key with the occupied bit set; no listener in the map
/// has that key.
#[verifier::external_body]
pub(crate) fn listeners_insert(map: &mut ListenerMap, listener: Listener) -> (key: ListenerKey)
    requires
        listeners_of(*old(map)).len() <= LISTENERS_MAX,
    ensures
        slot_key(key) == key,
        !listeners_of(*old(map)).contains_key(key),
        listeners_of(*final(map)) == listeners_of(*old(map)).insert(key, listener),
{
    map.slots.insert(listener).data().as_ffi()
}

/// The listener at `key`, if there is one. Wraps `SlotMap::get`.
#[verifier::external_body]
pub(crate) fn listeners_get(map: &ListenerMap, key: ListenerKey) -> (listener: Option<&Listener>)
    ensures
        listener == (if listeners_of(*map).contains_key(slot_key(key)) {
            Some(&listeners_of(*map)[slot_key(key)])
        } else {
            None
        }),
{
    map.slots.get(KeyData::from_ffi(key).into())
}

/// The listener at `key`, to be changed in place, if there is one. Wraps
/// `SlotMap::get_mut`.
#[verifier::external_body]
pub(crate) fn listeners_get_mut(map: &mut ListenerMap, key: ListenerKey) -> (listener: Option<
    &mut Listener,
>)
    ensures
        (match listener {
            Some(slot) => listeners_of(*old(map)).contains_key(slot_key(key)) && *slot
                == listeners_of(*old(map))[slot_key(key)] && listeners_of(*final(map))
                == listeners_of(*old(map)).insert(slot_key(key), *final(slot)),
            None => !listeners_of(*old(map)).contains_key(slot_key(key)) && listeners_of(
                *final(map),
            ) == listeners_of(*old(map)),
        }),
{
    map.slots.get_mut(KeyData::from_ffi(key).into())
}

/// Takes the listener at `key` out, if there is one. Wraps
/// `SlotMap::remove`.
#[verifier::external_body]
pub(crate) fn listeners_remove(map: &mut ListenerMap, key: ListenerKey) -> (listener: Option<
    Listener,
>)
    ensures
        listener == (if listeners_of(*old(map)).contains_key(slot_key(key)) {
            Some(listeners_of(*old(map))[slot_key(key)])
        } else {
            None
        }),
        listeners_of(*final(map)) == listeners_of(*old(map)).remove(slot_key(key)),
{
    map.slots.remove(KeyData::from_ffi(key).into())
}

impl ListenerMap {
    /// A map without listeners.
    pub fn new() -> (map: ListenerMap)
        ensures
            listeners_of(map) == (Map::<u64, Listener>::empty()),
    {
        listeners_new()
    }

    /// The number of listeners.
    pub fn len(&self) -> (len: usize)
        ensures
            len == listeners_of(*self).len(),
    {
        listeners_len(self)
    }

    /// Adds `listener` under a key that no listener of the map has, and
    /// returns the key. A map that is full takes no more: the listener comes
    /// back.
    pub fn insert(&mut self, listener: Listener) -> (added: Result<ListenerKey, Listener>)
        ensures
            match added {
                Ok(key) => listeners_of(*old(self)).len() <= LISTENERS_MAX && slot_key(key) == key
                    && !listeners_of(*old(self)).contains_key(key) && listeners_of(*final(self))
                    == listeners_of(*old(self)).insert(key, listener),
                Err(back) => listeners_of(*old(self)).len() > LISTENERS_MAX && back == listener
                    && listeners_of(*final(self)) == listeners_of(*old(self)),
            },
    {
        if listeners_len(self) > LISTENERS_MAX {
            Err(listener)
        } else {
            Ok(listeners_insert(self, listener))
        }
    }

    /// The listener at `key`, if there is one.
    pub fn get(&self, key: ListenerKey) -> (listener: Option<&Listener>)
        ensures
            listener == (if listeners_of(*self).contains_key(slot_key(key)) {
                Some(&listeners_of(*self)[slot_key(key)])
            } else {
                None
            }),
    {
        listeners_get(self, key)
    }
}

} // verus!
