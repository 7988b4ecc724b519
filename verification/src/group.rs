//! The children of one actor group.
//!
//! Children live in numbered slots. The address of a child is made of the
//! group's number, the generation of the slot and the slot's number. A slot
//! is free, holds a live child, or waits for the restart of a child that
//! failed. Every new child of a slot gets the next generation, so the address
//! of a dead child never comes to name a later one; a slot whose generations
//! have run out is not used again. No two occupied slots have the same key.

use vstd::prelude::*;
use crate::actor::{Actor, ActorModel, ActorStatus, ActorStatusKind, Severity, StatusModel};
use crate::addr::{lemma_from_parts, Addr};
use crate::envelope::{Envelope, MessageKind, ResponseToken};
use crate::errors::{RequestError, TryRecvError, TrySendError};
use crate::mailbox::MailboxModel;
use crate::request::{Fanout, FanoutModel, Resolved};
use crate::request_table::{RequestPoll, RequestTableModel, TokenUse};
use crate::routers::{Decision, Fallback, Outcome};
use crate::supervisor::{jittered, Backoff, BackoffModel, BACKOFF_START};

verus! {

/// The mathematical state of one slot.
pub struct SlotModel<M> {
    /// How many children the slot has had.
    pub generation: u16,
    /// The shard key of the child, while the slot is occupied.
    pub key: u64,
    /// The live child, if there is one.
    pub actor: Option<ActorModel<M>>,
    /// When the failed child is due to be started again, if one is.
    pub restart_at: Option<u64>,
    pub backoff: BackoffModel,
}

impl<M> SlotModel<M> {
    pub open spec fn is_live(self) -> bool {
        self.actor is Some
    }

    pub open spec fn is_waiting(self) -> bool {
        self.actor is None && self.restart_at is Some
    }

    pub open spec fn is_occupied(self) -> bool {
        self.actor is Some || self.restart_at is Some
    }

    /// Whether a new child can be put here.
    pub open spec fn is_reusable(self) -> bool {
        !self.is_occupied() && self.generation < u16::MAX
    }

    /// A live child is well-formed, not terminal, and has the address of its
    /// slot.
    pub open spec fn wf(self, group_no: u16, index: int) -> bool {
        &&& self.backoff.wf()
        &&& self.actor matches Some(actor) ==> {
            &&& actor.wf()
            &&& !actor.status.kind.spec_is_terminal()
            &&& actor.addr() == Addr::spec_from_parts(group_no, self.generation, index as u32)
            &&& self.restart_at is None
        }
    }

    /// A new child with the given key in this slot, with the next
    /// generation.
    pub open spec fn spawn(self, group_no: u16, index: int, key: u64, capacity: nat) -> Self {
        let generation = (self.generation + 1) as u16;
        SlotModel {
            generation,
            key,
            actor: Some(fresh_actor(Addr::spec_from_parts(group_no, generation, index as u32), capacity)),
            restart_at: None,
            backoff: self.backoff,
        }
    }
}

/// The address, if there is one, as a sequence.
pub open spec fn present(addr: Option<Addr>) -> Seq<Addr> {
    match addr {
        Some(addr) => seq![addr],
        None => Seq::empty(),
    }
}

/// The state of an actor that was just created at `addr`.
pub open spec fn fresh_actor<M>(addr: Addr, capacity: nat) -> ActorModel<M> {
    ActorModel {
        status: StatusModel { kind: ActorStatusKind::Initializing, details: None },
        mailbox: MailboxModel { queue: Seq::empty(), capacity, closed: false },
        requests: RequestTableModel { owner: addr, slots: Map::empty(), next_id: 0 },
    }
}

/// A slot that never had a child.
pub open spec fn unused_slot<M>() -> SlotModel<M> {
    SlotModel {
        generation: 0,
        key: 0,
        actor: None,
        restart_at: None,
        backoff: BackoffModel { base: BACKOFF_START, stable_since: None },
    }
}

/// The mathematical state of a group.
pub struct GroupModel<M> {
    pub group_no: u16,
    /// The mailbox capacity of every child.
    pub capacity: nat,
    pub fallback: Fallback,
    pub slots: Seq<SlotModel<M>>,
}

impl<M> GroupModel<M> {
    /// No two occupied slots have the same key.
    pub open spec fn keys_unique(self) -> bool {
        forall|i: int, j: int|
            0 <= i < self.slots.len() && 0 <= j < self.slots.len() && i != j
                && #[trigger] self.slots[i].is_occupied() && #[trigger] self.slots[j].is_occupied()
                ==> self.slots[i].key != self.slots[j].key
    }

    pub open spec fn wf(self) -> bool {
        &&& self.slots.len() <= u32::MAX
        &&& forall|i: int| 0 <= i < self.slots.len() ==> (#[trigger] self.slots[i]).wf(self.group_no, i)
        &&& self.keys_unique()
    }

    /// Whether `addr` names a live child of this group.
    pub open spec fn is_live(self, addr: Addr) -> bool {
        &&& addr.spec_group_slot() == self.group_no
        &&& addr.spec_local() < self.slots.len()
        &&& self.slots[addr.spec_local() as int].generation == addr.spec_generation()
        &&& self.slots[addr.spec_local() as int].is_live()
    }

    /// The live child that `addr` names.
    pub open spec fn actor(self, addr: Addr) -> ActorModel<M>
        recommends
            self.is_live(addr),
    {
        self.slots[addr.spec_local() as int].actor->0
    }

    /// The address that slot `index` has now.
    pub open spec fn addr_of(self, index: int) -> Addr {
        Addr::spec_from_parts(self.group_no, self.slots[index].generation, index as u32)
    }

    /// Whether some slot is occupied for `key`.
    pub open spec fn holds(self, key: u64) -> bool {
        exists|i: int| 0 <= i < self.slots.len() && #[trigger] self.slots[i].is_occupied()
            && self.slots[i].key == key
    }

    /// The slot that is occupied for `key`.
    pub open spec fn index_of(self, key: u64) -> int
        recommends
            self.holds(key),
    {
        choose|i: int| 0 <= i < self.slots.len() && #[trigger] self.slots[i].is_occupied()
            && self.slots[i].key == key
    }

    /// The address of the live child for `key`, if there is one.
    pub open spec fn child(self, key: u64) -> Option<Addr> {
        if self.holds(key) && self.slots[self.index_of(key)].is_live() {
            Some(self.addr_of(self.index_of(key)))
        } else {
            None
        }
    }

    /// The first slot from `from` on where a new child can be put, or the
    /// number of slots if there is none.
    pub open spec fn first_reusable(self, from: int) -> int
        decreases self.slots.len() - from,
    {
        if from < 0 || from >= self.slots.len() {
            self.slots.len() as int
        } else if self.slots[from].is_reusable() {
            from
        } else {
            self.first_reusable(from + 1)
        }
    }

    /// Where a new child goes: the first reusable slot, else a new slot at
    /// the end, else nowhere if the slot numbers have run out.
    pub open spec fn room(self) -> Option<int> {
        if self.first_reusable(0) < self.slots.len() || self.slots.len() < u32::MAX {
            Some(self.first_reusable(0))
        } else {
            None
        }
    }

    /// The group with slot `index` replaced.
    pub open spec fn with_slot(self, index: int, slot: SlotModel<M>) -> Self {
        GroupModel { slots: self.slots.update(index, slot), ..self }
    }

    /// The group with the live child at `addr` replaced.
    pub open spec fn with_actor(self, addr: Addr, actor: ActorModel<M>) -> Self {
        let index = addr.spec_local() as int;
        self.with_slot(index, SlotModel { actor: Some(actor), ..self.slots[index] })
    }

    /// The group with the live child at `addr` replaced and its status
    /// noted, at `now`, for the restart delays.
    pub open spec fn with_child(self, addr: Addr, actor: ActorModel<M>, now: u64) -> Self {
        let index = addr.spec_local() as int;
        self.with_slot(
            index,
            SlotModel {
                actor: Some(actor),
                backoff: self.slots[index].backoff.observe(actor.status.kind, now),
                ..self.slots[index]
            },
        )
    }

    /// The group after the live child at `addr` ended at `now`. A child that
    /// failed leaves its slot waiting for the restart; one that ended well
    /// leaves it free.
    pub open spec fn exit(self, addr: Addr, failed: bool, now: u64, entropy: u64) -> Self {
        let index = addr.spec_local() as int;
        let slot = self.slots[index];
        if !self.is_live(addr) {
            self
        } else if failed {
            self.with_slot(
                index,
                SlotModel {
                    actor: None,
                    restart_at: Some(self.restart_time(addr, now, entropy)),
                    backoff: slot.backoff.fail(now),
                    ..slot
                },
            )
        } else {
            self.with_slot(index, SlotModel { actor: None, restart_at: None, ..slot })
        }
    }

    /// When the child at `addr` is due again if it fails at `now`: after the
    /// spread delay, or at the end of time if that is sooner.
    pub open spec fn restart_time(self, addr: Addr, now: u64, entropy: u64) -> u64 {
        let backoff = self.slots[addr.spec_local() as int].backoff;
        let due = now + jittered(backoff.due_base(now), entropy);
        if due > u64::MAX {
            u64::MAX
        } else {
            due as u64
        }
    }

    /// Whether the child for `key` failed and is due again at `now`.
    pub open spec fn is_due(self, key: u64, now: u64) -> bool {
        &&& self.holds(key)
        &&& self.slots[self.index_of(key)].is_waiting()
        &&& self.slots[self.index_of(key)].restart_at->0 <= now
    }

    /// The group after the restart of the child for `key` was asked for at
    /// `now`. If the child is due, it is spawned anew in its slot; if the
    /// slot has no generation left, the slot is given up instead.
    pub open spec fn restart(self, key: u64, now: u64) -> Self {
        if self.is_due(key, now) {
            let index = self.index_of(key);
            let slot = self.slots[index];
            if slot.generation < u16::MAX {
                self.with_slot(
                    index,
                    SlotModel { restart_at: None, ..slot }.spawn(
                        self.group_no,
                        index,
                        key,
                        self.capacity,
                    ),
                )
            } else {
                self.with_slot(index, SlotModel { restart_at: None, ..slot })
            }
        } else {
            self
        }
    }

    /// The group after a child for `key` was put into slot `index`.
    pub open spec fn spawn_at(self, index: int, key: u64) -> Self {
        if index < self.slots.len() {
            self.with_slot(index, self.slots[index].spawn(self.group_no, index, key, self.capacity))
        } else {
            GroupModel {
                slots: self.slots.push(
                    unused_slot::<M>().spawn(self.group_no, index, key, self.capacity),
                ),
                ..self
            }
        }
    }

    /// The group after it was asked for the child of `key`: the child is
    /// spawned if the key has no slot and there is room.
    pub open spec fn ensure(self, key: u64) -> Self {
        if !self.holds(key) && self.room() is Some {
            self.spawn_at(self.room()->0, key)
        } else {
            self
        }
    }

    /// Whether asking for the child of `key` spawns it.
    pub open spec fn spawns(self, key: u64) -> bool {
        !self.holds(key) && self.room() is Some
    }

    /// The group after it was asked for the children of `keys`, one key
    /// after the other.
    pub open spec fn ensure_all(self, keys: Seq<u64>) -> Self
        decreases keys.len(),
    {
        if keys.len() == 0 {
            self
        } else {
            self.ensure_all(keys.drop_last()).ensure(keys.last())
        }
    }

    /// The live children of `keys` after the group was asked for them, in
    /// the order of the keys. A key without a live child is passed over.
    pub open spec fn multicast_targets(self, keys: Seq<u64>) -> Seq<Addr>
        decreases keys.len(),
    {
        if keys.len() == 0 {
            Seq::empty()
        } else {
            self.multicast_targets(keys.drop_last()) + present(
                self.ensure_all(keys).child(keys.last()),
            )
        }
    }

    /// The children that asking for `keys` spawned, in the order of the
    /// keys.
    pub open spec fn multicast_spawned(self, keys: Seq<u64>) -> Seq<Addr>
        decreases keys.len(),
    {
        if keys.len() == 0 {
            Seq::empty()
        } else {
            self.multicast_spawned(keys.drop_last()) + (if self.ensure_all(
                keys.drop_last(),
            ).spawns(keys.last()) {
                present(self.ensure_all(keys).child(keys.last()))
            } else {
                Seq::empty()
            })
        }
    }

    /// The addresses of the live children in the first `upto` slots, in
    /// slot order.
    pub open spec fn live_addrs(self, upto: int) -> Seq<Addr>
        decreases upto,
    {
        if upto <= 0 {
            Seq::empty()
        } else {
            self.live_addrs(upto - 1) + (if self.slots[upto - 1].is_live() {
                seq![self.addr_of(upto - 1)]
            } else {
                Seq::empty()
            })
        }
    }

    /// The group after routing by `decision`: unicast and multicast spawn
    /// the children that are absent, the others spawn nobody.
    pub open spec fn route(self, decision: Decision) -> Self {
        match decision {
            Decision::Unicast(key) => self.ensure(key),
            Decision::Multicast(keys) => self.ensure_all(keys),
            Decision::Broadcast => self,
            Decision::Discard => self,
        }
    }

    /// The children that get an envelope routed by `decision`.
    pub open spec fn targets(self, decision: Decision) -> Seq<Addr> {
        match decision {
            Decision::Unicast(key) => present(self.ensure(key).child(key)),
            Decision::Multicast(keys) => self.multicast_targets(keys),
            Decision::Broadcast => self.live_addrs(self.slots.len() as int),
            Decision::Discard => Seq::empty(),
        }
    }

    /// The children that routing by `decision` spawned.
    pub open spec fn spawned(self, decision: Decision) -> Seq<Addr> {
        match decision {
            Decision::Unicast(key) => if self.spawns(key) {
                present(self.ensure(key).child(key))
            } else {
                Seq::empty()
            },
            Decision::Multicast(keys) => self.multicast_spawned(keys),
            Decision::Broadcast => Seq::empty(),
            Decision::Discard => Seq::empty(),
        }
    }

    /// The group after `envelope` was offered to the child that `addr`
    /// names.
    pub open spec fn send_to(self, addr: Addr, envelope: Envelope<M>) -> Self {
        if self.is_live(addr) {
            self.with_actor(addr, self.actor(addr).send(envelope))
        } else {
            self
        }
    }

    /// What offering `envelope` to the child that `addr` names returns: an
    /// address that names no live child is closed.
    pub open spec fn send_to_result(self, addr: Addr, envelope: Envelope<M>) -> Result<
        (),
        TrySendError<Envelope<M>>,
    > {
        if self.is_live(addr) {
            self.actor(addr).send_result(envelope)
        } else {
            Err(TrySendError::Closed(envelope))
        }
    }

    /// The group after each of `envelopes` was offered to the target at the
    /// same place of `targets`, in order.
    pub open spec fn send_each(self, targets: Seq<Addr>, envelopes: Seq<Envelope<M>>) -> Self
        decreases targets.len(),
    {
        if targets.len() == 0 {
            self
        } else {
            self.send_each(targets.drop_last(), envelopes.drop_last()).send_to(
                targets.last(),
                envelopes.last(),
            )
        }
    }

    /// What the offers of `send_each` return, in order.
    pub open spec fn results_of(self, targets: Seq<Addr>, envelopes: Seq<Envelope<M>>) -> Seq<
        Result<(), TrySendError<Envelope<M>>>,
    >
        decreases targets.len(),
    {
        if targets.len() == 0 {
            Seq::empty()
        } else {
            self.results_of(targets.drop_last(), envelopes.drop_last()).push(
                self.send_each(targets.drop_last(), envelopes.drop_last()).send_to_result(
                    targets.last(),
                    envelopes.last(),
                ),
            )
        }
    }

    /// The group after the child that `addr` names was asked to take the
    /// status `next` at `now`: a terminal status is refused, and so is every
    /// status if `addr` names no live child.
    pub open spec fn set_status(self, addr: Addr, next: StatusModel, now: u64) -> Self {
        if self.is_live(addr) && !next.kind.spec_is_terminal() {
            self.with_child(addr, self.actor(addr).set_status(next), now)
        } else {
            self
        }
    }

    /// What asking the child that `addr` names to take the status `next`
    /// reports.
    pub open spec fn status_report(self, addr: Addr, next: StatusModel) -> Option<Severity> {
        if self.is_live(addr) && !next.kind.spec_is_terminal() {
            self.actor(addr).status_report(next)
        } else {
            None
        }
    }

    /// The group after the token of request `id` of the child that `addr`
    /// names was used.
    pub open spec fn use_token(self, addr: Addr, id: u64, token_use: TokenUse<M>) -> Self {
        if self.is_live(addr) {
            self.with_actor(
                addr,
                self.actor(addr).with_requests(self.actor(addr).requests.settle(id, token_use)),
            )
        } else {
            self
        }
    }

    /// Whether request `id` of the child that `addr` names is open.
    pub open spec fn is_open(self, addr: Addr, id: u64) -> bool {
        self.is_live(addr) && self.actor(addr).requests.is_open(id)
    }

    /// The group after the child that `addr` names looked once at every
    /// pending slot of `fanout`.
    pub open spec fn polled_all(self, addr: Addr, fanout: FanoutModel<M>) -> Self {
        if self.is_live(addr) {
            self.with_actor(
                addr,
                self.actor(addr).with_requests(
                    FanoutModel::<M>::table_after(
                        self.actor(addr).requests,
                        fanout.pending,
                        self.actor(addr).refuses_sends(),
                    ),
                ),
            )
        } else {
            self
        }
    }

    /// The group with the mailbox of every live child closed.
    pub open spec fn close_all(self) -> Self {
        GroupModel {
            slots: Seq::new(
                self.slots.len(),
                |i: int|
                    SlotModel {
                        actor: match self.slots[i].actor {
                            Some(actor) => Some(actor.close()),
                            None => None,
                        },
                        ..self.slots[i]
                    },
            ),
            ..self
        }
    }

    /// `later` can come after `self`: slots stay, generations do not go
    /// back, and a slot that is live in `later` with the generation it has
    /// in `self` was live in `self`.
    pub open spec fn evolves_to(self, later: Self) -> bool {
        &&& later.group_no == self.group_no
        &&& later.slots.len() >= self.slots.len()
        &&& forall|i: int|
            0 <= i < self.slots.len() ==> {
                &&& (#[trigger] later.slots[i]).generation >= self.slots[i].generation
                &&& later.slots[i].generation == self.slots[i].generation && later.slots[i].is_live()
                    ==> self.slots[i].is_live()
            }
    }
}

/// At most one child per key: two occupied slots with the same key are the
/// same slot.
pub proof fn lemma_one_slot_per_key<M>(group: GroupModel<M>, i: int, j: int)
    requires
        group.wf(),
        0 <= i < group.slots.len(),
        0 <= j < group.slots.len(),
        group.slots[i].is_occupied(),
        group.slots[j].is_occupied(),
        group.slots[i].key == group.slots[j].key,
    ensures
        i == j,
{
}

/// The slot of a key is the one occupied slot with that key.
pub proof fn lemma_index_of<M>(group: GroupModel<M>, key: u64, i: int)
    requires
        group.wf(),
        0 <= i < group.slots.len(),
        group.slots[i].is_occupied(),
        group.slots[i].key == key,
    ensures
        group.holds(key),
        group.index_of(key) == i,
{
    lemma_one_slot_per_key(group, i, group.index_of(key));
}

/// A live child is reached by its address, and by no address with another
/// generation.
pub proof fn lemma_live_child_resolves<M>(group: GroupModel<M>, index: int, addr: Addr)
    requires
        group.wf(),
        0 <= index < group.slots.len(),
        group.slots[index].is_live(),
    ensures
        group.is_live(group.addr_of(index)),
        group.actor(group.addr_of(index)) == group.slots[index].actor->0,
        group.actor(group.addr_of(index)).addr() == group.addr_of(index),
        group.is_live(addr) && addr.spec_local() == index ==> addr == group.addr_of(index),
{
    lemma_from_parts(group.group_no, group.slots[index].generation, index as u32);
    crate::addr::lemma_addr_equal_iff_parts_equal(addr, group.addr_of(index));
}

/// Coming after is transitive, and every state comes after itself.
pub proof fn lemma_evolves_transitive<M>(a: GroupModel<M>, b: GroupModel<M>, c: GroupModel<M>)
    requires
        a.evolves_to(b),
        b.evolves_to(c),
    ensures
        a.evolves_to(c),
        a.evolves_to(a),
{
    assert forall|i: int| 0 <= i < a.slots.len() implies {
        &&& (#[trigger] c.slots[i]).generation >= a.slots[i].generation
        &&& c.slots[i].generation == a.slots[i].generation && c.slots[i].is_live()
            ==> a.slots[i].is_live()
    } by {
        assert(b.slots[i].generation >= a.slots[i].generation);
    }
}

/// The address of a dead child stays dead: if `addr` was handed out by the
/// group and names no live child, it names none in any later state, whatever
/// was spawned or restarted since.
pub proof fn lemma_dead_address_stays_dead<M>(
    group: GroupModel<M>,
    later: GroupModel<M>,
    addr: Addr,
)
    requires
        group.evolves_to(later),
        addr.spec_local() < group.slots.len(),
        addr.spec_generation() <= group.slots[addr.spec_local() as int].generation,
        !group.is_live(addr),
    ensures
        !later.is_live(addr),
{
    let index = addr.spec_local() as int;
    assert(later.slots[index].generation >= group.slots[index].generation);
}


/// A child that ended is never reached again: once the child at `addr` has
/// ended, with a failure or without, every send to `addr` is refused as
/// closed and changes nothing, in the state after the exit and in every
/// state that comes after it, whoever was spawned or restarted meanwhile.
pub proof fn lemma_ended_child_is_closed<M>(
    group: GroupModel<M>,
    later: GroupModel<M>,
    addr: Addr,
    failed: bool,
    now: u64,
    entropy: u64,
    envelope: Envelope<M>,
)
    requires
        group.is_live(addr),
        group.exit(addr, failed, now, entropy).evolves_to(later),
    ensures
        !group.exit(addr, failed, now, entropy).is_live(addr),
        !later.is_live(addr),
        later.send_to_result(addr, envelope) == Err::<(), _>(TrySendError::Closed(envelope)),
        later.send_to(addr, envelope) == later,
{
    lemma_dead_address_stays_dead(group.exit(addr, failed, now, entropy), later, addr);
}

/// Replacing a slot keeps the group well-formed if the new content is
/// well-formed for that slot and its key is not taken elsewhere.
pub proof fn lemma_with_slot_wf<M>(group: GroupModel<M>, index: int, slot: SlotModel<M>)
    requires
        group.wf(),
        0 <= index < group.slots.len(),
        slot.wf(group.group_no, index),
        slot.is_occupied() ==> forall|j: int|
            0 <= j < group.slots.len() && j != index && #[trigger] group.slots[j].is_occupied()
                ==> group.slots[j].key != slot.key,
    ensures
        group.with_slot(index, slot).wf(),
{
    let after = group.with_slot(index, slot);
    assert forall|i: int| 0 <= i < after.slots.len() implies (#[trigger] after.slots[i]).wf(
        after.group_no,
        i,
    ) by {
        if i != index {
            assert(after.slots[i] == group.slots[i]);
        }
    }
    assert forall|i: int, j: int|
        0 <= i < after.slots.len() && 0 <= j < after.slots.len() && i != j
            && #[trigger] after.slots[i].is_occupied()
            && #[trigger] after.slots[j].is_occupied() implies after.slots[i].key
        != after.slots[j].key by {
        if i != index && j != index {
            assert(group.slots[i].is_occupied() && group.slots[j].is_occupied());
        } else if i == index {
            assert(group.slots[j].is_occupied());
        } else {
            assert(group.slots[i].is_occupied());
        }
    }
}

/// Replacing the live child of a slot by a later state of it keeps the group
/// well-formed and is a step of its evolution.
pub proof fn lemma_with_actor_wf<M>(group: GroupModel<M>, addr: Addr, actor: ActorModel<M>)
    requires
        group.wf(),
        group.is_live(addr),
        actor.wf(),
        !actor.status.kind.spec_is_terminal(),
        actor.addr() == group.actor(addr).addr(),
    ensures
        group.with_actor(addr, actor).wf(),
        group.evolves_to(group.with_actor(addr, actor)),
        group.with_actor(addr, actor).is_live(addr),
        group.with_actor(addr, actor).actor(addr) == actor,
        forall|key: u64| group.with_actor(addr, actor).holds(key) == group.holds(key),
{
    let index = addr.spec_local() as int;
    let slot = SlotModel { actor: Some(actor), ..group.slots[index] };
    let after = group.with_actor(addr, actor);
    assert(group.slots[index].wf(group.group_no, index));
    assert forall|j: int|
        0 <= j < group.slots.len() && j != index
            && #[trigger] group.slots[j].is_occupied() implies group.slots[j].key != slot.key by {
        assert(group.slots[index].is_occupied());
    }
    lemma_with_slot_wf(group, index, slot);
    assert forall|key: u64| after.holds(key) == group.holds(key) by {
        if group.holds(key) {
            let i = group.index_of(key);
            assert(after.slots[i].is_occupied() && after.slots[i].key == key);
        }
        if after.holds(key) {
            let i = after.index_of(key);
            assert(group.slots[i].is_occupied() && group.slots[i].key == key);
        }
    }
}

/// One slot of a group.
#[derive(Debug)]
pub struct Slot<M> {
    generation: u16,
    key: u64,
    actor: Option<Actor<M>>,
    restart_at: Option<u64>,
    backoff: Backoff,
}

impl<M> View for Slot<M> {
    type V = SlotModel<M>;

    closed spec fn view(&self) -> SlotModel<M> {
        SlotModel {
            generation: self.generation,
            key: self.key,
            actor: match self.actor {
                Some(actor) => Some(actor@),
                None => None,
            },
            restart_at: self.restart_at,
            backoff: self.backoff@,
        }
    }
}

impl<M> Slot<M> {
    fn unused() -> (slot: Slot<M>)
        ensures
            slot@ == unused_slot::<M>(),
    {
        Slot { generation: 0, key: 0, actor: None, restart_at: None, backoff: Backoff::new() }
    }
}

/// What asking a group for the child of a key gave.
#[derive(Debug)]
pub struct Ensured {
    /// The address of the live child, if there is one now.
    pub addr: Option<Addr>,
    /// Whether the child was spawned by this call: the caller then starts
    /// its body.
    pub spawned: bool,
}

/// The children of one actor group, by shard key and by address.
#[derive(Debug)]
pub struct Group<M> {
    group_no: u16,
    capacity: usize,
    fallback: Fallback,
    slots: Vec<Slot<M>>,
}

impl<M> View for Group<M> {
    type V = GroupModel<M>;

    closed spec fn view(&self) -> GroupModel<M> {
        GroupModel {
            group_no: self.group_no,
            capacity: self.capacity as nat,
            fallback: self.fallback,
            slots: self.slots@.map_values(|slot: Slot<M>| slot@),
        }
    }
}

impl<M> Group<M> {
    /// Holds of every group that this module hands out.
    pub open spec fn inv(&self) -> bool {
        self@.wf()
    }

    /// A group without children. Its children get mailboxes of the given
    /// capacity.
    pub fn new(group_no: u16, capacity: usize, fallback: Fallback) -> (group: Group<M>)
        ensures
            group.inv(),
            group@ == (GroupModel::<M> {
                group_no,
                capacity: capacity as nat,
                fallback,
                slots: Seq::empty(),
            }),
    {
        let group = Group { group_no, capacity, fallback, slots: Vec::new() };
        assert(group@.slots =~= Seq::empty());
        group
    }

    pub fn group_no(&self) -> (group_no: u16)
        ensures
            group_no == self@.group_no,
    {
        self.group_no
    }

    /// The address of the group itself.
    pub fn addr(&self) -> (addr: Addr)
        ensures
            addr == Addr::spec_from_parts(self@.group_no, 0, 0),
    {
        Addr::from_parts(self.group_no, 0, 0)
    }

    /// The number of slots, free ones included.
    pub fn slot_count(&self) -> (count: usize)
        ensures
            count == self@.slots.len(),
    {
        self.slots.len()
    }

    fn take_slot(&mut self, index: usize) -> (slot: Slot<M>)
        requires
            index < old(self)@.slots.len(),
        ensures
            slot@ == old(self)@.slots[index as int],
            final(self)@ == old(self)@.with_slot(index as int, unused_slot::<M>()),
            final(self).slots@.len() == old(self).slots@.len(),
    {
        let mut slot = Slot::unused();
        self.slots.set_and_swap(index, &mut slot);
        assert(self@.slots =~= old(self)@.slots.update(index as int, unused_slot::<M>()));
        slot
    }

    fn put_slot(&mut self, index: usize, slot: Slot<M>)
        requires
            index < old(self)@.slots.len(),
        ensures
            final(self)@ == old(self)@.with_slot(index as int, slot@),
            final(self).slots@.len() == old(self).slots@.len(),
    {
        self.slots.set(index, slot);
        assert(self@.slots =~= old(self)@.slots.update(index as int, slot@));
    }

    /// The slot that is occupied for `key`, if there is one.
    pub fn find(&self, key: u64) -> (found: Option<usize>)
        requires
            self.inv(),
        ensures
            match found {
                Some(index) => self@.holds(key) && index == self@.index_of(key),
                None => !self@.holds(key),
            },
    {
        let mut i: usize = 0;
        while i < self.slots.len()
            invariant
                self.inv(),
                i <= self.slots.len(),
                forall|j: int| 0 <= j < i ==> !(#[trigger] self@.slots[j].is_occupied()
                    && self@.slots[j].key == key),
            decreases self.slots.len() - i,
        {
            let slot = &self.slots[i];
            if (slot.actor.is_some() || slot.restart_at.is_some()) && slot.key == key {
                proof {
                    lemma_index_of(self@, key, i as int);
                }
                return Some(i);
            }
            i += 1;
        }
        None
    }

    /// The slot of the live child that `addr` names, if it names one.
    fn live_index(&self, addr: Addr) -> (found: Option<usize>)
        ensures
            match found {
                Some(index) => self@.is_live(addr) && index == addr.spec_local(),
                None => !self@.is_live(addr),
            },
    {
        let index = addr.local() as usize;
        if addr.group_slot() == self.group_no && index < self.slots.len() {
            let slot = &self.slots[index];
            if slot.generation == addr.generation() && slot.actor.is_some() {
                return Some(index);
            }
        }
        None
    }

    /// Whether `addr` names a live child of this group.
    pub fn is_live(&self, addr: Addr) -> (live: bool)
        ensures
            live == self@.is_live(addr),
    {
        self.live_index(addr).is_some()
    }

    /// The live child that `addr` names: its address resolves while the
    /// child is not terminal, and never after.
    pub fn actor(&self, addr: Addr) -> (actor: Option<&Actor<M>>)
        ensures
            match actor {
                Some(actor) => self@.is_live(addr) && actor@ == self@.actor(addr),
                None => !self@.is_live(addr),
            },
    {
        match self.live_index(addr) {
            Some(index) => self.slots[index].actor.as_ref(),
            None => None,
        }
    }

    /// The shard key of the live child that `addr` names.
    pub fn key_of(&self, addr: Addr) -> (key: Option<u64>)
        ensures
            match key {
                Some(key) => self@.is_live(addr) && key == self@.slots[addr.spec_local() as int].key,
                None => !self@.is_live(addr),
            },
    {
        match self.live_index(addr) {
            Some(index) => Some(self.slots[index].key),
            None => None,
        }
    }

    /// The address of the live child for `key`, if there is one.
    pub fn child(&self, key: u64) -> (addr: Option<Addr>)
        requires
            self.inv(),
        ensures
            addr == self@.child(key),
            addr matches Some(addr) ==> self@.is_live(addr),
    {
        match self.find(key) {
            Some(index) => {
                let slot = &self.slots[index];
                if slot.actor.is_some() {
                    proof {
                        lemma_live_child_resolves(self@, index as int, Addr::spec_null());
                    }
                    Some(Addr::from_parts(self.group_no, slot.generation, index as u32))
                } else {
                    None
                }
            },
            None => None,
        }
    }

    /// The first slot from `from` on where a new child can be put, or the
    /// number of slots.
    fn find_room(&self) -> (index: usize)
        ensures
            index == self@.first_reusable(0),
            index <= self@.slots.len(),
    {
        let mut i: usize = 0;
        while i < self.slots.len()
            invariant
                i <= self.slots.len(),
                self@.first_reusable(0) == self@.first_reusable(i as int),
            decreases self.slots.len() - i,
        {
            let slot = &self.slots[i];
            if slot.actor.is_none() && slot.restart_at.is_none() && slot.generation < u16::MAX {
                return i;
            }
            i += 1;
        }
        i
    }

    /// Puts a new child for `key` into `slot`, which is or will be slot
    /// `index`.
    fn spawn_in(&self, slot: Slot<M>, index: usize, key: u64) -> (spawned: (Slot<M>, Addr))
        requires
            slot@.generation < u16::MAX,
            index <= u32::MAX,
        ensures
            spawned.0@ == slot@.spawn(self@.group_no, index as int, key, self@.capacity),
            spawned.1 == Addr::spec_from_parts(
                self@.group_no,
                (slot@.generation + 1) as u16,
                index as u32,
            ),
    {
        let generation: u16 = slot.generation + 1;
        let addr = Addr::from_parts(self.group_no, generation, index as u32);
        let spawned = Slot {
            generation,
            key,
            actor: Some(Actor::with_capacity(addr, self.capacity)),
            restart_at: None,
            backoff: slot.backoff,
        };
        (spawned, addr)
    }

    /// Gives the live child for `key`, spawning it if the key has no slot.
    /// A key whose child failed and waits for its restart has no live child
    /// and gets none here. A spawned child is initializing, has an empty
    /// mailbox and a generation that its slot never had before.
    pub fn ensure(&mut self, key: u64) -> (ensured: Ensured)
        requires
            old(self).inv(),
        ensures
            final(self).inv(),
            final(self)@ == old(self)@.ensure(key),
            old(self)@.evolves_to(final(self)@),
            ensured.spawned == old(self)@.spawns(key),
            ensured.addr == final(self)@.child(key),
            ensured.addr matches Some(addr) ==> final(self)@.is_live(addr),
            ensured.spawned ==> ensured.addr is Some && !old(self)@.is_live(ensured.addr->0),
    {
        match self.find(key) {
            Some(index) => {
                let slot = &self.slots[index];
                let addr = if slot.actor.is_some() {
                    proof {
                        lemma_live_child_resolves(self@, index as int, Addr::spec_null());
                    }
                    Some(Addr::from_parts(self.group_no, slot.generation, index as u32))
                } else {
                    None
                };
                Ensured { addr, spawned: false }
            },
            None => {
                let index = self.find_room();
                assert(self@.slots.len() == self.slots@.len());
                if index == self.slots.len() && index >= u32::MAX as usize {
                    return Ensured { addr: None, spawned: false };
                }
                let addr = if index < self.slots.len() {
                    proof {
                        lemma_first_reusable(old(self)@, 0);
                    }
                    let slot = self.take_slot(index);
                    let (slot, addr) = self.spawn_in(slot, index, key);
                    self.put_slot(index, slot);
                    assert(self@.slots =~= old(self)@.spawn_at(index as int, key).slots);
                    addr
                } else {
                    let (slot, addr) = self.spawn_in(Slot::unused(), index, key);
                    let ghost pushed = slot@;
                    self.slots.push(slot);
                    assert(self@.slots =~= old(self)@.slots.push(pushed));
                    addr
                };
                proof {
                    lemma_spawn_at(old(self)@, index as int, key);
                    lemma_live_child_resolves(self@, index as int, Addr::spec_null());
                }
                Ensured { addr: Some(addr), spawned: true }
            },
        }
    }

    /// Queues `envelope` in the mailbox of the child that `addr` names. An
    /// address that names no live child is closed: a dead child is never
    /// reached again, and its address never reaches a later child.
    pub fn try_send_to(&mut self, addr: Addr, envelope: Envelope<M>) -> (result: Result<
        (),
        TrySendError<Envelope<M>>,
    >)
        requires
            old(self).inv(),
        ensures
            final(self).inv(),
            old(self)@.evolves_to(final(self)@),
            final(self)@ == old(self)@.send_to(addr, envelope),
            result == old(self)@.send_to_result(addr, envelope),
    {
        match self.live_index(addr) {
            None => Err(TrySendError::Closed(envelope)),
            Some(index) => {
                let mut slot = self.take_slot(index);
                let mut actor = slot.actor.take().unwrap();
                let result = actor.try_send(envelope);
                slot.actor = Some(actor);
                proof {
                    lemma_with_actor_wf(old(self)@, addr, actor@);
                }
                self.put_slot(index, slot);
                assert(self@.slots =~= old(self)@.with_actor(addr, actor@).slots);
                result
            },
        }
    }

    /// Takes the oldest envelope from the mailbox of the child that `addr`
    /// names; nothing if it names no live child. The first envelope makes an
    /// initializing child `Normal`.
    pub fn try_recv(&mut self, addr: Addr, now: u64) -> (result: Option<
        Result<Envelope<M>, TryRecvError>,
    >)
        requires
            old(self).inv(),
        ensures
            final(self).inv(),
            old(self)@.evolves_to(final(self)@),
            old(self)@.is_live(addr) ==> final(self)@ == old(self)@.with_child(
                addr,
                old(self)@.actor(addr).recv(),
                now,
            ) && result == Some(old(self)@.actor(addr).mailbox.recv_result()),
            !old(self)@.is_live(addr) ==> final(self)@ == old(self)@ && result is None,
    {
        match self.live_index(addr) {
            None => None,
            Some(index) => {
                let mut slot = self.take_slot(index);
                let mut actor = slot.actor.take().unwrap();
                let result = actor.try_recv();
                slot.backoff.observe(actor.status().kind(), now);
                slot.actor = Some(actor);
                proof {
                    lemma_with_child_wf(old(self)@, addr, actor@, now);
                }
                self.put_slot(index, slot);
                assert(self@.slots =~= old(self)@.with_child(addr, actor@, now).slots);
                Some(result)
            },
        }
    }

    /// Asks the child that `addr` names to take `status`; see
    /// [`Actor::set_status`]. A terminal status is refused here: a child
    /// becomes terminal only by [`Group::exit`]. Nothing happens if `addr`
    /// names no live child.
    pub fn set_status(&mut self, addr: Addr, status: ActorStatus, now: u64) -> (reported: Option<
        Severity,
    >)
        requires
            old(self).inv(),
        ensures
            final(self).inv(),
            old(self)@.evolves_to(final(self)@),
            final(self)@ == old(self)@.set_status(addr, status@, now),
            reported == old(self)@.status_report(addr, status@),
    {
        if status.kind().is_terminal() {
            return None;
        }
        match self.live_index(addr) {
            None => None,
            Some(index) => {
                let mut slot = self.take_slot(index);
                let mut actor = slot.actor.take().unwrap();
                let reported = actor.set_status(status);
                slot.backoff.observe(actor.status().kind(), now);
                slot.actor = Some(actor);
                proof {
                    lemma_with_child_wf(old(self)@, addr, actor@, now);
                }
                self.put_slot(index, slot);
                assert(self@.slots =~= old(self)@.with_child(addr, actor@, now).slots);
                reported
            },
        }
    }

    /// Notes that the body of the child at `addr` ended at `now`, with a
    /// failure or without. The child becomes `Failed` or `Terminated`, its
    /// mailbox is closed, and it is handed out: its address names nobody any
    /// more. After a failure the slot waits for the restart, which is due
    /// after the delay of [`Backoff::fail`]; otherwise the slot is free and
    /// the key has no child until it is routed to again.
    pub fn exit(&mut self, addr: Addr, failed: bool, now: u64, entropy: u64) -> (exit: Exit<M>)
        requires
            old(self).inv(),
        ensures
            final(self).inv(),
            old(self)@.evolves_to(final(self)@),
            final(self)@ == old(self)@.exit(addr, failed, now, entropy),
            !final(self)@.is_live(addr),
            match exit {
                Exit::Unknown => !old(self)@.is_live(addr),
                Exit::Removed { actor } => old(self)@.is_live(addr) && !failed && actor@ == old(
                    self,
                )@.actor(addr).set_status(
                    StatusModel { kind: ActorStatusKind::Terminated, details: None },
                ),
                Exit::Restarting { actor, restart_at } => old(self)@.is_live(addr) && failed
                    && actor@ == old(self)@.actor(addr).set_status(
                    StatusModel { kind: ActorStatusKind::Failed, details: None },
                ) && restart_at == old(self)@.restart_time(addr, now, entropy),
            },
    {
        match self.live_index(addr) {
            None => Exit::Unknown,
            Some(index) => {
                let mut slot = self.take_slot(index);
                let mut actor = slot.actor.take().unwrap();
                assert(old(self)@.slots[index as int].wf(old(self)@.group_no, index as int));
                if failed {
                    actor.set_status(ActorStatus::failed());
                    let delay = slot.backoff.fail(now, entropy);
                    let restart_at = now.saturating_add(delay);
                    slot.restart_at = Some(restart_at);
                    proof {
                        lemma_slot_change_wf(old(self)@, index as int, slot@);
                    }
                    self.put_slot(index, slot);
                    assert(self@.slots =~= old(self)@.exit(addr, failed, now, entropy).slots);
                    Exit::Restarting { actor, restart_at }
                } else {
                    actor.set_status(ActorStatus::terminated());
                    slot.restart_at = None;
                    proof {
                        lemma_slot_change_wf(old(self)@, index as int, slot@);
                    }
                    self.put_slot(index, slot);
                    assert(self@.slots =~= old(self)@.exit(addr, failed, now, entropy).slots);
                    Exit::Removed { actor }
                }
            },
        }
    }

    /// Starts the failed child for `key` again if it is due at `now`. The
    /// new child has the same slot, the next generation, and so a new
    /// address; it is initializing and has an empty mailbox.
    pub fn restart(&mut self, key: u64, now: u64) -> (addr: Option<Addr>)
        requires
            old(self).inv(),
        ensures
            final(self).inv(),
            old(self)@.evolves_to(final(self)@),
            final(self)@ == old(self)@.restart(key, now),
            addr == (if old(self)@.is_due(key, now) {
                final(self)@.child(key)
            } else {
                None
            }),
            addr matches Some(addr) ==> !old(self)@.is_live(addr) && final(self)@.is_live(addr),
    {
        let index = match self.find(key) {
            Some(index) => index,
            None => {
                return None;
            },
        };
        let due = {
            let slot = &self.slots[index];
            match slot.restart_at {
                Some(restart_at) => slot.actor.is_none() && restart_at <= now,
                None => false,
            }
        };
        if !due {
            return None;
        }
        let mut slot = self.take_slot(index);
        slot.restart_at = None;
        if slot.generation < u16::MAX {
            let (slot, addr) = self.spawn_in(slot, index, key);
            proof {
                lemma_slot_change_wf(old(self)@, index as int, slot@);
                lemma_index_of(old(self)@.restart(key, now), key, index as int);
                lemma_from_parts(self@.group_no, slot@.generation, index as u32);
            }
            self.put_slot(index, slot);
            assert(self@.slots =~= old(self)@.restart(key, now).slots);
            proof {
                lemma_live_child_resolves(self@, index as int, Addr::spec_null());
            }
            Some(addr)
        } else {
            proof {
                lemma_slot_change_wf(old(self)@, index as int, slot@);
            }
            self.put_slot(index, slot);
            assert(self@.slots =~= old(self)@.restart(key, now).slots);
            proof {
                let after = old(self)@.restart(key, now);
                if after.holds(key) {
                    let j = after.index_of(key);
                    assert(old(self)@.slots[j].is_occupied());
                    lemma_one_slot_per_key(old(self)@, j, index as int);
                }
            }
            None
        }
    }

    /// The key of the first failed child, in slot order, that is due again
    /// at `now`.
    pub fn due(&self, now: u64) -> (key: Option<u64>)
        requires
            self.inv(),
        ensures
            match key {
                Some(key) => self@.is_due(key, now) && forall|other: u64|
                    self@.is_due(other, now) ==> self@.index_of(key) <= self@.index_of(other),
                None => forall|key: u64| !self@.is_due(key, now),
            },
    {
        let mut i: usize = 0;
        while i < self.slots.len()
            invariant
                self.inv(),
                i <= self.slots.len(),
                self@.slots.len() == self.slots@.len(),
                forall|j: int| 0 <= j < i ==> !(#[trigger] self@.slots[j].is_waiting()
                    && self@.slots[j].restart_at->0 <= now),
            decreases self.slots.len() - i,
        {
            let slot = &self.slots[i];
            let due = match slot.restart_at {
                Some(restart_at) => slot.actor.is_none() && restart_at <= now,
                None => false,
            };
            if due {
                proof {
                    lemma_index_of(self@, slot.key, i as int);
                    assert forall|other: u64| self@.is_due(other, now) implies i
                        <= self@.index_of(other) by {
                        let j = self@.index_of(other);
                        if j < i {
                            assert(self@.slots[j].is_waiting());
                        }
                    }
                }
                return Some(slot.key);
            }
            i += 1;
        }
        None
    }

    /// Finds the children that an envelope with the given outcome goes to,
    /// spawning those that unicast and multicast ask for. The caller puts the
    /// envelope into the mailbox of each target and starts the body of each
    /// spawned child.
    pub fn route(&mut self, outcome: &Outcome) -> (routed: Routed)
        requires
            old(self).inv(),
        ensures
            final(self).inv(),
            old(self)@.evolves_to(final(self)@),
            final(self)@ == old(self)@.route(outcome.decide(old(self)@.fallback)),
            routed.targets@ == old(self)@.targets(outcome.decide(old(self)@.fallback)),
            routed.spawned@ == old(self)@.spawned(outcome.decide(old(self)@.fallback)),
            forall|i: int|
                0 <= i < routed.targets@.len() ==> final(self)@.is_live(#[trigger] routed.targets@[i]),
    {
        let ghost before = self@;
        let ghost decision = outcome.decide(self@.fallback);
        let mut targets: Vec<Addr> = Vec::new();
        let mut spawned: Vec<Addr> = Vec::new();
        proof {
            lemma_evolves_transitive(self@, self@, self@);
        }
        match outcome {
            Outcome::Unicast(key) => {
                let ensured = self.ensure(*key);
                if let Some(addr) = ensured.addr {
                    targets.push(addr);
                    if ensured.spawned {
                        spawned.push(addr);
                    }
                }
                assert(targets@ =~= present(ensured.addr));
                assert(spawned@ =~= old(self)@.spawned(Decision::Unicast(*key)));
            },
            Outcome::Multicast(keys) => {
                self.ensure_each(keys, &mut targets, &mut spawned);
            },
            Outcome::Broadcast => {
                self.collect_live(&mut targets);
            },
            Outcome::Discard => {},
            Outcome::Default => {
                match self.fallback {
                    Fallback::Broadcast => {
                        self.collect_live(&mut targets);
                    },
                    Fallback::Discard => {},
                }
            },
        }
        proof {
            assert forall|i: int| 0 <= i < targets@.len() implies self@.is_live(
                #[trigger] targets@[i],
            ) by {
                lemma_targets_are_live(before, decision, i);
            }
        }
        Routed { targets, spawned }
    }

    fn ensure_each(&mut self, keys: &Vec<u64>, targets: &mut Vec<Addr>, spawned: &mut Vec<Addr>)
        requires
            old(self).inv(),
            old(targets)@.len() == 0,
            old(spawned)@.len() == 0,
        ensures
            final(self).inv(),
            old(self)@.evolves_to(final(self)@),
            final(self)@ == old(self)@.ensure_all(keys@),
            final(targets)@ == old(self)@.multicast_targets(keys@),
            final(spawned)@ == old(self)@.multicast_spawned(keys@),
    {
        let mut i: usize = 0;
        proof {
            lemma_evolves_transitive(self@, self@, self@);
            assert(keys@.take(0) =~= Seq::<u64>::empty());
            assert(targets@ =~= Seq::<Addr>::empty());
            assert(spawned@ =~= Seq::<Addr>::empty());
        }
        while i < keys.len()
            invariant
                self.inv(),
                i <= keys.len(),
                old(self)@.evolves_to(self@),
                self@ == old(self)@.ensure_all(keys@.take(i as int)),
                targets@ == old(self)@.multicast_targets(keys@.take(i as int)),
                spawned@ == old(self)@.multicast_spawned(keys@.take(i as int)),
            decreases keys.len() - i,
        {
            let ghost before = self@;
            let ensured = self.ensure(keys[i]);
            if let Some(addr) = ensured.addr {
                targets.push(addr);
                if ensured.spawned {
                    spawned.push(addr);
                }
            }
            proof {
                let prefix = keys@.take(i as int + 1);
                assert(prefix.drop_last() =~= keys@.take(i as int));
                assert(prefix.last() == keys@[i as int]);
                lemma_evolves_transitive(old(self)@, before, self@);
                assert(targets@ =~= old(self)@.multicast_targets(prefix));
                assert(spawned@ =~= old(self)@.multicast_spawned(prefix));
            }
            i += 1;
        }
        proof {
            assert(keys@.take(keys@.len() as int) =~= keys@);
        }
    }

    fn collect_live(&self, targets: &mut Vec<Addr>)
        requires
            old(targets)@.len() == 0,
        ensures
            final(targets)@ == self@.live_addrs(self@.slots.len() as int),
    {
        let mut i: usize = 0;
        proof {
            assert(targets@ =~= Seq::<Addr>::empty());
        }
        while i < self.slots.len()
            invariant
                i <= self.slots.len(),
                self@.slots.len() == self.slots@.len(),
                targets@ == self@.live_addrs(i as int),
            decreases self.slots.len() - i,
        {
            let slot = &self.slots[i];
            if slot.actor.is_some() {
                targets.push(Addr::from_parts(self.group_no, slot.generation, i as u32));
            }
            proof {
                assert(targets@ =~= self@.live_addrs(i as int + 1));
            }
            i += 1;
        }
    }

    /// Routes a message: finds the children that the outcome names, spawning
    /// those that unicast and multicast ask for, and offers each of them an
    /// envelope of the given kind with a clone of `message`, created at
    /// `now`. The result tells the targets, the spawned children, and for
    /// each target, in order, what the offer returned.
    pub fn try_send(&mut self, outcome: &Outcome, message: &M, kind: MessageKind, now: u64) -> (sent:
        Sent<M>) where M: Clone
        requires
            old(self).inv(),
        ensures
            final(self).inv(),
            old(self)@.evolves_to(final(self)@),
            sent.targets@ == old(self)@.targets(outcome.decide(old(self)@.fallback)),
            sent.spawned@ == old(self)@.spawned(outcome.decide(old(self)@.fallback)),
            sent.results@.len() == sent.targets@.len(),
            exists|envelopes: Seq<Envelope<M>>|
                {
                    &&& envelopes.len() == sent.targets@.len()
                    &&& forall|i: int|
                        0 <= i < envelopes.len() ==> (#[trigger] envelopes[i]).kind == kind
                            && envelopes[i].created_at == now && cloned(
                            *message,
                            envelopes[i].message,
                        )
                    &&& final(self)@ == old(self)@.route(
                        outcome.decide(old(self)@.fallback),
                    ).send_each(sent.targets@, envelopes)
                    &&& sent.results@ == old(self)@.route(
                        outcome.decide(old(self)@.fallback),
                    ).results_of(sent.targets@, envelopes)
                },
    {
        let routed = self.route(outcome);
        let ghost start = self@;
        let ghost mut envelopes: Seq<Envelope<M>> = Seq::empty();
        let mut results: Vec<Result<(), TrySendError<Envelope<M>>>> = Vec::new();
        let mut i: usize = 0;
        proof {
            assert(routed.targets@.take(0) =~= Seq::<Addr>::empty());
        }
        while i < routed.targets.len()
            invariant
                self.inv(),
                i <= routed.targets.len(),
                old(self)@.evolves_to(start),
                start.evolves_to(self@),
                envelopes.len() == i,
                results@.len() == i,
                forall|j: int|
                    0 <= j < envelopes.len() ==> (#[trigger] envelopes[j]).kind == kind
                        && envelopes[j].created_at == now && cloned(*message, envelopes[j].message),
                self@ == start.send_each(routed.targets@.take(i as int), envelopes),
                results@ == start.results_of(routed.targets@.take(i as int), envelopes),
            decreases routed.targets.len() - i,
        {
            let ghost before = self@;
            let envelope = Envelope::new(message.clone(), kind, now);
            let ghost offered = envelope;
            let result = self.try_send_to(routed.targets[i], envelope);
            results.push(result);
            proof {
                let prefix = routed.targets@.take(i as int + 1);
                let grown = envelopes.push(offered);
                assert(prefix.drop_last() =~= routed.targets@.take(i as int));
                assert(grown.drop_last() =~= envelopes);
                assert(prefix.last() == routed.targets@[i as int]);
                assert(grown.last() == offered);
                lemma_evolves_transitive(start, before, self@);
                envelopes = grown;
            }
            i += 1;
        }
        proof {
            assert(routed.targets@.take(routed.targets@.len() as int) =~= routed.targets@);
            lemma_evolves_transitive(old(self)@, start, self@);
        }
        Sent { targets: routed.targets, spawned: routed.spawned, results }
    }

    /// Registers a new open request of the child that `addr` names; see
    /// [`Actor::allocate_request`]. Nothing happens if it names no live
    /// child.
    pub fn allocate_request(&mut self, addr: Addr) -> (id: Option<u64>)
        requires
            old(self).inv(),
        ensures
            final(self).inv(),
            old(self)@.evolves_to(final(self)@),
            old(self)@.is_live(addr) ==> final(self)@ == old(self)@.with_actor(
                addr,
                old(self)@.actor(addr).with_requests(old(self)@.actor(addr).requests.allocate()),
            ) && id == old(self)@.actor(addr).requests.fresh_id(),
            !old(self)@.is_live(addr) ==> final(self)@ == old(self)@ && id is None,
    {
        match self.live_index(addr) {
            None => None,
            Some(index) => {
                let mut slot = self.take_slot(index);
                let mut actor = slot.actor.take().unwrap();
                let id = actor.allocate_request();
                slot.actor = Some(actor);
                proof {
                    lemma_with_actor_wf(old(self)@, addr, actor@);
                }
                self.put_slot(index, slot);
                assert(self@.slots =~= old(self)@.with_actor(addr, actor@).slots);
                id
            },
        }
    }

    /// Answers the request that `token` stands for with `response`. The
    /// token is consumed. The response is stored if the requester is a live
    /// child of this group and the request is still open; a requester that
    /// is gone is `Closed`, a request that is not open is `Ignored`.
    pub fn respond(&mut self, token: ResponseToken, response: Envelope<M>) -> (result: Result<
        (),
        RequestError,
    >)
        requires
            old(self).inv(),
        ensures
            final(self).inv(),
            old(self)@.evolves_to(final(self)@),
            old(self)@.is_live(token.spec_sender()) ==> final(self)@ == old(self)@.with_actor(
                token.spec_sender(),
                old(self)@.actor(token.spec_sender()).with_requests(
                    old(self)@.actor(token.spec_sender()).requests.settle(
                        token.spec_correlation_id(),
                        TokenUse::Fulfill(response),
                    ),
                ),
            ) && result == old(self)@.actor(token.spec_sender()).requests.fulfill_result(
                token.spec_correlation_id(),
            ),
            !old(self)@.is_live(token.spec_sender()) ==> final(self)@ == old(self)@ && result
                == Err::<(), _>(RequestError::Closed),
    {
        let addr = token.sender();
        match self.live_index(addr) {
            None => Err(RequestError::Closed),
            Some(index) => {
                let mut slot = self.take_slot(index);
                let mut actor = slot.actor.take().unwrap();
                proof {
                    actor@.requests.lemma_settle_wf(
                        token.spec_correlation_id(),
                        TokenUse::Fulfill(response),
                    );
                }
                let result = actor.fulfill(token.correlation_id(), response);
                slot.actor = Some(actor);
                proof {
                    lemma_with_actor_wf(old(self)@, addr, actor@);
                }
                self.put_slot(index, slot);
                assert(self@.slots =~= old(self)@.with_actor(addr, actor@).slots);
                result
            },
        }
    }

    /// Gives up the right to answer the request that `token` stands for:
    /// an open request becomes `Ignored`. Says whether it did, in which case
    /// the caller wakes the requester.
    pub fn drop_token(&mut self, token: ResponseToken) -> (ignored: bool)
        requires
            old(self).inv(),
        ensures
            final(self).inv(),
            old(self)@.evolves_to(final(self)@),
            final(self)@ == old(self)@.use_token(
                token.spec_sender(),
                token.spec_correlation_id(),
                TokenUse::DropToken,
            ),
            ignored == old(self)@.is_open(token.spec_sender(), token.spec_correlation_id()),
    {
        let addr = token.sender();
        match self.live_index(addr) {
            None => false,
            Some(index) => {
                let mut slot = self.take_slot(index);
                let mut actor = slot.actor.take().unwrap();
                proof {
                    actor@.requests.lemma_settle_wf(
                        token.spec_correlation_id(),
                        TokenUse::DropToken,
                    );
                }
                let ignored = actor.drop_token(token.correlation_id());
                slot.actor = Some(actor);
                proof {
                    lemma_with_actor_wf(old(self)@, addr, actor@);
                }
                self.put_slot(index, slot);
                assert(self@.slots =~= old(self)@.with_actor(addr, actor@).slots);
                ignored
            },
        }
    }

    /// One attempt of the child that `addr` names at awaiting its request
    /// `id`; see [`Actor::poll_request`]. An address that names no live child
    /// has no requests.
    pub fn poll_request(&mut self, addr: Addr, id: u64) -> (poll: RequestPoll<M>)
        requires
            old(self).inv(),
        ensures
            final(self).inv(),
            old(self)@.evolves_to(final(self)@),
            old(self)@.is_live(addr) ==> final(self)@ == old(self)@.with_actor(
                addr,
                old(self)@.actor(addr).with_requests(
                    old(self)@.actor(addr).requests.after_poll(
                        id,
                        old(self)@.actor(addr).refuses_sends(),
                    ),
                ),
            ) && poll == old(self)@.actor(addr).requests.poll_result(
                id,
                old(self)@.actor(addr).refuses_sends(),
            ),
            !old(self)@.is_live(addr) ==> final(self)@ == old(self)@ && poll
                == RequestPoll::<M>::Unknown,
    {
        match self.live_index(addr) {
            None => RequestPoll::Unknown,
            Some(index) => {
                let mut slot = self.take_slot(index);
                let mut actor = slot.actor.take().unwrap();
                let poll = actor.poll_request(id);
                slot.actor = Some(actor);
                proof {
                    lemma_with_actor_wf(old(self)@, addr, actor@);
                }
                self.put_slot(index, slot);
                assert(self@.slots =~= old(self)@.with_actor(addr, actor@).slots);
                poll
            },
        }
    }

    /// One attempt of the child that `addr` names at awaiting all responses
    /// of a fan-out; see [`Actor::poll_all`]. If `addr` names no live child,
    /// the requester is gone: the fan-out ends at once, with `Closed` for
    /// every destination that was still awaited.
    pub fn poll_all(&mut self, addr: Addr, fanout: &mut Fanout<M>) -> (all: Option<Vec<Resolved<M>>>)
        requires
            old(self).inv(),
        ensures
            final(self).inv(),
            old(self)@.evolves_to(final(self)@),
            final(self)@ == old(self)@.polled_all(addr, old(fanout)@),
            all matches Some(outcomes) ==> outcomes@.len() == old(fanout)@.expected() && final(
                fanout)@ == (FanoutModel::<M> { pending: Seq::empty(), outcomes: Seq::empty() }),
            !old(self)@.is_live(addr) ==> (all matches Some(outcomes) && outcomes@ == old(
                fanout,
            )@.closed_outcomes()),
            old(self)@.is_live(addr) ==> (match all {
                Some(outcomes) => outcomes@ == old(fanout)@.sweep(
                    old(self)@.actor(addr).requests,
                    old(self)@.actor(addr).refuses_sends(),
                ).outcomes,
                None => final(fanout)@ == old(fanout)@.sweep(
                    old(self)@.actor(addr).requests,
                    old(self)@.actor(addr).refuses_sends(),
                ) && final(fanout)@.pending.len() > 0,
            }),
    {
        match self.live_index(addr) {
            None => Some(fanout.close()),
            Some(index) => {
                let mut slot = self.take_slot(index);
                let mut actor = slot.actor.take().unwrap();
                let all = actor.poll_all(fanout);
                slot.actor = Some(actor);
                proof {
                    lemma_with_actor_wf(old(self)@, addr, actor@);
                }
                self.put_slot(index, slot);
                assert(self@.slots =~= old(self)@.with_actor(addr, actor@).slots);
                all
            },
        }
    }

    /// Gives up request `id` of the child that `addr` names; see
    /// [`Actor::cancel_request`].
    pub fn cancel_request(&mut self, addr: Addr, id: u64) -> (removed: bool)
        requires
            old(self).inv(),
        ensures
            final(self).inv(),
            old(self)@.evolves_to(final(self)@),
            old(self)@.is_live(addr) ==> final(self)@ == old(self)@.with_actor(
                addr,
                old(self)@.actor(addr).with_requests(old(self)@.actor(addr).requests.cancel(id)),
            ) && removed == old(self)@.actor(addr).requests.slots.contains_key(id),
            !old(self)@.is_live(addr) ==> final(self)@ == old(self)@ && !removed,
    {
        match self.live_index(addr) {
            None => false,
            Some(index) => {
                let mut slot = self.take_slot(index);
                let mut actor = slot.actor.take().unwrap();
                let removed = actor.cancel_request(id);
                slot.actor = Some(actor);
                proof {
                    lemma_with_actor_wf(old(self)@, addr, actor@);
                }
                self.put_slot(index, slot);
                assert(self@.slots =~= old(self)@.with_actor(addr, actor@).slots);
                removed
            },
        }
    }

    /// Closes the mailbox of every live child, as a shutdown does. The
    /// children stay alive to drain their mailboxes.
    pub fn close_all(&mut self)
        requires
            old(self).inv(),
        ensures
            final(self).inv(),
            old(self)@.evolves_to(final(self)@),
            final(self)@ == old(self)@.close_all(),
    {
        let mut i: usize = 0;
        proof {
            lemma_evolves_transitive(self@, self@, self@);
        }
        while i < self.slots.len()
            invariant
                self.inv(),
                i <= self.slots.len(),
                self@.slots.len() == self.slots@.len(),
                self@.slots.len() == old(self)@.slots.len(),
                self@.group_no == old(self)@.group_no,
                self@.capacity == old(self)@.capacity,
                self@.fallback == old(self)@.fallback,
                old(self)@.evolves_to(self@),
                forall|j: int| 0 <= j < i ==> #[trigger] self@.slots[j] == old(
                    self,
                )@.close_all().slots[j],
                forall|j: int| i <= j < self@.slots.len() ==> #[trigger] self@.slots[j] == old(
                    self,
                )@.slots[j],
            decreases self.slots.len() - i,
        {
            let ghost before = self@;
            if self.slots[i].actor.is_some() {
                let mut slot = self.take_slot(i);
                let mut actor = slot.actor.take().unwrap();
                assert(before.slots[i as int].wf(before.group_no, i as int));
                actor.close();
                slot.actor = Some(actor);
                proof {
                    lemma_slot_change_wf(before, i as int, slot@);
                }
                self.put_slot(i, slot);
                assert(self@.slots =~= before.with_slot(i as int, slot@).slots);
                proof {
                    lemma_evolves_transitive(old(self)@, before, self@);
                }
            }
            i += 1;
        }
        assert(self@.slots =~= old(self)@.close_all().slots);
    }
}

/// Where a routed message went.
#[derive(Debug)]
pub struct Sent<M> {
    /// The children that were offered the message, each once per mention.
    pub targets: Vec<Addr>,
    /// Those of them that were spawned for it.
    pub spawned: Vec<Addr>,
    /// What each offer returned, in the order of the targets. An envelope
    /// that was not taken comes back in its error.
    pub results: Vec<Result<(), TrySendError<Envelope<M>>>>,
}

/// Where an envelope goes, and who was spawned to get it.
#[derive(Debug)]
pub struct Routed {
    /// The children that get the envelope, each once per mention.
    pub targets: Vec<Addr>,
    /// Those of them that were spawned for it.
    pub spawned: Vec<Addr>,
}

/// A broadcast reaches exactly the children that are alive: every address in
/// it is live, and every live child is in it.
pub proof fn lemma_broadcast_reaches_all_live<M>(group: GroupModel<M>, addr: Addr)
    requires
        group.wf(),
    ensures
        group.targets(Decision::Broadcast).contains(addr) <==> group.is_live(addr),
        group.route(Decision::Broadcast) == group,
        group.spawned(Decision::Broadcast).len() == 0,
{
    lemma_live_addrs(group, group.slots.len() as int, addr);
}

/// The live addresses of the first `upto` slots are the live children whose
/// slot is among them.
pub proof fn lemma_live_addrs<M>(group: GroupModel<M>, upto: int, addr: Addr)
    requires
        group.wf(),
        0 <= upto <= group.slots.len(),
    ensures
        group.live_addrs(upto).contains(addr) <==> group.is_live(addr) && addr.spec_local() < upto,
    decreases upto,
{
    if upto > 0 {
        lemma_live_addrs(group, upto - 1, addr);
        let head = group.live_addrs(upto - 1);
        let last = upto - 1;
        if group.slots[last].is_live() {
            lemma_live_child_resolves(group, last, addr);
            lemma_from_parts(group.group_no, group.slots[last].generation, last as u32);
            let tail = seq![group.addr_of(last)];
            assert(tail[0] == group.addr_of(last));
            assert(group.live_addrs(upto) == head + tail);
            if (head + tail).contains(addr) {
                let k = choose|k: int| 0 <= k < (head + tail).len() && (head + tail)[k] == addr;
                if k < head.len() {
                    assert(head[k] == addr);
                } else {
                    assert(tail[k - head.len()] == addr);
                }
            }
            if head.contains(addr) {
                let k = choose|k: int| 0 <= k < head.len() && head[k] == addr;
                assert((head + tail)[k] == addr);
            }
            if addr == group.addr_of(last) {
                assert((head + tail)[head.len() as int] == addr);
            }
        } else {
            assert(group.live_addrs(upto) =~= head);
        }
    }
}

/// The child of a key, if there is one, is live.
pub proof fn lemma_child_is_live<M>(group: GroupModel<M>, key: u64)
    requires
        group.wf(),
        group.child(key) is Some,
    ensures
        group.is_live(group.child(key)->0),
{
    lemma_live_child_resolves(group, group.index_of(key), Addr::spec_null());
}

/// Asking for the child of a key leaves every live child live and as it
/// is.
pub proof fn lemma_ensure_keeps_live<M>(group: GroupModel<M>, key: u64, addr: Addr)
    requires
        group.wf(),
        group.is_live(addr),
    ensures
        group.ensure(key).wf(),
        group.ensure(key).is_live(addr),
        group.ensure(key).actor(addr) == group.actor(addr),
{
    lemma_spawn_at_most_once(group, key);
    if group.spawns(key) {
        lemma_first_reusable(group, 0);
    }
}

/// Asking for the children of several keys keeps the group well-formed.
pub proof fn lemma_ensure_all_wf<M>(group: GroupModel<M>, keys: Seq<u64>)
    requires
        group.wf(),
    ensures
        group.ensure_all(keys).wf(),
    decreases keys.len(),
{
    if keys.len() > 0 {
        lemma_ensure_all_wf(group, keys.drop_last());
        lemma_spawn_at_most_once(group.ensure_all(keys.drop_last()), keys.last());
    }
}

/// Every target of a multicast is live once the multicast is routed.
pub proof fn lemma_multicast_targets_live<M>(group: GroupModel<M>, keys: Seq<u64>, i: int)
    requires
        group.wf(),
        0 <= i < group.multicast_targets(keys).len(),
    ensures
        group.ensure_all(keys).is_live(group.multicast_targets(keys)[i]),
    decreases keys.len(),
{
    let before = group.ensure_all(keys.drop_last());
    let head = group.multicast_targets(keys.drop_last());
    lemma_ensure_all_wf(group, keys.drop_last());
    lemma_ensure_all_wf(group, keys);
    if i < head.len() {
        lemma_multicast_targets_live(group, keys.drop_last(), i);
        lemma_ensure_keeps_live(before, keys.last(), head[i]);
    } else {
        lemma_child_is_live(group.ensure_all(keys), keys.last());
    }
}

/// Every target of a routed envelope is live once the envelope is routed.
pub proof fn lemma_targets_are_live<M>(group: GroupModel<M>, decision: Decision, i: int)
    requires
        group.wf(),
        0 <= i < group.targets(decision).len(),
    ensures
        group.route(decision).wf(),
        group.route(decision).is_live(group.targets(decision)[i]),
{
    match decision {
        Decision::Unicast(key) => {
            lemma_spawn_at_most_once(group, key);
            lemma_child_is_live(group.ensure(key), key);
        },
        Decision::Multicast(keys) => {
            lemma_ensure_all_wf(group, keys);
            lemma_multicast_targets_live(group, keys, i);
        },
        Decision::Broadcast => {
            let target = group.targets(decision)[i];
            assert(group.live_addrs(group.slots.len() as int).contains(target));
            lemma_live_addrs(group, group.slots.len() as int, target);
        },
        Decision::Discard => {},
    }
}

/// One child per key and generation: asking for the child of a key that has
/// a slot spawns nobody and changes nothing, so asking twice spawns at most
/// once.
pub proof fn lemma_spawn_at_most_once<M>(group: GroupModel<M>, key: u64)
    requires
        group.wf(),
    ensures
        group.holds(key) ==> group.ensure(key) == group && !group.spawns(key),
        group.ensure(key).wf(),
        !group.ensure(key).spawns(key) || group.ensure(key) == group,
        group.ensure(key).ensure(key) == group.ensure(key),
{
    if group.spawns(key) {
        let index = group.room()->0;
        lemma_spawn_at(group, index, key);
        assert(group.spawn_at(index, key).child(key) is Some);
    }
}

/// How the body of a child ended, as far as the group is concerned.
#[derive(Debug)]
pub enum Exit<M> {
    /// The address names no live child: nothing was done.
    Unknown,
    /// The child ended well and is gone. It is handed out, terminated, for
    /// the caller to drain its mailbox.
    Removed { actor: Actor<M> },
    /// The child failed. It is handed out, failed, and the key gets a new
    /// child once `restart_at` has come.
    Restarting { actor: Actor<M>, restart_at: u64 },
}

/// Replacing the live child of a slot by a later state of it, and noting its
/// status, keeps the group well-formed and is a step of its evolution.
pub proof fn lemma_with_child_wf<M>(
    group: GroupModel<M>,
    addr: Addr,
    actor: ActorModel<M>,
    now: u64,
)
    requires
        group.wf(),
        group.is_live(addr),
        actor.wf(),
        !actor.status.kind.spec_is_terminal(),
        actor.addr() == group.actor(addr).addr(),
    ensures
        group.with_child(addr, actor, now).wf(),
        group.evolves_to(group.with_child(addr, actor, now)),
        group.with_child(addr, actor, now).is_live(addr),
        group.with_child(addr, actor, now).actor(addr) == actor,
{
    let index = addr.spec_local() as int;
    let slot = group.with_child(addr, actor, now).slots[index];
    assert(group.slots[index].wf(group.group_no, index));
    lemma_slot_change_wf(group, index, slot);
}

/// Changing an occupied slot without changing its key, to a content that is
/// well-formed and of a later or the same generation, with no child that was
/// not there at that generation, keeps the group well-formed and is a step of
/// its evolution.
pub proof fn lemma_slot_change_wf<M>(group: GroupModel<M>, index: int, slot: SlotModel<M>)
    requires
        group.wf(),
        0 <= index < group.slots.len(),
        group.slots[index].is_occupied(),
        slot.key == group.slots[index].key,
        slot.wf(group.group_no, index),
        slot.generation >= group.slots[index].generation,
        slot.generation == group.slots[index].generation && slot.is_live()
            ==> group.slots[index].is_live(),
    ensures
        group.with_slot(index, slot).wf(),
        group.evolves_to(group.with_slot(index, slot)),
{
    assert forall|j: int|
        0 <= j < group.slots.len() && j != index
            && #[trigger] group.slots[j].is_occupied() implies group.slots[j].key != slot.key by {
        assert(group.slots[index].is_occupied());
    }
    lemma_with_slot_wf(group, index, slot);
}

/// The first reusable slot, if there is one, is reusable, and no slot before
/// it is.
pub proof fn lemma_first_reusable<M>(group: GroupModel<M>, from: int)
    requires
        0 <= from,
    ensures
        from <= group.first_reusable(from) || group.first_reusable(from) == group.slots.len(),
        group.first_reusable(from) <= group.slots.len(),
        group.first_reusable(from) < group.slots.len() ==> group.slots[group.first_reusable(
            from,
        )].is_reusable(),
    decreases group.slots.len() - from,
{
    if from < group.slots.len() && !group.slots[from].is_reusable() {
        lemma_first_reusable(group, from + 1);
    }
}

/// Spawning a child for a key that has no slot, where there is room, keeps
/// the group well-formed, is a step of its evolution, and makes the new
/// child the live child of the key, at an address that was not live.
pub proof fn lemma_spawn_at<M>(group: GroupModel<M>, index: int, key: u64)
    requires
        group.wf(),
        !group.holds(key),
        group.room() == Some(index),
    ensures
        group.spawn_at(index, key).wf(),
        group.evolves_to(group.spawn_at(index, key)),
        group.spawn_at(index, key).child(key) == Some(group.spawn_at(index, key).addr_of(index)),
        !group.is_live(group.spawn_at(index, key).addr_of(index)),
{
    let after = group.spawn_at(index, key);
    lemma_first_reusable(group, 0);
    let before = if index < group.slots.len() {
        group.slots[index]
    } else {
        unused_slot::<M>()
    };
    let slot = before.spawn(group.group_no, index, key, group.capacity);
    assert(after.slots[index] == slot);
    assert(slot.wf(group.group_no, index));
    assert forall|j: int|
        0 <= j < group.slots.len() && j != index
            && #[trigger] group.slots[j].is_occupied() implies group.slots[j].key != key by {
        if group.slots[j].key == key {
            assert(group.holds(key));
        }
    }
    if index < group.slots.len() {
        lemma_with_slot_wf(group, index, slot);
    } else {
        assert forall|i: int| 0 <= i < after.slots.len() implies (#[trigger] after.slots[i]).wf(
            after.group_no,
            i,
        ) by {
            if i != index {
                assert(after.slots[i] == group.slots[i]);
            }
        }
        assert forall|i: int, j: int|
            0 <= i < after.slots.len() && 0 <= j < after.slots.len() && i != j
                && #[trigger] after.slots[i].is_occupied()
                && #[trigger] after.slots[j].is_occupied() implies after.slots[i].key
            != after.slots[j].key by {
            if i != index && j != index {
                assert(group.slots[i].is_occupied() && group.slots[j].is_occupied());
            } else if i == index {
                assert(group.slots[j].is_occupied());
            } else {
                assert(group.slots[i].is_occupied());
            }
        }
    }
    lemma_index_of(after, key, index);
    lemma_from_parts(group.group_no, slot.generation, index as u32);
}

} // verus!
