//! The table of half-open connections: handshake state that waits for the peer's
//! next message, under a slot id, for a limited time and in limited number. Times are
//! milliseconds on a clock of the caller.

use crate::clock::Duration;
use crate::tables::{
    number_table, table_get, table_insert, table_len, table_new, table_remove,
};
use dashmap::DashMap;
use std::collections::HashMap;
use vstd::prelude::*;
use vstd::std_specs::hash::group_hash_axioms;

verus! {

broadcast use group_hash_axioms;

/// How long a slot lives by default, in milliseconds.
pub const DEFAULT_TTL_MS: u64 = 2000;

/// How many slots a table has by default.
pub const MAX_PENDING: usize = 65536;

/// A waiting item and when it came.
pub struct Slot<T> {
    pub data: T,
    pub created_at_ms: u64,
}

/// The contents of a table of half-open connections.
pub struct HalfOpenState<T> {
    pub slots: Map<u32, Slot<T>>,
    /// The id that the next item gets.
    pub next_id: u32,
    /// How long a slot lives.
    pub ttl_ms: u64,
    /// How many slots there are at most.
    pub max_pending: usize,
}

/// Whether a slot made at `created` still lives.
pub open spec fn lives(created: u64, ttl_ms: u64, now: u64) -> bool {
    now <= created + ttl_ms
}

/// The slots that still live.
pub open spec fn live_slots<T>(slots: Map<u32, Slot<T>>, ttl_ms: u64, now: u64) -> Map<
    u32,
    Slot<T>,
> {
    slots.restrict(
        Set::new(|id: u32| slots.contains_key(id) && lives(slots[id].created_at_ms, ttl_ms, now)),
    )
}

impl<T> HalfOpenState<T> {
    /// Whether an id has a slot that still lives.
    pub open spec fn has_live(self, id: u32, now: u64) -> bool {
        self.slots.contains_key(id) && lives(self.slots[id].created_at_ms, self.ttl_ms, now)
    }

    /// The slots that a new item finds: dead ones are cleared from half the capacity on.
    pub open spec fn slots_for_insert(self, now: u64) -> Map<u32, Slot<T>> {
        if self.slots.dom().len() >= self.max_pending / 2 {
            live_slots(self.slots, self.ttl_ms, now)
        } else {
            self.slots
        }
    }

    /// Whether a new item finds no room.
    pub open spec fn is_full(self, now: u64) -> bool {
        self.slots_for_insert(now).dom().len() >= self.max_pending
    }

    /// The table after an item came.
    pub open spec fn with_item(self, item: T, now: u64) -> HalfOpenState<T> {
        if self.is_full(now) {
            HalfOpenState { slots: self.slots_for_insert(now), ..self }
        } else {
            HalfOpenState {
                slots: self.slots_for_insert(now).insert(
                    self.next_id,
                    Slot { data: item, created_at_ms: now },
                ),
                next_id: self.next_id.wrapping_add(1),
                ..self
            }
        }
    }

    /// Whether the table keeps its limit.
    pub open spec fn bounded(self) -> bool {
        self.slots.dom().finite() && self.slots.dom().len() <= self.max_pending
    }
}

/// The creation times of the slots that still live.
pub open spec fn living(created: Map<u32, u64>, ttl_ms: u64, now: u64) -> Map<u32, u64> {
    created.restrict(
        Set::new(|id: u32| created.contains_key(id) && lives(created[id], ttl_ms, now)),
    )
}

fn still_lives(created: u64, ttl_ms: u64, now: u64) -> (b: bool)
    ensures
        b == lives(created, ttl_ms, now),
{
    now as u128 <= created as u128 + ttl_ms as u128
}

/// Calls `DashMap::retain` with the test whether a slot still lives: the entries that pass
/// stay, the others are gone.
#[verifier::external_body]
fn table_retain_living(m: &mut DashMap<u32, u64>, ttl_ms: u64, now: u64)
    ensures
        number_table(*final(m)) == living(number_table(*old(m)), ttl_ms, now),
{
    m.retain(|_, created| still_lives(*created, ttl_ms, now));
}

/// When each slot was made, and what it holds.
struct SlotTables<T> {
    created: DashMap<u32, u64>,
    items: HashMap<u32, T>,
}

impl<T> SlotTables<T> {
    spec fn wf(&self) -> bool {
        number_table(self.created).dom() == self.items@.dom()
    }

    spec fn slots(&self) -> Map<u32, Slot<T>> {
        Map::new(
            |id: u32| self.items@.contains_key(id),
            |id: u32|
                Slot { data: self.items@[id], created_at_ms: number_table(self.created)[id] },
        )
    }

    fn new() -> (s: Self)
        ensures
            s.wf(),
            s.slots() == Map::<u32, Slot<T>>::empty(),
    {
        let s = SlotTables { created: table_new(), items: HashMap::new() };
        assert(number_table(s.created).dom() =~= s.items@.dom());
        assert(s.slots() =~= Map::<u32, Slot<T>>::empty());
        s
    }

    fn len(&self) -> (n: usize)
        requires
            self.wf(),
        ensures
            n == self.slots().dom().len(),
    {
        assert(self.slots().dom() =~= self.items@.dom());
        table_len(&self.created)
    }

    fn insert(&mut self, id: u32, item: T, now: u64)
        requires
            old(self).wf(),
        ensures
            final(self).wf(),
            final(self).slots() == old(self).slots().insert(
                id,
                Slot { data: item, created_at_ms: now },
            ),
    {
        table_insert(&mut self.created, id, now);
        self.items.insert(id, item);
        proof {
            assert(number_table(self.created).dom() =~= self.items@.dom());
            assert(self.slots() =~= old(self).slots().insert(
                id,
                Slot { data: item, created_at_ms: now },
            ));
        }
    }

    fn remove(&mut self, id: u32) -> (r: Option<(T, u64)>)
        requires
            old(self).wf(),
        ensures
            final(self).wf(),
            final(self).slots() == old(self).slots().remove(id),
            r is Some <==> old(self).slots().contains_key(id),
            r matches Some((item, created)) ==> old(self).slots()[id] == (Slot {
                data: item,
                created_at_ms: created,
            }),
    {
        let created: Option<u64> = table_get(&self.created, id);
        table_remove(&mut self.created, id);
        let item: Option<T> = self.items.remove(&id);
        proof {
            assert(number_table(self.created).dom() =~= self.items@.dom());
            assert(self.slots() =~= old(self).slots().remove(id));
        }
        match (item, created) {
            (Some(item), Some(created)) => Some((item, created)),
            _ => None,
        }
    }

    fn created_at(&self, id: u32) -> (r: Option<u64>)
        requires
            self.wf(),
        ensures
            r is Some <==> self.slots().contains_key(id),
            r matches Some(created) ==> self.slots()[id].created_at_ms == created,
    {
        let r: Option<u64> = table_get(&self.created, id);
        assert(number_table(self.created).contains_key(id) == self.items@.contains_key(id));
        r
    }

    fn dead_ids(&self, ttl_ms: u64, now: u64) -> (ids: Vec<u32>)
        requires
            self.wf(),
        ensures
            forall|id: u32| #[trigger]
                ids@.contains(id) <==> self.items@.contains_key(id) && !lives(
                    number_table(self.created)[id],
                    ttl_ms,
                    now,
                ),
    {
        let ghost created = number_table(self.created);
        let mut ids: Vec<u32> = Vec::new();
        for id in it: self.items.keys()
            invariant
                self.wf(),
                created == number_table(self.created),
                it.seq().unref().to_set() == self.items@.dom(),
                forall|i: int|
                    0 <= i < ids@.len() ==> self.items@.contains_key(#[trigger] ids@[i])
                        && !lives(created[ids@[i]], ttl_ms, now),
                forall|i: int|
                    0 <= i < it.index() ==> lives(
                        created[*(#[trigger] it.seq()[i])],
                        ttl_ms,
                        now,
                    ) || ids@.contains(*it.seq()[i]),
        {
            proof {
                assert(it.seq().unref()[it.index() as int] == *id);
                assert(it.seq().unref().to_set().contains(*id));
                assert(created.dom().contains(*id));
            }
            let ghost before = ids@;
            if let Some(at) = table_get(&self.created, *id) {
                if !still_lives(at, ttl_ms, now) {
                    ids.push(*id);
                    proof {
                        assert(ids@.last() == *id);
                        assert forall|i: int| 0 <= i < it.index() implies lives(
                            created[*(#[trigger] it.seq()[i])],
                            ttl_ms,
                            now,
                        ) || ids@.contains(*it.seq()[i]) by {
                            if before.contains(*it.seq()[i]) {
                                let j = choose|j: int|
                                    0 <= j < before.len() && before[j] == *it.seq()[i];
                                assert(ids@[j] == before[j]);
                            }
                        }
                    }
                }
            }
        }
        proof {
            assert forall|id: u32| #[trigger]
                ids@.contains(id) <==> self.items@.contains_key(id) && !lives(
                    created[id],
                    ttl_ms,
                    now,
                ) by {
            }
        }
        ids
    }

    fn retain_living(&mut self, ttl_ms: u64, now: u64)
        requires
            old(self).wf(),
        ensures
            final(self).wf(),
            final(self).slots() == live_slots(old(self).slots(), ttl_ms, now),
    {
        let ghost all = self.items@;
        let ghost created = number_table(self.created);
        let ids: Vec<u32> = self.dead_ids(ttl_ms, now);
        let mut i: usize = 0;
        while i < ids.len()
            invariant
                i <= ids@.len(),
                number_table(self.created) == created,
                forall|id: u32| #[trigger]
                    ids@.contains(id) <==> all.contains_key(id) && !lives(
                        created[id],
                        ttl_ms,
                        now,
                    ),
                forall|id: u32| #[trigger]
                    self.items@.contains_key(id) <==> all.contains_key(id) && !ids@.take(
                        i as int,
                    ).contains(id),
                forall|id: u32| #[trigger]
                    self.items@.contains_key(id) ==> self.items@[id] == all[id],
            decreases ids@.len() - i,
        {
            let id: u32 = ids[i];
            let ghost before = self.items@;
            self.items.remove(&id);
            proof {
                assert(self.items@ =~= before.remove(id));
                assert(ids@.take(i + 1) =~= ids@.take(i as int).push(id));
                assert forall|other: u32| #[trigger]
                    self.items@.contains_key(other) <==> all.contains_key(other) && !ids@.take(
                        i + 1,
                    ).contains(other) by {
                    let a = ids@.take(i as int);
                    let b = ids@.take(i + 1);
                    assert(b.last() == id);
                    if a.contains(other) {
                        let j = choose|j: int| 0 <= j < a.len() && a[j] == other;
                        assert(b[j] == other);
                    }
                    if b.contains(other) && other != id {
                        let j = choose|j: int| 0 <= j < b.len() && b[j] == other;
                        assert(a[j] == other);
                    }
                }
            }
            i += 1;
        }
        table_retain_living(&mut self.created, ttl_ms, now);
        proof {
            assert(ids@.take(ids@.len() as int) =~= ids@);
            assert forall|id: u32| #[trigger] self.items@.contains_key(id) <==> number_table(
                self.created,
            ).contains_key(id) by {
                assert(created.contains_key(id) == all.contains_key(id));
            }
            assert(number_table(self.created).dom() =~= self.items@.dom());
            assert(self.slots() =~= live_slots(old(self).slots(), ttl_ms, now));
        }
    }
}

/// A table of half-open connections.
pub struct HalfOpenSlots<T> {
    tables: SlotTables<T>,
    next_id: u32,
    ttl_ms: u64,
    max_pending: usize,
}

impl<T> View for HalfOpenSlots<T> {
    type V = HalfOpenState<T>;

    closed spec fn view(&self) -> HalfOpenState<T> {
        HalfOpenState {
            slots: self.tables.slots(),
            next_id: self.next_id,
            ttl_ms: self.ttl_ms,
            max_pending: self.max_pending,
        }
    }
}

impl<T> Default for HalfOpenSlots<T> {
    fn default() -> (s: Self)
        ensures
            s@.slots == Map::<u32, Slot<T>>::empty(),
            s@.next_id == 1,
            s@.ttl_ms == DEFAULT_TTL_MS,
            s@.max_pending == MAX_PENDING,
    {
        HalfOpenSlots::new()
    }
}

impl<T> HalfOpenSlots<T> {
    /// Each slot has a creation time and an item.
    #[verifier::type_invariant]
    spec fn tables_in_step(self) -> bool {
        self.tables.wf()
    }

    /// An empty table with the default limits.
    pub fn new() -> (s: Self)
        ensures
            s@.slots == Map::<u32, Slot<T>>::empty(),
            s@.next_id == 1,
            s@.ttl_ms == DEFAULT_TTL_MS,
            s@.max_pending == MAX_PENDING,
    {
        HalfOpenSlots {
            tables: SlotTables::new(),
            next_id: 1,
            ttl_ms: DEFAULT_TTL_MS,
            max_pending: MAX_PENDING,
        }
    }

    /// An empty table whose slots live for `ttl`, in whole milliseconds, and are at most
    /// `max_pending`.
    pub fn with_config(ttl: Duration, max_pending: usize) -> (s: Self)
        ensures
            s@.slots == Map::<u32, Slot<T>>::empty(),
            s@.next_id == 1,
            s@.ttl_ms == (ttl.spec_nanos() / 1_000_000) % 18446744073709551616,
            s@.max_pending == max_pending,
    {
        let millis: u128 = ttl.as_nanos() / 1_000_000;
        HalfOpenSlots {
            tables: SlotTables::new(),
            next_id: 1,
            ttl_ms: (millis % 18446744073709551616) as u64,
            max_pending,
        }
    }

    /// Keep an item. Returns its slot id, or nothing where the table is full.
    pub fn insert(&mut self, item: T, now_ms: u64) -> (r: Option<u32>)
        ensures
            final(self)@ == old(self)@.with_item(item, now_ms),
            old(self)@.is_full(now_ms) ==> r is None,
            !old(self)@.is_full(now_ms) ==> r == Some(old(self)@.next_id),
    {
        if self.len() >= self.max_pending / 2 {
            self.gc(now_ms);
        }
        if self.len() >= self.max_pending {
            return None;
        }
        let mut held: HalfOpenSlots<T> = HalfOpenSlots::new();
        std::mem::swap(&mut held, self);
        proof {
            use_type_invariant(&held);
        }
        let id: u32 = held.next_id;
        let ttl_ms: u64 = held.ttl_ms;
        let max_pending: usize = held.max_pending;
        let mut tables: SlotTables<T> = held.tables;
        tables.insert(id, item, now_ms);
        *self = HalfOpenSlots { tables, next_id: id.wrapping_add(1), ttl_ms, max_pending };
        Some(id)
    }

    /// Take an item out. A slot that is too old is removed and gives nothing.
    pub fn take(&mut self, slot_id: u32, now_ms: u64) -> (r: Option<T>)
        ensures
            final(self)@ == (HalfOpenState {
                slots: old(self)@.slots.remove(slot_id),
                ..old(self)@
            }),
            r is Some <==> old(self)@.has_live(slot_id, now_ms),
            r matches Some(item) ==> item == old(self)@.slots[slot_id].data,
    {
        let mut held: HalfOpenSlots<T> = HalfOpenSlots::new();
        std::mem::swap(&mut held, self);
        proof {
            use_type_invariant(&held);
        }
        let next_id: u32 = held.next_id;
        let ttl_ms: u64 = held.ttl_ms;
        let max_pending: usize = held.max_pending;
        let mut tables: SlotTables<T> = held.tables;
        let removed: Option<(T, u64)> = tables.remove(slot_id);
        *self = HalfOpenSlots { tables, next_id, ttl_ms, max_pending };
        match removed {
            Some((item, created)) => {
                if still_lives(created, ttl_ms, now_ms) {
                    Some(item)
                } else {
                    None
                }
            },
            None => None,
        }
    }

    /// Whether a slot exists and still lives.
    pub fn contains(&self, slot_id: u32, now_ms: u64) -> (b: bool)
        ensures
            b == self@.has_live(slot_id, now_ms),
    {
        proof {
            use_type_invariant(self);
        }
        match self.tables.created_at(slot_id) {
            Some(created) => still_lives(created, self.ttl_ms, now_ms),
            None => false,
        }
    }

    /// How many slots there are, those that are too old counted.
    pub fn len(&self) -> (n: usize)
        ensures
            n == self@.slots.dom().len(),
    {
        proof {
            use_type_invariant(self);
        }
        self.tables.len()
    }

    /// Whether there is no slot.
    pub fn is_empty(&self) -> (b: bool)
        ensures
            b == (self@.slots.dom().len() == 0),
    {
        self.len() == 0
    }

    /// Clear the slots that are too old.
    pub fn gc(&mut self, now_ms: u64)
        ensures
            final(self)@ == (HalfOpenState {
                slots: live_slots(old(self)@.slots, old(self)@.ttl_ms, now_ms),
                ..old(self)@
            }),
    {
        let mut held: HalfOpenSlots<T> = HalfOpenSlots::new();
        std::mem::swap(&mut held, self);
        proof {
            use_type_invariant(&held);
        }
        let next_id: u32 = held.next_id;
        let ttl_ms: u64 = held.ttl_ms;
        let max_pending: usize = held.max_pending;
        let mut tables: SlotTables<T> = held.tables;
        tables.retain_living(ttl_ms, now_ms);
        *self = HalfOpenSlots { tables, next_id, ttl_ms, max_pending };
    }
}

/// No operation makes the table exceed its limit.
pub proof fn law_table_is_bounded<T>(s: HalfOpenState<T>, item: T, id: u32, now: u64)
    requires
        s.bounded(),
    ensures
        s.with_item(item, now).bounded(),
        (HalfOpenState { slots: s.slots.remove(id), ..s }).bounded(),
        (HalfOpenState { slots: live_slots(s.slots, s.ttl_ms, now), ..s }).bounded(),
{
    lemma_live_slots_are_fewer(s.slots, s.ttl_ms, now);
    vstd::set_lib::lemma_len_subset(s.slots.remove(id).dom(), s.slots.dom());
}

proof fn lemma_live_slots_are_fewer<T>(slots: Map<u32, Slot<T>>, ttl_ms: u64, now: u64)
    requires
        slots.dom().finite(),
    ensures
        live_slots(slots, ttl_ms, now).dom().finite(),
        live_slots(slots, ttl_ms, now).dom().len() <= slots.dom().len(),
{
    vstd::set_lib::lemma_len_subset(live_slots(slots, ttl_ms, now).dom(), slots.dom());
}

/// An item that was kept is taken out under the id it got while its slot lives, and once.
pub proof fn law_item_is_taken_once<T>(s: HalfOpenState<T>, item: T, at: u64, now: u64)
    requires
        !s.is_full(at),
        lives(at, s.ttl_ms, now),
    ensures
        s.with_item(item, at).has_live(s.next_id, now),
        s.with_item(item, at).slots[s.next_id].data == item,
        !s.with_item(item, at).slots.remove(s.next_id).contains_key(s.next_id),
{
}

/// How long an item can be taken out: for as long as the table says after it came, to the millisecond, and
/// not after; under no other id.
pub proof fn law_slot_lives_for_its_time<T>(
    s: HalfOpenState<T>,
    item: T,
    at: u64,
    now: u64,
    other: u32,
)
    requires
        !s.is_full(at),
        other != s.next_id,
    ensures
        now <= at + s.ttl_ms ==> s.with_item(item, at).has_live(s.next_id, now),
        now > at + s.ttl_ms ==> !s.with_item(item, at).has_live(s.next_id, now),
        now >= at ==> s.with_item(item, at).has_live(other, now) == s.has_live(other, now),
        s.with_item(item, at).slots[s.next_id].data == item,
        s.with_item(item, at).slots[s.next_id].created_at_ms == at,
        s.next_id < u32::MAX ==> s.with_item(item, at).next_id == s.next_id + 1,
        s.with_item(item, at).ttl_ms == s.ttl_ms,
        s.with_item(item, at).max_pending == s.max_pending,
{
}

/// When an item is turned away: only where as many slots that still live are taken as the table may have.
/// Slots that are too old never keep an item out, and clearing them touches no other.
pub proof fn law_only_a_full_table_refuses<T>(s: HalfOpenState<T>, now: u64, id: u32)
    requires
        s.slots.dom().finite(),
        s.max_pending >= 2,
    ensures
        s.slots.dom().len() < s.max_pending ==> !s.is_full(now),
        s.is_full(now) ==> live_slots(s.slots, s.ttl_ms, now).dom().len() >= s.max_pending,
        live_slots(s.slots, s.ttl_ms, now).dom().len() >= s.max_pending ==> s.is_full(now),
        live_slots(s.slots, s.ttl_ms, now).contains_key(id) <==> s.slots.contains_key(id) && now
            <= s.slots[id].created_at_ms + s.ttl_ms,
        live_slots(s.slots, s.ttl_ms, now).contains_key(id) ==> live_slots(s.slots, s.ttl_ms, now)[id]
            == s.slots[id],
{
    lemma_live_slots_are_fewer(s.slots, s.ttl_ms, now);
}

/// The limits of a table by default: a slot lives for two seconds, and there are 65536.
pub proof fn law_default_limits()
    ensures
        DEFAULT_TTL_MS == 2000,
        MAX_PENDING == 65_536,
{
}

/// When slots are swept: an item that finds the table half full or fuller drops every slot whose time is over, and
/// one that finds it emptier drops none.
pub proof fn law_when_slots_are_swept<T>(s: HalfOpenState<T>, item: T, now: u64, id: u32)
    requires
        id != s.next_id,
    ensures
        s.slots.dom().len() >= s.max_pending / 2 ==> (s.with_item(item, now).slots.contains_key(id)
            <==> s.slots.contains_key(id) && now <= s.slots[id].created_at_ms + s.ttl_ms),
        s.slots.dom().len() < s.max_pending / 2 ==> (s.with_item(item, now).slots.contains_key(id)
            <==> s.slots.contains_key(id)),
        s.with_item(item, now).slots.contains_key(id) ==> s.with_item(item, now).slots[id]
            == s.slots[id],
        s.next_id == u32::MAX && !s.is_full(now) ==> s.with_item(item, now).next_id == 0,
{
}

} // verus!
