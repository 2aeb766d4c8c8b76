//! Reputation of client addresses.
//!
//! An address that broke the handshake rules within the last minute pays a growing
//! proof-of-work difficulty; others pay none. The table is bounded. Times are seconds since
//! the Unix epoch.

use crate::types::ClientIp;
use dashmap::DashMap;
use vstd::arithmetic::power2::pow2;
use vstd::prelude::*;

verus! {

/// How long a violation counts.
pub const WINDOW_SECS: u64 = 60;

/// What every violation record costs at least.
pub const BASE_DIFFICULTY: u8 = 8;

/// What a violation record costs at most.
pub const MAX_DIFFICULTY: u8 = 20;

/// Addresses that a tracker keeps by default.
pub const DEFAULT_MAX_ENTRIES: usize = 100_000;

/// The violations of one address.
#[derive(Debug, Clone, Copy)]
pub struct ReputationEntry {
    pub violations: u32,
    pub last_seen_secs: u64,
}

/// Whether the last violation is within the window at `now`.
pub open spec fn recent(e: ReputationEntry, now: u64) -> bool {
    now <= e.last_seen_secs + WINDOW_SECS
}

/// Whether the last violation is within the window at `now`.
fn is_recent(e: &ReputationEntry, now: u64) -> (b: bool)
    ensures
        b == recent(*e, now),
{
    now <= e.last_seen_secs.saturating_add(WINDOW_SECS)
}

/// Violations by address; an address is its family and its bits.
pub type Violations = Map<(bool, u128), ReputationEntry>;

/// The entries of `t` that are recent at `now`.
pub open spec fn recent_only(t: Violations, now: u64) -> Violations {
    t.restrict(Set::new(|k: (bool, u128)| t.contains_key(k) && recent(t[k], now)))
}

/// The violations in a table.
pub uninterp spec fn violation_table(m: DashMap<(bool, u128), ReputationEntry>) -> Violations;

/// No violations.
pub open spec fn no_violations() -> Violations {
    Map::empty()
}

/// Calls `DashMap::new`: the table is empty.
#[verifier::external_body]
fn table_new() -> (m: DashMap<(bool, u128), ReputationEntry>)
    ensures
        violation_table(m) == no_violations(),
{
    DashMap::new()
}

/// Calls `DashMap::get` and copies the entry out: `None` exactly when there is none.
#[verifier::external_body]
fn table_get(m: &DashMap<(bool, u128), ReputationEntry>, k: (bool, u128)) -> (e: Option<
    ReputationEntry,
>)
    ensures
        match e {
            Some(entry) => violation_table(*m).contains_key(k) && violation_table(*m)[k] == entry,
            None => !violation_table(*m).contains_key(k),
        },
{
    m.get(&k).map(|e| *e.value())
}

/// Calls `DashMap::insert`: the entry is there afterwards, and the others are as before.
#[verifier::external_body]
fn table_insert(m: &mut DashMap<(bool, u128), ReputationEntry>, k: (bool, u128), e: ReputationEntry)
    ensures
        violation_table(*final(m)) == violation_table(*old(m)).insert(k, e),
{
    m.insert(k, e);
}

/// Calls `DashMap::remove`: the entry is gone, and the others are as before.
#[verifier::external_body]
fn table_remove(m: &mut DashMap<(bool, u128), ReputationEntry>, k: (bool, u128))
    ensures
        violation_table(*final(m)) == violation_table(*old(m)).remove(k),
{
    m.remove(&k);
}

/// Calls `DashMap::len`: the number of entries.
#[verifier::external_body]
fn table_len(m: &DashMap<(bool, u128), ReputationEntry>) -> (n: usize)
    ensures
        n == violation_table(*m).dom().len(),
{
    m.len()
}

/// Calls `DashMap::retain` with the test whether an entry is recent at `now`: the entries
/// that pass stay, the others are gone.
#[verifier::external_body]
fn table_retain_recent(m: &mut DashMap<(bool, u128), ReputationEntry>, now: u64)
    ensures
        violation_table(*final(m)) == recent_only(violation_table(*old(m)), now),
{
    m.retain(|_, e| is_recent(e, now));
}

/// What an address with `violations` recent violations pays.
pub open spec fn difficulty_of(violations: nat) -> nat {
    let exp = if violations <= 9 {
        (violations - 1) as nat
    } else {
        8
    };
    if violations == 0 {
        0
    } else if BASE_DIFFICULTY + pow2(exp) <= MAX_DIFFICULTY {
        BASE_DIFFICULTY as nat + pow2(exp)
    } else {
        MAX_DIFFICULTY as nat
    }
}

/// The difficulty that address `k` pays at `now`.
pub open spec fn difficulty_at(t: Violations, k: (bool, u128), now: u64) -> nat {
    if t.contains_key(k) && recent(t[k], now) {
        difficulty_of(t[k].violations as nat)
    } else {
        0
    }
}

/// The table after a violation of address `k` at `now`. A new address finds no place in a
/// table that is full of recent entries.
pub open spec fn violated(t: Violations, max: nat, k: (bool, u128), now: u64) -> Violations {
    if t.contains_key(k) {
        t.insert(
            k,
            ReputationEntry {
                violations: if recent(t[k], now) {
                    t[k].violations.wrapping_add(1)
                } else {
                    1
                },
                last_seen_secs: now,
            },
        )
    } else {
        let room = if t.dom().len() >= max {
            recent_only(t, now)
        } else {
            t
        };
        if room.dom().len() >= max {
            room
        } else {
            room.insert(k, ReputationEntry { violations: 1, last_seen_secs: now })
        }
    }
}

/// Tracks the violations of addresses.
pub struct ReputationTracker {
    entries: DashMap<(bool, u128), ReputationEntry>,
    max_entries: usize,
}

impl View for ReputationTracker {
    type V = Violations;

    closed spec fn view(&self) -> Violations {
        violation_table(self.entries)
    }
}

impl Default for ReputationTracker {
    fn default() -> (t: Self)
        ensures
            t@ == no_violations(),
            t.capacity() == DEFAULT_MAX_ENTRIES,
    {
        ReputationTracker::new()
    }
}

impl ReputationTracker {
    /// The most addresses that the tracker keeps.
    pub closed spec fn capacity(self) -> nat {
        self.max_entries as nat
    }

    /// A tracker of the default size.
    pub fn new() -> (t: Self)
        ensures
            t@ == no_violations(),
            t.capacity() == DEFAULT_MAX_ENTRIES,
    {
        ReputationTracker::with_capacity(DEFAULT_MAX_ENTRIES)
    }

    /// A tracker of at most `max_entries` addresses, but at least one.
    pub fn with_capacity(max_entries: usize) -> (t: Self)
        ensures
            t@ == no_violations(),
            t.capacity() == (if max_entries == 0 {
                1
            } else {
                max_entries
            }),
    {
        let max: usize = if max_entries == 0 {
            1
        } else {
            max_entries
        };
        ReputationTracker { entries: table_new(), max_entries: max }
    }

    /// Record a violation at `now_secs`.
    pub fn record_violation(&mut self, ip: &ClientIp, now_secs: u64)
        ensures
            final(self)@ == violated(old(self)@, old(self).capacity(), ip.spec_key(), now_secs),
            final(self).capacity() == old(self).capacity(),
    {
        let k: (bool, u128) = ip.key();
        match table_get(&self.entries, k) {
            Some(entry) => {
                let violations: u32 = if is_recent(&entry, now_secs) {
                    entry.violations.wrapping_add(1)
                } else {
                    1
                };
                table_insert(
                    &mut self.entries,
                    k,
                    ReputationEntry { violations, last_seen_secs: now_secs },
                );
            },
            None => {
                if table_len(&self.entries) >= self.max_entries {
                    self.gc(now_secs);
                    if table_len(&self.entries) >= self.max_entries {
                        return;
                    }
                }
                table_insert(
                    &mut self.entries,
                    k,
                    ReputationEntry { violations: 1, last_seen_secs: now_secs },
                );
            },
        }
    }

    /// Forget the violations of an address, after a successful handshake.
    pub fn reset_violations(&mut self, ip: &ClientIp)
        ensures
            final(self)@ == old(self)@.remove(ip.spec_key()),
            final(self).capacity() == old(self).capacity(),
    {
        table_remove(&mut self.entries, ip.key());
    }

    /// The difficulty that an address pays at `now_secs`; the holder of a resumption ticket
    /// pays none.
    pub fn calculate_difficulty(&self, ip: &ClientIp, has_ticket: bool, now_secs: u64) -> (d: u8)
        ensures
            d == (if has_ticket {
                0
            } else {
                difficulty_at(self@, ip.spec_key(), now_secs)
            }),
    {
        if has_ticket {
            return 0;
        }
        match table_get(&self.entries, ip.key()) {
            Some(entry) => {
                if !is_recent(&entry, now_secs) {
                    return 0;
                }
                if entry.violations == 0 {
                    return 0;
                }
                proof {
                    vstd::arithmetic::power2::lemma2_to64();
                }
                match entry.violations {
                    1 => 9,
                    2 => 10,
                    3 => 12,
                    4 => 16,
                    _ => {
                        assert(entry.violations >= 5);
                        proof {
                            lemma_steep((entry.violations - 1) as nat);
                        }
                        MAX_DIFFICULTY
                    },
                }
            },
            None => 0,
        }
    }

    /// Drop the entries that are not recent at `now_secs`.
    pub fn gc(&mut self, now_secs: u64)
        ensures
            final(self)@ == recent_only(old(self)@, now_secs),
            final(self).capacity() == old(self).capacity(),
    {
        table_retain_recent(&mut self.entries, now_secs);
    }

    /// The number of addresses in the table.
    pub fn len(&self) -> (n: usize)
        ensures
            n == self@.dom().len(),
    {
        table_len(&self.entries)
    }
}

proof fn lemma_steep(e: nat)
    requires
        e >= 4,
    ensures
        pow2(e) >= 16,
        pow2(8) >= 16,
{
    vstd::arithmetic::power2::lemma2_to64();
    if e > 4 {
        vstd::arithmetic::power2::lemma_pow2_strictly_increases(4, e);
    }
}

proof fn lemma_recent_only_is_smaller(t: Violations, now: u64)
    requires
        t.dom().finite(),
    ensures
        recent_only(t, now).dom().finite(),
        recent_only(t, now).dom().len() <= t.dom().len(),
{
    let s = recent_only(t, now).dom();
    assert(s.subset_of(t.dom()));
    vstd::set_lib::lemma_set_subset_finite(t.dom(), s);
    vstd::set_lib::lemma_len_subset(s, t.dom());
}

/// The table stays bounded whatever addresses misbehave.
pub proof fn law_table_is_bounded(t: Violations, max: nat, k: (bool, u128), now: u64)
    requires
        t.dom().finite(),
        t.dom().len() <= max,
    ensures
        violated(t, max, k, now).dom().finite(),
        violated(t, max, k, now).dom().len() <= max,
        t.remove(k).dom().finite(),
        t.remove(k).dom().len() <= max,
        recent_only(t, now).dom().finite(),
        recent_only(t, now).dom().len() <= max,
{
    lemma_recent_only_is_smaller(t, now);
    if t.contains_key(k) {
        assert(violated(t, max, k, now).dom() =~= t.dom());
        assert(t.remove(k).dom() =~= t.dom().remove(k));
    } else {
        assert(t.remove(k) =~= t);
        let room = if t.dom().len() >= max {
            recent_only(t, now)
        } else {
            t
        };
        let e = ReputationEntry { violations: 1, last_seen_secs: now };
        assert(room.insert(k, e).dom() =~= room.dom().insert(k));
    }
}

/// An address without recent violations pays nothing, one with some pays between the base
/// and the maximum, more violations never cost less, and a reset clears the cost.
pub proof fn law_difficulty_escalates(
    t: Violations,
    k: (bool, u128),
    now: u64,
    few: nat,
    many: nat,
)
    ensures
        !t.contains_key(k) ==> difficulty_at(t, k, now) == 0,
        difficulty_at(t.remove(k), k, now) == 0,
        few > 0 ==> BASE_DIFFICULTY <= difficulty_of(few) <= MAX_DIFFICULTY,
        few <= many ==> difficulty_of(few) <= difficulty_of(many),
{
    let e = |v: nat| if v <= 9 { (v - 1) as nat } else { 8nat };
    if few > 0 {
        vstd::arithmetic::power2::lemma_pow2_pos(e(few));
    }
    if 0 < few <= many {
        if e(few) < e(many) {
            vstd::arithmetic::power2::lemma_pow2_strictly_increases(e(few), e(many));
        }
    }
}

/// What recent violations cost: 9, 10, 12, 16 and from the fifth on 20. A violation counts for
/// sixty seconds after it came, and nothing is paid after that.
pub proof fn law_price_of_violations(t: Violations, k: (bool, u128), now: u64)
    requires
        t.contains_key(k),
    ensures
        now > t[k].last_seen_secs + 60 ==> difficulty_at(t, k, now) == 0,
        now <= t[k].last_seen_secs + 60 ==> {
            let d = difficulty_at(t, k, now);
            let v = t[k].violations;
            &&& v == 0 ==> d == 0
            &&& v == 1 ==> d == 9
            &&& v == 2 ==> d == 10
            &&& v == 3 ==> d == 12
            &&& v == 4 ==> d == 16
            &&& v >= 5 ==> d == 20
        },
{
    vstd::arithmetic::power2::lemma2_to64();
    let v = t[k].violations as int;
    if 5 <= v <= 9 {
        lemma_steep((v - 1) as nat);
    }
}

/// What a violation does: the address is charged at once, where the table has room; one more
/// violation within the minute adds to the count, and a later one starts it anew. No other address
/// pays more or less than before.
pub proof fn law_violation_is_recorded(
    t: Violations,
    max: nat,
    k: (bool, u128),
    other: (bool, u128),
    now: u64,
    later: u64,
)
    requires
        t.dom().finite(),
        other != k,
    ensures
        ({
            let next = violated(t, max, k, now);
            &&& t.contains_key(k) || t.dom().len() < max ==> next.contains_key(k)
                && next[k].last_seen_secs == now
            &&& !t.contains_key(k) && t.dom().len() < max ==> next[k].violations == 1
            &&& t.contains_key(k) && now <= t[k].last_seen_secs + 60 && t[k].violations < u32::MAX
                ==> next[k].violations == t[k].violations + 1
            &&& t.contains_key(k) && now > t[k].last_seen_secs + 60 ==> next[k].violations == 1
            &&& later >= now ==> difficulty_at(next, other, later) == difficulty_at(t, other, later)
            &&& next.contains_key(k) && next[k].violations == 1 && later <= now + 60
                && later >= now ==> difficulty_at(next, k, later) == 9
        }),
{
    vstd::arithmetic::power2::lemma2_to64();
    let next = violated(t, max, k, now);
    if !t.contains_key(k) {
        let room = if t.dom().len() >= max {
            recent_only(t, now)
        } else {
            t
        };
        assert(next.contains_key(other) <==> room.contains_key(other));
        if next.contains_key(k) {
            assert(next[k] == (ReputationEntry { violations: 1, last_seen_secs: now }));
        }
    }
}

/// Dropping old violations drops exactly those of more than sixty seconds ago.
pub proof fn law_old_violations_are_dropped(t: Violations, k: (bool, u128), now: u64)
    ensures
        recent_only(t, now).contains_key(k) <==> t.contains_key(k) && now <= t[k].last_seen_secs
            + 60,
        recent_only(t, now).contains_key(k) ==> recent_only(t, now)[k] == t[k],
        difficulty_at(recent_only(t, now), k, now) == difficulty_at(t, k, now),
{
}

/// A table holds 100000 addresses by default.
pub proof fn law_default_entries()
    ensures
        DEFAULT_MAX_ENTRIES == 100_000,
{
}

/// What a full table does with a newcomer: it drops what is older than a minute, and takes the newcomer in where that
/// leaves room; else the newcomer stays out.
pub proof fn law_newcomer_needs_room(t: Violations, max: nat, k: (bool, u128), now: u64, o: (bool, u128))
    requires
        !t.contains_key(k),
        t.dom().finite(),
        t.dom().len() >= max,
        o != k,
    ensures
        ({
            let next = violated(t, max, k, now);
            let left = recent_only(t, now).dom().len();
            &&& left < max ==> next.contains_key(k) && next[k].violations == 1
                && next[k].last_seen_secs == now
            &&& left >= max ==> !next.contains_key(k)
            &&& next.contains_key(o) <==> t.contains_key(o) && now <= t[o].last_seen_secs + 60
            &&& next.contains_key(o) ==> next[o] == t[o]
        }),
{
}

} // verus!
