//! The resumption tickets that a server keeps.
//!
//! The cache is bounded, and the ticket that was used least recently leaves it first. A ticket
//! is used when it is stored and when it is claimed, which takes it out; one that is put back
//! counts as used last. To look at a ticket is no use of it.
//!
//! Times are milliseconds on a clock of the caller.

use crate::types::CipherSuite;
use crate::wire::same_bytes;
use vstd::prelude::*;

verus! {

/// Tickets that a cache keeps by default. No promise of the cache depends on the number.
pub const DEFAULT_CAPACITY: usize = 4096;

/// How long a ticket is good for by default.
pub const TICKET_LIFETIME_MS: u64 = 3_600_000;

/// What a server remembers of a session that can be resumed.
#[derive(Debug, Clone, Copy)]
pub struct ResumptionTicket {
    pub id: [u8; 32],
    pub secret: [u8; 32],
    pub suite: CipherSuite,
    pub created_at: u64,
    pub expires_at: u64,
}

/// The ticket of session `id`, if there is one.
pub open spec fn ticket_of(tickets: Seq<ResumptionTicket>, id: Seq<u8>) -> Option<ResumptionTicket>
    decreases tickets.len(),
{
    if tickets.len() == 0 {
        None
    } else if tickets.last().id@ == id {
        Some(tickets.last())
    } else {
        ticket_of(tickets.drop_last(), id)
    }
}

/// The ticket of session `id`, if there is one that is good at `now`.
pub open spec fn valid_ticket(
    tickets: Seq<ResumptionTicket>,
    id: Seq<u8>,
    now: u64,
) -> Option<ResumptionTicket> {
    match ticket_of(tickets, id) {
        Some(t) => if now < t.expires_at {
            Some(t)
        } else {
            None
        },
        None => None,
    }
}

/// The tickets of the other sessions.
pub open spec fn without(tickets: Seq<ResumptionTicket>, id: Seq<u8>) -> Seq<ResumptionTicket>
    decreases tickets.len(),
{
    if tickets.len() == 0 {
        Seq::empty()
    } else if tickets.last().id@ == id {
        without(tickets.drop_last(), id)
    } else {
        without(tickets.drop_last(), id).push(tickets.last())
    }
}

/// The tickets after `t` was put in: it takes the place of an older one of its session, and
/// the least recently used ticket, which stands first, leaves a full cache.
pub open spec fn put(
    tickets: Seq<ResumptionTicket>,
    capacity: nat,
    t: ResumptionTicket,
) -> Seq<ResumptionTicket> {
    let others = without(tickets, t.id@);
    if others.len() >= capacity && others.len() > 0 {
        others.skip(1).push(t)
    } else {
        others.push(t)
    }
}

proof fn lemma_absent(tickets: Seq<ResumptionTicket>, id: Seq<u8>)
    ensures
        ticket_of(tickets, id) is None <==> forall|i: int|
            0 <= i < tickets.len() ==> (#[trigger] tickets[i]).id@ != id,
    decreases tickets.len(),
{
    if tickets.len() > 0 {
        let init = tickets.drop_last();
        lemma_absent(init, id);
        if ticket_of(tickets, id) is None {
            assert forall|i: int| 0 <= i < tickets.len() implies (#[trigger] tickets[i]).id@
                != id by {
                if i < init.len() {
                    assert(init[i].id@ != id);
                }
            }
        }
        if forall|i: int| 0 <= i < tickets.len() ==> (#[trigger] tickets[i]).id@ != id {
            assert(tickets[tickets.len() - 1].id@ != id);
            assert forall|i: int| 0 <= i < init.len() implies (#[trigger] init[i]).id@ != id by {
                assert(tickets[i].id@ != id);
            }
        }
    }
}

/// A session without a ticket stays without one when another session's ticket is put in.
pub proof fn law_cache_invents_no_ticket(
    tickets: Seq<ResumptionTicket>,
    capacity: nat,
    t: ResumptionTicket,
    id: Seq<u8>,
)
    requires
        ticket_of(tickets, id) is None,
        t.id@ != id,
    ensures
        ticket_of(put(tickets, capacity, t), id) is None,
{
    let others = without(tickets, t.id@);
    let next = put(tickets, capacity, t);
    law_cache_finds_what_was_put(tickets, capacity, t, id);
    lemma_absent(others, id);
    assert forall|i: int| 0 <= i < next.len() implies (#[trigger] next[i]).id@ != id by {
        if i < next.len() - 1 {
            assert(next[i] == others[i] || next[i] == others[i + 1]);
        }
    }
    lemma_absent(next, id);
}

proof fn lemma_without_len(tickets: Seq<ResumptionTicket>, id: Seq<u8>)
    ensures
        without(tickets, id).len() <= tickets.len(),
    decreases tickets.len(),
{
    if tickets.len() > 0 {
        lemma_without_len(tickets.drop_last(), id);
    }
}

/// A cache that keeps to its capacity goes on to do so.
pub proof fn law_cache_is_bounded(
    tickets: Seq<ResumptionTicket>,
    capacity: nat,
    t: ResumptionTicket,
    id: Seq<u8>,
)
    requires
        tickets.len() <= capacity,
        capacity > 0,
    ensures
        put(tickets, capacity, t).len() <= capacity,
        without(tickets, id).len() <= capacity,
{
    lemma_without_len(tickets, t.id@);
    lemma_without_len(tickets, id);
}

/// A ticket that was put in is found, and after a removal none is; other sessions keep
/// theirs, but for the least recently used one of a full cache.
pub proof fn law_cache_finds_what_was_put(
    tickets: Seq<ResumptionTicket>,
    capacity: nat,
    t: ResumptionTicket,
    id: Seq<u8>,
)
    ensures
        ticket_of(put(tickets, capacity, t), t.id@) == Some(t),
        ticket_of(without(tickets, id), id) is None,
        id != t.id@ ==> ticket_of(without(tickets, t.id@), id) == ticket_of(tickets, id),
        id != t.id@ && without(tickets, t.id@).len() < capacity ==> ticket_of(
            put(tickets, capacity, t),
            id,
        ) == ticket_of(tickets, id),
    decreases tickets.len(),
{
    let others = without(tickets, t.id@);
    assert(put(tickets, capacity, t).last() == t);
    if tickets.len() > 0 {
        let init = tickets.drop_last();
        law_cache_finds_what_was_put(init, capacity, t, id);
        if tickets.last().id@ != id {
            assert(without(tickets, id).drop_last() =~= without(init, id));
        }
        if tickets.last().id@ != t.id@ {
            assert(others.drop_last() =~= without(init, t.id@));
        }
    }
    assert(others.push(t).drop_last() =~= others);
}

/// The tickets of a server, the least recently used first.
pub struct SessionCache {
    tickets: Vec<ResumptionTicket>,
    capacity: usize,
}

impl View for SessionCache {
    type V = Seq<ResumptionTicket>;

    closed spec fn view(&self) -> Seq<ResumptionTicket> {
        self.tickets@
    }
}

impl SessionCache {
    /// The most tickets that the cache keeps.
    pub closed spec fn spec_capacity(self) -> nat {
        self.capacity as nat
    }

    /// An empty cache of the default size.
    pub fn new() -> (c: Self)
        ensures
            c@ == Seq::<ResumptionTicket>::empty(),
            c.spec_capacity() == DEFAULT_CAPACITY,
    {
        SessionCache { tickets: Vec::new(), capacity: DEFAULT_CAPACITY }
    }

    /// The number of tickets.
    pub fn len(&self) -> (n: usize)
        ensures
            n == self@.len(),
    {
        self.tickets.len()
    }

    /// The ticket of session `id`, if it is good at `now`. It stays in the cache.
    pub fn peek(&self, id: &[u8; 32], now: u64) -> (t: Option<ResumptionTicket>)
        ensures
            t == valid_ticket(self@, id@, now),
    {
        match self.find(id) {
            Some(t) => if now < t.expires_at {
                Some(t)
            } else {
                None
            },
            None => None,
        }
    }

    fn find(&self, id: &[u8; 32]) -> (t: Option<ResumptionTicket>)
        ensures
            t == ticket_of(self@, id@),
    {
        let mut i: usize = self.tickets.len();
        assert(self@.take(i as int) =~= self@);
        while i > 0
            invariant
                i <= self@.len(),
                self@ == self.tickets@,
                ticket_of(self@, id@) == ticket_of(self@.take(i as int), id@),
            decreases i,
        {
            let t: ResumptionTicket = self.tickets[i - 1];
            assert(self@.take(i as int).last() == t);
            assert(self@.take(i as int).drop_last() =~= self@.take(i - 1));
            if same_bytes(t.id.as_slice(), id.as_slice()) {
                return Some(t);
            }
            i -= 1;
        }
        None
    }

    /// Remove the ticket of session `id`. `true` when there was one.
    pub fn remove(&mut self, id: &[u8; 32]) -> (was: bool)
        ensures
            was == (ticket_of(old(self)@, id@) is Some),
            final(self)@ == without(old(self)@, id@),
            final(self).spec_capacity() == old(self).spec_capacity(),
    {
        let was: bool = self.find(id).is_some();
        let mut kept: Vec<ResumptionTicket> = Vec::new();
        let mut i: usize = 0;
        assert(self@.take(0) =~= Seq::empty());
        while i < self.tickets.len()
            invariant
                i <= self@.len(),
                self@ == self.tickets@,
                kept@ == without(self@.take(i as int), id@),
            decreases self@.len() - i,
        {
            let t: ResumptionTicket = self.tickets[i];
            assert(self@.take(i + 1).last() == t);
            assert(self@.take(i + 1).drop_last() =~= self@.take(i as int));
            if !same_bytes(t.id.as_slice(), id.as_slice()) {
                kept.push(t);
            }
            i += 1;
        }
        assert(self@.take(i as int) =~= self@);
        self.tickets = kept;
        was
    }

    fn insert(&mut self, t: ResumptionTicket)
        ensures
            final(self)@ == put(old(self)@, old(self).spec_capacity(), t),
            final(self).spec_capacity() == old(self).spec_capacity(),
    {
        self.remove(&t.id);
        if self.tickets.len() >= self.capacity && self.tickets.len() > 0 {
            let ghost others = self.tickets@;
            self.tickets.remove(0);
            assert(self.tickets@ =~= others.skip(1));
        }
        self.tickets.push(t);
    }

    /// Keep a ticket for session `id`, made at `now` and good for the default lifetime.
    pub fn store(&mut self, id: [u8; 32], secret: &[u8; 32], suite: CipherSuite, now: u64)
        ensures
            final(self)@ == put(
                old(self)@,
                old(self).spec_capacity(),
                new_ticket(id, *secret, suite, now),
            ),
            final(self).spec_capacity() == old(self).spec_capacity(),
    {
        self.insert(
            ResumptionTicket {
                id,
                secret: *secret,
                suite,
                created_at: now,
                expires_at: now.saturating_add(TICKET_LIFETIME_MS),
            },
        );
    }

    /// Put a ticket back with the lifetime that it had.
    pub fn reinsert_with_expiry(
        &mut self,
        id: [u8; 32],
        secret: &[u8; 32],
        suite: CipherSuite,
        created_at: u64,
        expires_at: u64,
    )
        ensures
            final(self)@ == put(
                old(self)@,
                old(self).spec_capacity(),
                (ResumptionTicket { id, secret: *secret, suite, created_at, expires_at }),
            ),
            final(self).spec_capacity() == old(self).spec_capacity(),
    {
        self.insert(ResumptionTicket { id, secret: *secret, suite, created_at, expires_at });
    }
}

/// A ticket made at `now`.
pub open spec fn new_ticket(id: [u8; 32], secret: [u8; 32], suite: CipherSuite, now: u64) -> ResumptionTicket {
    ResumptionTicket {
        id,
        secret,
        suite,
        created_at: now,
        expires_at: if now + TICKET_LIFETIME_MS <= u64::MAX {
            (now + TICKET_LIFETIME_MS) as u64
        } else {
            u64::MAX
        },
    }
}

/// How long a ticket is good: one hour from when it was made, and not at the end of it. It keeps the
/// session, the secret and the suite that it was made for.
pub proof fn law_ticket_lasts_an_hour(
    id: [u8; 32],
    secret: [u8; 32],
    suite: CipherSuite,
    made: u64,
    capacity: nat,
    tickets: Seq<ResumptionTicket>,
    now: u64,
)
    requires
        made + 3_600_000 <= u64::MAX,
    ensures
        ({
            let t = new_ticket(id, secret, suite, made);
            let after = put(tickets, capacity, t);
            &&& t.id == id && t.secret == secret && t.suite == suite && t.created_at == made
            &&& now < made + 3_600_000 ==> valid_ticket(after, id@, now) == Some(t)
            &&& now >= made + 3_600_000 ==> valid_ticket(after, id@, now) is None
        }),
{
    law_cache_finds_what_was_put(tickets, capacity, new_ticket(id, secret, suite, made), id@);
}

/// Which ticket leaves a full cache: only the one that stands first, which was used least recently. Where
/// there is room none leaves, and the new one always stands last.
pub proof fn law_least_recently_used_leaves(
    tickets: Seq<ResumptionTicket>,
    capacity: nat,
    t: ResumptionTicket,
)
    requires
        ticket_of(tickets, t.id@) is None,
        capacity > 0,
    ensures
        put(tickets, capacity, t).last() == t,
        tickets.len() < capacity ==> put(tickets, capacity, t) == tickets.push(t),
        tickets.len() >= capacity ==> put(tickets, capacity, t) == tickets.skip(1).push(t),
{
    lemma_without_absent(tickets, t.id@);
}

proof fn lemma_without_absent(tickets: Seq<ResumptionTicket>, id: Seq<u8>)
    requires
        ticket_of(tickets, id) is None,
    ensures
        without(tickets, id) == tickets,
    decreases tickets.len(),
{
    if tickets.len() > 0 {
        lemma_without_absent(tickets.drop_last(), id);
        assert(tickets.drop_last().push(tickets.last()) =~= tickets);
    } else {
        assert(without(tickets, id) =~= tickets);
    }
}

/// A cache holds 4096 tickets by default.
pub proof fn law_default_capacity()
    ensures
        DEFAULT_CAPACITY == 4096,
{
}

} // verus!
