//! Fragmentation of logical packets and their bounded reassembly.

use crate::wire::{append, copy_bytes, same_bytes};
use vstd::prelude::*;

verus! {

/// Largest payload of one fragment.
pub const MAX_UDP_PAYLOAD: usize = 1200;

/// Largest logical packet that is reassembled, and most bytes that one assembly holds.
pub const MAX_REASSEMBLED_LEN: usize = 262144;

/// Most fragments of one logical packet.
pub const MAX_TOTAL_CHUNKS: u16 = 219;

/// Most assemblies tracked at once.
pub const MAX_CONCURRENT_ASSEMBLIES: usize = 256;

/// Silence after which an assembly is dropped, in milliseconds.
pub const DEAD_AFTER_MS: u64 = 5000;

/// Silence after which missing chunks are reported, in milliseconds.
pub const NACK_AFTER_MS: u64 = 50;

/// One chunk of a fragmented logical packet.
#[derive(Debug, Clone)]
pub struct CryptoFrame {
    pub session_id: [u8; 16],
    pub packet_id: u32,
    pub chunk_index: u16,
    pub total_chunks: u16,
    pub payload: Vec<u8>,
}

/// A frame as sequences.
#[verifier::ext_equal]
pub struct Chunk {
    pub session: Seq<u8>,
    pub packet: u32,
    pub index: nat,
    /// How many chunks the packet has.
    pub total: nat,
    pub payload: Seq<u8>,
}

impl View for CryptoFrame {
    type V = Chunk;

    open spec fn view(&self) -> Chunk {
        Chunk {
            session: self.session_id@,
            packet: self.packet_id,
            index: self.chunk_index as nat,
            total: self.total_chunks as nat,
            payload: self.payload@,
        }
    }
}

struct AssemblyState {
    session_id: [u8; 16],
    packet_id: u32,
    chunks: Vec<Option<Vec<u8>>>,
    received: usize,
    held: usize,
    total_chunks: u16,
    last_update_ms: u64,
}

/// One packet under reassembly.
#[verifier::ext_equal]
pub struct Assembly {
    pub session: Seq<u8>,
    pub packet: u32,
    /// How many chunks the first frame announced.
    pub total: nat,
    /// The chunk received for each index.
    pub parts: Seq<Option<Seq<u8>>>,
    /// When the last frame came.
    pub last_ms: u64,
}

/// The chunks of a chunk table.
pub open spec fn parts_of(chunks: Seq<Option<Vec<u8>>>) -> Seq<Option<Seq<u8>>> {
    Seq::new(
        chunks.len(),
        |i: int|
            match chunks[i] {
                None => None,
                Some(v) => Some(v@),
            },
    )
}

/// How many chunks are there.
pub open spec fn filled(parts: Seq<Option<Seq<u8>>>) -> nat
    decreases parts.len(),
{
    if parts.len() == 0 {
        0
    } else {
        filled(parts.drop_last()) + (if parts.last() is Some {
            1nat
        } else {
            0nat
        })
    }
}

/// How many bytes the chunks hold.
pub open spec fn held(parts: Seq<Option<Seq<u8>>>) -> nat
    decreases parts.len(),
{
    if parts.len() == 0 {
        0
    } else {
        held(parts.drop_last()) + part_len(parts.last())
    }
}

/// The length of a chunk, nothing where it is missing.
pub open spec fn part_len(part: Option<Seq<u8>>) -> nat {
    match part {
        None => 0,
        Some(chunk) => chunk.len(),
    }
}

/// The bytes of a packet that was handed out.
pub open spec fn bytes_of(packet: Option<Vec<u8>>) -> Option<Seq<u8>> {
    match packet {
        None => None,
        Some(v) => Some(v@),
    }
}

/// The first `n` chunks one after another, if all are there.
pub open spec fn joined(parts: Seq<Option<Seq<u8>>>, n: nat) -> Option<Seq<u8>>
    decreases n,
{
    if n == 0 {
        Some(Seq::empty())
    } else {
        match (joined(parts, (n - 1) as nat), parts[n - 1]) {
            (Some(front), Some(chunk)) => Some(front + chunk),
            _ => None,
        }
    }
}

/// The indices below `n` whose chunk is missing.
pub open spec fn missing(parts: Seq<Option<Seq<u8>>>, n: nat) -> Seq<u16>
    decreases n,
{
    if n == 0 {
        Seq::empty()
    } else {
        let front = missing(parts, (n - 1) as nat);
        if parts[n - 1] is None {
            front.push((n - 1) as u16)
        } else {
            front
        }
    }
}

/// No chunk yet.
pub open spec fn no_parts() -> Seq<Option<Seq<u8>>> {
    Seq::new(MAX_TOTAL_CHUNKS as nat, |i: int| None)
}

/// Whether a frame may be stored at all.
pub open spec fn acceptable(f: Chunk) -> bool {
    &&& 0 < f.total <= MAX_TOTAL_CHUNKS
    &&& f.index < f.total
    &&& f.payload.len() <= MAX_UDP_PAYLOAD
}

/// The place of an assembly in a table, or the table's length.
pub open spec fn place_of(t: Seq<Assembly>, session: Seq<u8>, packet: u32) -> int
    decreases t.len(),
{
    if t.len() == 0 {
        0
    } else if t[0].session == session && t[0].packet == packet {
        0
    } else {
        1 + place_of(t.skip(1), session, packet)
    }
}

/// Whether the packet of a frame holds no more than `MAX_REASSEMBLED_LEN` bytes with its
/// chunk. A chunk that opens an assembly always fits.
pub open spec fn fits(t: Seq<Assembly>, f: Chunk) -> bool {
    let at = place_of(t, f.session, f.packet);
    at < t.len() ==> held(t[at].parts.update(f.index as int, Some(f.payload)))
        <= MAX_REASSEMBLED_LEN
}

/// Whether no assembly of `t` was updated before assembly `i`.
pub open spec fn stalest(t: Seq<Assembly>, i: int) -> bool {
    &&& 0 <= i < t.len()
    &&& forall|k: int| 0 <= k < t.len() ==> t[i].last_ms <= (#[trigger] t[k]).last_ms
}

/// Whether `mid` is `t` with room for a new assembly: one of the stalest is dropped when
/// the frame opens an assembly and the table is full.
pub open spec fn made_room(t: Seq<Assembly>, mid: Seq<Assembly>, f: Chunk) -> bool {
    if place_of(t, f.session, f.packet) == t.len() && t.len() >= MAX_CONCURRENT_ASSEMBLIES {
        exists|i: int| #[trigger] stalest(t, i) && mid == t.remove(i)
    } else {
        mid == t
    }
}

/// The table with an assembly for the frame, a new one at the end if there was none.
pub open spec fn opened(t: Seq<Assembly>, f: Chunk, now_ms: u64) -> Seq<Assembly> {
    if place_of(t, f.session, f.packet) == t.len() {
        t.push(
            Assembly {
                session: f.session,
                packet: f.packet,
                total: f.total,
                parts: no_parts(),
                last_ms: now_ms,
            },
        )
    } else {
        t
    }
}

/// An assembly with the chunk of a frame.
pub open spec fn with_chunk(a: Assembly, f: Chunk, now_ms: u64) -> Assembly {
    Assembly {
        parts: a.parts.update(f.index as int, Some(f.payload)),
        last_ms: now_ms,
        ..a
    }
}

/// The table and the packet handed out after a frame is stored in `t`, which has room.
pub open spec fn stored(t: Seq<Assembly>, f: Chunk, now_ms: u64) -> (
    Seq<Assembly>,
    Option<Seq<u8>>,
) {
    let at = place_of(t, f.session, f.packet);
    let open = opened(t, f, now_ms);
    let a = with_chunk(open[at], f, now_ms);
    if filled(a.parts) == a.total {
        (open.remove(at), joined(a.parts, a.total))
    } else {
        (open.update(at, a), None)
    }
}

/// Whether a frame that comes at `now_ms` takes the table from `t` to `after` and hands out
/// `out`. One that is out of bounds, or that would take its packet above
/// `MAX_REASSEMBLED_LEN`, changes nothing.
pub open spec fn processed(
    t: Seq<Assembly>,
    f: Chunk,
    now_ms: u64,
    after: Seq<Assembly>,
    out: Option<Seq<u8>>,
) -> bool {
    if acceptable(f) && fits(t, f) {
        exists|mid: Seq<Assembly>| #[trigger]
            made_room(t, mid, f) && after == stored(mid, f, now_ms).0 && out == stored(
                mid,
                f,
                now_ms,
            ).1
    } else {
        after == t && out is None
    }
}

/// The bytes that the assemblies of a table hold.
pub open spec fn resident(t: Seq<Assembly>) -> nat
    decreases t.len(),
{
    if t.len() == 0 {
        0
    } else {
        resident(t.drop_last()) + held(t.last().parts)
    }
}

/// Milliseconds since `last_ms`.
pub open spec fn silent_for(now_ms: u64, last_ms: u64) -> int {
    if now_ms > last_ms {
        now_ms - last_ms
    } else {
        0
    }
}

/// The assemblies that are not dead.
pub open spec fn alive(t: Seq<Assembly>, now_ms: u64) -> Seq<Assembly>
    decreases t.len(),
{
    if t.len() == 0 {
        t
    } else if silent_for(now_ms, t.last().last_ms) > DEAD_AFTER_MS {
        alive(t.drop_last(), now_ms)
    } else {
        alive(t.drop_last(), now_ms).push(t.last())
    }
}

/// The missing chunks of every assembly that is silent but not dead.
pub open spec fn nacks(t: Seq<Assembly>, now_ms: u64) -> Seq<(Seq<u8>, u32, Seq<u16>)>
    decreases t.len(),
{
    if t.len() == 0 {
        Seq::empty()
    } else {
        let front = nacks(t.drop_last(), now_ms);
        let a = t.last();
        let lost = missing(a.parts, a.total);
        if NACK_AFTER_MS < silent_for(now_ms, a.last_ms) <= DEAD_AFTER_MS && lost.len() > 0 {
            front.push((a.session, a.packet, lost))
        } else {
            front
        }
    }
}

impl AssemblyState {
    spec fn model(&self) -> Assembly {
        Assembly {
            session: self.session_id@,
            packet: self.packet_id,
            total: self.total_chunks as nat,
            parts: parts_of(self.chunks@),
            last_ms: self.last_update_ms,
        }
    }

    spec fn wf(&self) -> bool {
        &&& self.chunks@.len() == MAX_TOTAL_CHUNKS
        &&& 0 < self.total_chunks <= MAX_TOTAL_CHUNKS
        &&& self.received == filled(parts_of(self.chunks@))
        &&& self.received < self.total_chunks
        &&& self.held == held(parts_of(self.chunks@))
        &&& self.held <= MAX_REASSEMBLED_LEN
    }
}

spec fn models(s: Seq<AssemblyState>) -> Seq<Assembly> {
    Seq::new(s.len(), |i: int| s[i].model())
}

/// Reassembles fragmented packets within fixed bounds.
pub struct FragmentAssembler {
    assemblies: Vec<AssemblyState>,
}

impl View for FragmentAssembler {
    type V = Seq<Assembly>;

    closed spec fn view(&self) -> Seq<Assembly> {
        models(self.assemblies@)
    }
}

/// A reported gap as sequences.
pub open spec fn nack_views(n: Seq<([u8; 16], u32, Vec<u16>)>) -> Seq<(Seq<u8>, u32, Seq<u16>)> {
    Seq::new(n.len(), |i: int| (n[i].0@, n[i].1, n[i].2@))
}

proof fn lemma_filled_update(parts: Seq<Option<Seq<u8>>>, i: int, chunk: Seq<u8>)
    requires
        0 <= i < parts.len(),
    ensures
        filled(parts.update(i, Some(chunk))) == filled(parts) + (if parts[i] is None {
            1nat
        } else {
            0nat
        }),
    decreases parts.len(),
{
    let next = parts.update(i, Some(chunk));
    if i == parts.len() - 1 {
        assert(next.drop_last() =~= parts.drop_last());
    } else {
        lemma_filled_update(parts.drop_last(), i, chunk);
        assert(next.drop_last() =~= parts.drop_last().update(i, Some(chunk)));
    }
}

proof fn lemma_held_update(parts: Seq<Option<Seq<u8>>>, i: int, chunk: Seq<u8>)
    requires
        0 <= i < parts.len(),
    ensures
        held(parts) >= part_len(parts[i]),
        held(parts.update(i, Some(chunk))) == held(parts) - part_len(parts[i]) + chunk.len(),
    decreases parts.len(),
{
    let next = parts.update(i, Some(chunk));
    if i == parts.len() - 1 {
        assert(next.drop_last() =~= parts.drop_last());
    } else {
        lemma_held_update(parts.drop_last(), i, chunk);
        assert(next.drop_last() =~= parts.drop_last().update(i, Some(chunk)));
    }
}

proof fn lemma_held_none(parts: Seq<Option<Seq<u8>>>)
    requires
        forall|i: int| 0 <= i < parts.len() ==> parts[i] is None,
    ensures
        held(parts) == 0,
    decreases parts.len(),
{
    if parts.len() > 0 {
        lemma_held_none(parts.drop_last());
    }
}

proof fn lemma_front_is_less(parts: Seq<Option<Seq<u8>>>, n: nat)
    requires
        n <= parts.len(),
    ensures
        filled(parts.take(n as int)) <= filled(parts),
        held(parts.take(n as int)) <= held(parts),
    decreases parts.len() - n,
{
    if n == parts.len() {
        assert(parts.take(n as int) =~= parts);
    } else {
        lemma_front_is_less(parts, n + 1);
        assert(parts.take((n + 1) as int).drop_last() =~= parts.take(n as int));
    }
}

proof fn lemma_joined_len(parts: Seq<Option<Seq<u8>>>, n: nat)
    requires
        n <= parts.len(),
    ensures
        joined(parts, n) matches Some(p) ==> p.len() == held(parts.take(n as int)),
    decreases n,
{
    if n > 0 {
        lemma_joined_len(parts, (n - 1) as nat);
        assert(parts.take(n as int).drop_last() =~= parts.take(n - 1));
    }
}

proof fn lemma_none_missing(parts: Seq<Option<Seq<u8>>>, n: nat)
    requires
        n <= parts.len(),
        missing(parts, n).len() == 0,
    ensures
        filled(parts.take(n as int)) == n,
    decreases n,
{
    if n > 0 {
        lemma_none_missing(parts, (n - 1) as nat);
        assert(parts.take(n as int).drop_last() =~= parts.take(n - 1));
    }
}

proof fn lemma_missing_holds(parts: Seq<Option<Seq<u8>>>, n: nat, k: u16)
    requires
        n <= 65536,
    ensures
        missing(parts, n).contains(k) <==> k < n && parts[k as int] is None,
    decreases n,
{
    if n > 0 {
        let front = missing(parts, (n - 1) as nat);
        let all = missing(parts, n);
        lemma_missing_holds(parts, (n - 1) as nat, k);
        if front.contains(k) {
            let i = choose|i: int| 0 <= i < front.len() && front[i] == k;
            assert(all[i] == k);
        }
        if k == n - 1 && parts[k as int] is None {
            assert(all[front.len() as int] == k);
        }
        if all.contains(k) && !front.contains(k) {
            let i = choose|i: int| 0 <= i < all.len() && all[i] == k;
            if i < front.len() {
                assert(front[i] == k);
            }
        }
    }
}

proof fn lemma_resident(t: Seq<Assembly>)
    requires
        forall|i: int| 0 <= i < t.len() ==> held((#[trigger] t[i]).parts) <= MAX_REASSEMBLED_LEN,
    ensures
        resident(t) <= t.len() * MAX_REASSEMBLED_LEN,
    decreases t.len(),
{
    if t.len() > 0 {
        lemma_resident(t.drop_last());
    }
}

proof fn lemma_reported(t: Seq<Assembly>, now_ms: u64, i: int)
    requires
        0 <= i < t.len(),
        NACK_AFTER_MS < silent_for(now_ms, t[i].last_ms) <= DEAD_AFTER_MS,
        missing(t[i].parts, t[i].total).len() > 0,
    ensures
        nacks(t, now_ms).contains((t[i].session, t[i].packet, missing(t[i].parts, t[i].total))),
    decreases t.len(),
{
    let said = (t[i].session, t[i].packet, missing(t[i].parts, t[i].total));
    let front = nacks(t.drop_last(), now_ms);
    let all = nacks(t, now_ms);
    if i == t.len() - 1 {
        assert(all == front.push(said));
        assert(all[front.len() as int] == said);
    } else {
        lemma_reported(t.drop_last(), now_ms, i);
        let k = choose|k: int| 0 <= k < front.len() && front[k] == said;
        assert(all[k] == said);
    }
}

proof fn lemma_filled_bound(parts: Seq<Option<Seq<u8>>>)
    ensures
        filled(parts) <= parts.len(),
    decreases parts.len(),
{
    if parts.len() > 0 {
        lemma_filled_bound(parts.drop_last());
    }
}

proof fn lemma_filled_none(parts: Seq<Option<Seq<u8>>>)
    requires
        forall|i: int| 0 <= i < parts.len() ==> parts[i] is None,
    ensures
        filled(parts) == 0,
    decreases parts.len(),
{
    if parts.len() > 0 {
        lemma_filled_none(parts.drop_last());
    }
}

proof fn lemma_place_of(t: Seq<Assembly>, session: Seq<u8>, packet: u32, i: int)
    requires
        0 <= i <= t.len(),
        forall|k: int|
            0 <= k < i ==> !((#[trigger] t[k]).session == session && t[k].packet == packet),
        i < t.len() ==> t[i].session == session && t[i].packet == packet,
    ensures
        place_of(t, session, packet) == i,
    decreases t.len(),
{
    if i > 0 {
        let rest = t.skip(1);
        assert forall|k: int| 0 <= k < i - 1 implies !((#[trigger] rest[k]).session == session
            && rest[k].packet == packet) by {
            assert(rest[k] == t[k + 1]);
        }
        lemma_place_of(rest, session, packet, i - 1);
    }
}

fn empty_chunks() -> (v: Vec<Option<Vec<u8>>>)
    ensures
        parts_of(v@) == no_parts(),
        v@.len() == MAX_TOTAL_CHUNKS,
{
    let mut v: Vec<Option<Vec<u8>>> = Vec::new();
    while v.len() < MAX_TOTAL_CHUNKS as usize
        invariant
            v@.len() <= MAX_TOTAL_CHUNKS,
            forall|i: int| 0 <= i < v@.len() ==> #[trigger] v@[i] is None,
        decreases MAX_TOTAL_CHUNKS - v@.len(),
    {
        v.push(None);
    }
    assert(parts_of(v@) =~= no_parts());
    v
}

fn chunk_len(chunk: &Option<Vec<u8>>) -> (n: usize)
    ensures
        n == match chunk {
            None => 0,
            Some(v) => v@.len(),
        },
{
    match chunk {
        None => 0,
        Some(v) => v.len(),
    }
}

fn join_chunks(chunks: &Vec<Option<Vec<u8>>>, n: u16) -> (r: Option<Vec<u8>>)
    requires
        n <= chunks@.len(),
    ensures
        match joined(parts_of(chunks@), n as nat) {
            None => r is None,
            Some(p) => r matches Some(v) && v@ == p,
        },
{
    let mut packet: Vec<u8> = Vec::new();
    let mut i: u16 = 0;
    while i < n
        invariant
            i <= n <= chunks@.len(),
            joined(parts_of(chunks@), i as nat) == Some(packet@),
        decreases n - i,
    {
        match &chunks[i as usize] {
            None => {
                proof {
                    lemma_joined_none(parts_of(chunks@), (i + 1) as nat, n as nat);
                }
                return None;
            },
            Some(chunk) => {
                append(&mut packet, chunk.as_slice());
            },
        }
        i += 1;
    }
    Some(packet)
}

proof fn lemma_joined_none(parts: Seq<Option<Seq<u8>>>, k: nat, n: nat)
    requires
        k <= n,
        joined(parts, k) is None,
    ensures
        joined(parts, n) is None,
    decreases n,
{
    if k < n {
        lemma_joined_none(parts, k, (n - 1) as nat);
    }
}

impl FragmentAssembler {
    /// At most `MAX_CONCURRENT_ASSEMBLIES` assemblies, each with a place for every chunk, short
    /// of a chunk, and with no more than `MAX_REASSEMBLED_LEN` bytes.
    pub closed spec fn wf(&self) -> bool {
        &&& self.assemblies@.len() <= MAX_CONCURRENT_ASSEMBLIES
        &&& forall|i: int| 0 <= i < self.assemblies@.len() ==> (#[trigger] self.assemblies@[i]).wf()
    }

    /// The table never holds more than `MAX_CONCURRENT_ASSEMBLIES` assemblies.
    pub proof fn law_table_is_bounded(&self)
        requires
            self.wf(),
        ensures
            self@.len() <= MAX_CONCURRENT_ASSEMBLIES,
    {
    }

    /// No assembly holds more than `MAX_REASSEMBLED_LEN` bytes, so all of them together hold
    /// no more than `MAX_CONCURRENT_ASSEMBLIES` times as many.
    pub proof fn law_memory_is_bounded(&self)
        requires
            self.wf(),
        ensures
            forall|i: int|
                0 <= i < self@.len() ==> held((#[trigger] self@[i]).parts) <= MAX_REASSEMBLED_LEN,
            resident(self@) <= MAX_CONCURRENT_ASSEMBLIES * MAX_REASSEMBLED_LEN,
    {
        assert forall|i: int| 0 <= i < self@.len() implies held((#[trigger] self@[i]).parts)
            <= MAX_REASSEMBLED_LEN by {
            assert(self.assemblies@[i].wf());
        }
        lemma_resident(self@);
    }

    /// Every assembly that is tracked lacks a chunk of its packet.
    pub proof fn law_every_assembly_lacks_a_chunk(&self, i: int)
        requires
            self.wf(),
            0 <= i < self@.len(),
        ensures
            missing(self@[i].parts, self@[i].total).len() > 0,
    {
        let a = self@[i];
        assert(self.assemblies@[i].wf());
        if missing(a.parts, a.total).len() == 0 {
            lemma_none_missing(a.parts, a.total);
            lemma_front_is_less(a.parts, a.total);
        }
    }

    /// An assembly has between one and `MAX_TOTAL_CHUNKS` chunks, and what it lacks are exactly
    /// those that did not come.
    pub proof fn law_missing_chunks_are_exact(&self, i: int)
        requires
            self.wf(),
            0 <= i < self@.len(),
        ensures
            0 < self@[i].total <= MAX_TOTAL_CHUNKS,
            self@[i].parts.len() == MAX_TOTAL_CHUNKS,
            forall|k: u16| #[trigger]
                missing(self@[i].parts, self@[i].total).contains(k) <==> k < self@[i].total
                    && self@[i].parts[k as int] is None,
    {
        let a = self@[i];
        assert(self.assemblies@[i].wf());
        assert forall|k: u16| #[trigger]
            missing(a.parts, a.total).contains(k) <==> k < a.total && a.parts[k as int] is None by {
            lemma_missing_holds(a.parts, a.total, k);
        }
    }

    /// An assembly that is silent but not dead is always reported, with the chunks that it
    /// lacks.
    pub proof fn law_silent_assembly_is_reported(&self, now_ms: u64, i: int)
        requires
            self.wf(),
            0 <= i < self@.len(),
            NACK_AFTER_MS < silent_for(now_ms, self@[i].last_ms) <= DEAD_AFTER_MS,
        ensures
            nacks(self@, now_ms).contains(
                (self@[i].session, self@[i].packet, missing(self@[i].parts, self@[i].total)),
            ),
    {
        self.law_every_assembly_lacks_a_chunk(i);
        lemma_reported(self@, now_ms, i);
    }

    /// No assembly.
    pub fn new() -> (a: Self)
        ensures
            a.wf(),
            a@ == Seq::<Assembly>::empty(),
    {
        let a = FragmentAssembler { assemblies: Vec::new() };
        assert(a@ =~= Seq::<Assembly>::empty());
        a
    }

    /// The place of the assembly of a packet, or the number of assemblies.
    fn find(&self, session_id: &[u8; 16], packet_id: u32) -> (i: usize)
        ensures
            i == place_of(self@, session_id@, packet_id),
            i <= self@.len(),
    {
        let mut i: usize = 0;
        while i < self.assemblies.len()
            invariant
                i <= self.assemblies@.len(),
                forall|k: int|
                    0 <= k < i ==> !((#[trigger] self@[k]).session == session_id@
                        && self@[k].packet == packet_id),
            decreases self.assemblies@.len() - i,
        {
            let a: &AssemblyState = &self.assemblies[i];
            assert(self@[i as int] == a.model());
            if a.packet_id == packet_id && same_bytes(a.session_id.as_slice(), session_id.as_slice()) {
                proof {
                    lemma_place_of(self@, session_id@, packet_id, i as int);
                }
                return i;
            }
            i += 1;
        }
        proof {
            lemma_place_of(self@, session_id@, packet_id, i as int);
        }
        i
    }

    /// Drop one of the assemblies that were updated least recently.
    fn evict_stalest(&mut self)
        requires
            old(self).wf(),
            old(self)@.len() > 0,
        ensures
            final(self).wf(),
            exists|i: int| #[trigger] stalest(old(self)@, i) && final(self)@ == old(self)@.remove(i),
    {
        let mut best: usize = 0;
        let mut i: usize = 1;
        while i < self.assemblies.len()
            invariant
                best < i <= self.assemblies@.len(),
                forall|k: int|
                    0 <= k < i ==> self@[best as int].last_ms <= (#[trigger] self@[k]).last_ms,
            decreases self.assemblies@.len() - i,
        {
            assert(self@[i as int] == self.assemblies@[i as int].model());
            assert(self@[best as int] == self.assemblies@[best as int].model());
            if self.assemblies[i].last_update_ms < self.assemblies[best].last_update_ms {
                best = i;
            }
            i += 1;
        }
        assert(stalest(self@, best as int));
        let ghost before = self.assemblies@;
        let _dropped: AssemblyState = self.assemblies.remove(best);
        proof {
            assert(self@ =~= old(self)@.remove(best as int));
            assert forall|k: int| 0 <= k < self.assemblies@.len() implies (
            #[trigger] self.assemblies@[k]).wf() by {
                if k < best {
                    assert(self.assemblies@[k] == before[k]);
                } else {
                    assert(self.assemblies@[k] == before[k + 1]);
                }
            }
        }
    }

    /// Store the chunk of a frame that came at `now_ms`, and hand the packet out when it
    /// completes one. A frame out of bounds is dropped, and so is one that would take its
    /// packet above `MAX_REASSEMBLED_LEN`.
    pub fn process_chunk(&mut self, frame: CryptoFrame, now_ms: u64) -> (r: Option<Vec<u8>>)
        requires
            old(self).wf(),
        ensures
            final(self).wf(),
            processed(old(self)@, frame@, now_ms, final(self)@, bytes_of(r)),
            r matches Some(v) ==> v@.len() <= MAX_REASSEMBLED_LEN,
    {
        if frame.total_chunks == 0 || frame.total_chunks > MAX_TOTAL_CHUNKS || frame.chunk_index
            >= frame.total_chunks || frame.payload.len() > MAX_UDP_PAYLOAD {
            return None;
        }
        let ghost start = self@;
        let ghost chunk = frame@;
        let index: usize = frame.chunk_index as usize;
        let mut at: usize = self.find(&frame.session_id, frame.packet_id);
        if at < self.assemblies.len() {
            let state: &AssemblyState = &self.assemblies[at];
            proof {
                assert(self.assemblies@[at as int].wf());
                assert(start[at as int] == state.model());
                lemma_held_update(start[at as int].parts, index as int, frame.payload@);
            }
            if state.held - chunk_len(&state.chunks[index]) + frame.payload.len()
                > MAX_REASSEMBLED_LEN {
                return None;
            }
        }
        assert(fits(start, chunk));
        if at == self.assemblies.len() && self.assemblies.len() >= MAX_CONCURRENT_ASSEMBLIES {
            self.evict_stalest();
            proof {
                let i = choose|i: int| #[trigger] stalest(start, i) && self@ == start.remove(i);
                lemma_absent_after_remove(start, frame.session_id@, frame.packet_id, i);
            }
            at = self.assemblies.len();
        }
        let ghost mid = self@;
        assert(made_room(start, mid, chunk));
        assert(at == place_of(mid, frame.session_id@, frame.packet_id));
        if at == self.assemblies.len() {
            let chunks: Vec<Option<Vec<u8>>> = empty_chunks();
            proof {
                lemma_filled_none(no_parts());
                lemma_held_none(no_parts());
            }
            self.assemblies.push(
                AssemblyState {
                    session_id: frame.session_id,
                    packet_id: frame.packet_id,
                    chunks,
                    received: 0,
                    held: 0,
                    total_chunks: frame.total_chunks,
                    last_update_ms: now_ms,
                },
            );
        }
        let ghost open = self@;
        assert(open =~= opened(mid, chunk, now_ms));
        assert(self@[at as int] == self.assemblies@[at as int].model());
        let ghost before = self.assemblies@;
        let mut state: AssemblyState = self.assemblies.remove(at);
        let ghost was = state.model();
        proof {
            lemma_filled_update(was.parts, index as int, frame.payload@);
            lemma_held_update(was.parts, index as int, frame.payload@);
            lemma_filled_bound(was.parts.update(index as int, Some(frame.payload@)));
        }
        if state.chunks[index].is_none() {
            state.received = state.received + 1;
        }
        state.held = state.held - chunk_len(&state.chunks[index]) + frame.payload.len();
        state.chunks[index] = Some(frame.payload);
        state.last_update_ms = now_ms;
        proof {
            assert(state.model() =~= with_chunk(was, chunk, now_ms));
            assert forall|k: int| 0 <= k < self.assemblies@.len() implies (
            #[trigger] self.assemblies@[k]).wf() by {
                if k < at {
                    assert(self.assemblies@[k] == before[k]);
                } else {
                    assert(self.assemblies@[k] == before[k + 1]);
                }
            }
            assert(self@ =~= open.remove(at as int));
        }
        if state.received == state.total_chunks as usize {
            let packet: Option<Vec<u8>> = join_chunks(&state.chunks, state.total_chunks);
            proof {
                let a = with_chunk(was, chunk, now_ms);
                lemma_joined_len(a.parts, a.total);
                lemma_front_is_less(a.parts, a.total);
            }
            return packet;
        }
        let ghost left = self.assemblies@;
        self.assemblies.insert(at, state);
        proof {
            assert(self@ =~= open.update(at as int, with_chunk(was, chunk, now_ms)));
            assert forall|k: int| 0 <= k < self.assemblies@.len() implies (
            #[trigger] self.assemblies@[k]).wf() by {
                if k < at {
                    assert(self.assemblies@[k] == left[k]);
                } else if k > at {
                    assert(self.assemblies@[k] == left[k - 1]);
                }
            }
        }
        None
    }

    /// The number of packets under reassembly.
    pub fn len(&self) -> (n: usize)
        ensures
            n == self@.len(),
    {
        self.assemblies.len()
    }

    /// Whether no packet is under reassembly.
    pub fn is_empty(&self) -> (b: bool)
        ensures
            b == (self@.len() == 0),
    {
        self.assemblies.len() == 0
    }

    /// Drop the assemblies that are dead at `now_ms` and report the missing chunks of those
    /// that are merely silent.
    pub fn get_nacks_and_evict(&mut self, now_ms: u64) -> (n: Vec<([u8; 16], u32, Vec<u16>)>)
        requires
            old(self).wf(),
        ensures
            final(self).wf(),
            final(self)@ == alive(old(self)@, now_ms),
            nack_views(n@) == nacks(old(self)@, now_ms),
    {
        let mut out: Vec<([u8; 16], u32, Vec<u16>)> = Vec::new();
        let ghost start = self@;
        let total: usize = self.assemblies.len();
        let mut i: usize = 0;
        let mut seen: usize = 0;
        assert(start.take(0) =~= Seq::<Assembly>::empty());
        assert(self@ =~= alive(start.take(0), now_ms) + start.skip(0));
        assert(nack_views(out@) =~= nacks(start.take(0), now_ms));
        while seen < total
            invariant
                seen <= total,
                total == start.len(),
                self.wf(),
                i == alive(start.take(seen as int), now_ms).len(),
                self@ == alive(start.take(seen as int), now_ms) + start.skip(seen as int),
                nack_views(out@) == nacks(start.take(seen as int), now_ms),
            decreases total - seen,
        {
            let ghost a = start[seen as int];
            let ghost next = start.take(seen + 1);
            let ghost kept = alive(start.take(seen as int), now_ms);
            let ghost before = self.assemblies@;
            let ghost said = out@;
            proof {
                assert(next.drop_last() =~= start.take(seen as int));
                assert(next.last() == a);
                assert(self@.len() == self.assemblies@.len());
                assert(self@.len() == kept.len() + start.skip(seen as int).len());
                assert(self@[i as int] == a);
                assert(self@[i as int] == self.assemblies@[i as int].model());
            }
            let state: &AssemblyState = &self.assemblies[i];
            let elapsed: u64 = now_ms.saturating_sub(state.last_update_ms);
            if elapsed > DEAD_AFTER_MS {
                let ghost was = self@;
                let _dead: AssemblyState = self.assemblies.remove(i);
                proof {
                    assert(self@ =~= was.remove(i as int));
                    assert(self@ =~= kept + start.skip(seen + 1));
                    assert forall|k: int| 0 <= k < self.assemblies@.len() implies (
                    #[trigger] self.assemblies@[k]).wf() by {
                        if k < i {
                            assert(self.assemblies@[k] == before[k]);
                        } else {
                            assert(self.assemblies@[k] == before[k + 1]);
                        }
                    }
                }
            } else {
                if elapsed > NACK_AFTER_MS {
                    let mut lost: Vec<u16> = Vec::new();
                    let mut k: u16 = 0;
                    while k < state.total_chunks
                        invariant
                            k <= state.total_chunks <= state.chunks@.len(),
                            lost@ == missing(parts_of(state.chunks@), k as nat),
                        decreases state.total_chunks - k,
                    {
                        if state.chunks[k as usize].is_none() {
                            lost.push(k);
                        }
                        k += 1;
                    }
                    if lost.len() > 0 {
                        out.push((state.session_id, state.packet_id, lost));
                        assert(nack_views(out@) =~= nack_views(said).push(
                            (a.session, a.packet, missing(a.parts, a.total)),
                        ));
                    }
                }
                proof {
                    assert(self@ =~= kept.push(a) + start.skip(seen + 1));
                }
                i += 1;
            }
            seen += 1;
        }
        proof {
            assert(start.take(seen as int) =~= start);
            assert(self@ =~= alive(start, now_ms));
        }
        out
    }
}

proof fn lemma_absent_after_remove(t: Seq<Assembly>, session: Seq<u8>, packet: u32, i: int)
    requires
        0 <= i < t.len(),
        place_of(t, session, packet) == t.len(),
    ensures
        place_of(t.remove(i), session, packet) == t.len() - 1,
{
    lemma_absent(t, session, packet);
    let u = t.remove(i);
    assert forall|k: int| 0 <= k < u.len() implies !((#[trigger] u[k]).session == session
        && u[k].packet == packet) by {
        if k < i {
            assert(u[k] == t[k]);
        } else {
            assert(u[k] == t[k + 1]);
        }
    }
    lemma_place_of(u, session, packet, u.len() as int);
}

proof fn lemma_absent(t: Seq<Assembly>, session: Seq<u8>, packet: u32)
    requires
        place_of(t, session, packet) == t.len(),
    ensures
        forall|k: int|
            0 <= k < t.len() ==> !((#[trigger] t[k]).session == session && t[k].packet == packet),
    decreases t.len(),
{
    if t.len() > 0 {
        lemma_absent(t.skip(1), session, packet);
        assert forall|k: int| 0 <= k < t.len() implies !((#[trigger] t[k]).session == session
            && t[k].packet == packet) by {
            if k > 0 {
                assert(t.skip(1)[k - 1] == t[k]);
            }
        }
    }
}

/// A payload cut into pieces of `size` bytes; only the last may be shorter.
pub open spec fn pieces(payload: Seq<u8>, size: nat) -> Seq<Seq<u8>>
    decreases payload.len(),
{
    if payload.len() == 0 || size == 0 {
        Seq::empty()
    } else if payload.len() <= size {
        seq![payload]
    } else {
        seq![payload.take(size as int)] + pieces(payload.skip(size as int), size)
    }
}

/// Chunks one after another.
pub open spec fn concat(chunks: Seq<Seq<u8>>) -> Seq<u8>
    decreases chunks.len(),
{
    if chunks.len() == 0 {
        Seq::empty()
    } else {
        concat(chunks.drop_last()) + chunks.last()
    }
}

proof fn lemma_concat_front(chunk: Seq<u8>, chunks: Seq<Seq<u8>>)
    ensures
        concat(seq![chunk] + chunks) == chunk + concat(chunks),
    decreases chunks.len(),
{
    let all = seq![chunk] + chunks;
    if chunks.len() == 0 {
        assert(all.drop_last() =~= Seq::<Seq<u8>>::empty());
        assert(concat(Seq::<Seq<u8>>::empty()) =~= Seq::<u8>::empty());
        assert(concat(all) =~= chunk + concat(chunks));
    } else {
        lemma_concat_front(chunk, chunks.drop_last());
        assert(all.drop_last() =~= seq![chunk] + chunks.drop_last());
        assert(concat(all) =~= chunk + concat(chunks));
    }
}

/// The pieces of a payload make up the payload, and none is longer than the cut.
pub proof fn law_pieces_make_up_the_payload(payload: Seq<u8>, size: nat)
    requires
        size > 0,
    ensures
        concat(pieces(payload, size)) == payload,
        forall|i: int|
            0 <= i < pieces(payload, size).len() ==> 0 < (#[trigger] pieces(payload, size)[i]).len()
                <= size,
    decreases payload.len(),
{
    let p = pieces(payload, size);
    if payload.len() == 0 {
        assert(concat(p) =~= payload);
    } else if payload.len() <= size {
        lemma_concat_front(payload, Seq::empty());
        assert(seq![payload] + Seq::<Seq<u8>>::empty() =~= p);
        assert(concat(Seq::<Seq<u8>>::empty()) =~= Seq::<u8>::empty());
        assert(concat(p) =~= payload);
    } else {
        let rest = payload.skip(size as int);
        law_pieces_make_up_the_payload(rest, size);
        lemma_concat_front(payload.take(size as int), pieces(rest, size));
        assert(payload.take(size as int) + rest =~= payload);
        assert forall|i: int| 0 <= i < p.len() implies 0 < (#[trigger] p[i]).len() <= size by {
            if i > 0 {
                assert(p[i] == pieces(rest, size)[i - 1]);
            }
        }
    }
}

/// How many pieces there are.
pub proof fn lemma_piece_count(payload: Seq<u8>, size: nat)
    requires
        size > 0,
    ensures
        payload.len() > 0 ==> size * (pieces(payload, size).len() - 1) < payload.len(),
        payload.len() <= size * pieces(payload, size).len(),
    decreases payload.len(),
{
    if payload.len() > size {
        let rest = payload.skip(size as int);
        lemma_piece_count(rest, size);
        let n = pieces(rest, size).len() as int;
        assert(size * (n + 1) == size * n + size) by (nonlinear_arith);
        assert(size * (n - 1) + size == size * n) by (nonlinear_arith);
    } else if payload.len() > 0 {
        assert(pieces(payload, size).len() == 1);
        assert(size * 1 == size && size * 0 == 0) by (nonlinear_arith);
    } else {
        assert(size * 0 == 0) by (nonlinear_arith);
    }
}

/// Cut a payload into pieces.
pub fn cut(payload: &[u8], size: usize) -> (out: Vec<Vec<u8>>)
    requires
        size > 0,
    ensures
        out@.len() == pieces(payload@, size as nat).len(),
        forall|i: int| 0 <= i < out@.len() ==> (#[trigger] out@[i])@ == pieces(payload@, size as nat)[i],
{
    let mut out: Vec<Vec<u8>> = Vec::new();
    let mut at: usize = 0;
    let ghost all = pieces(payload@, size as nat);
    assert(payload@.skip(0) =~= payload@);
    while at < payload.len()
        invariant
            at <= payload@.len(),
            size > 0,
            out@.len() + pieces(payload@.skip(at as int), size as nat).len() == all.len(),
            forall|i: int| 0 <= i < out@.len() ==> (#[trigger] out@[i])@ == all[i],
            forall|i: int|
                out@.len() <= i < all.len() ==> #[trigger] all[i] == pieces(
                    payload@.skip(at as int),
                    size as nat,
                )[i - out@.len()],
        decreases payload@.len() - at,
    {
        let ghost rest = payload@.skip(at as int);
        let ghost done = out@.len() as int;
        let to: usize = if payload.len() - at > size {
            at + size
        } else {
            payload.len()
        };
        out.push(copy_bytes(vstd::slice::slice_subrange(payload, at, to)));
        proof {
            let rest2 = payload@.skip(to as int);
            let p = pieces(rest, size as nat);
            assert(rest.len() > 0);
            if rest.len() <= size {
                assert(out@[done]@ =~= rest);
                assert(p =~= seq![rest]);
            } else {
                assert(out@[done]@ =~= rest.take(size as int));
                assert(rest.skip(size as int) =~= rest2);
                assert(p =~= seq![rest.take(size as int)] + pieces(rest2, size as nat));
            }
            assert(all[done] == p[0]);
            assert forall|i: int| done + 1 <= i < all.len() implies #[trigger] all[i] == pieces(
                rest2,
                size as nat,
            )[i - (done + 1)] by {
                assert(all[i] == p[i - done]);
            }
        }
        at = to;
    }
    out
}

/// Split a payload into frames of at most `MAX_UDP_PAYLOAD` bytes. Counts above what their
/// fields hold wrap.
pub fn fragment_payload(session_id: [u8; 16], packet_id: u32, payload: &[u8]) -> (frames: Vec<
    CryptoFrame,
>)
    ensures
        frames@.len() == pieces(payload@, MAX_UDP_PAYLOAD as nat).len(),
        forall|i: int| 0 <= i < frames@.len() ==> {
            let f = #[trigger] frames@[i];
            &&& f.session_id == session_id
            &&& f.packet_id == packet_id
            &&& f.chunk_index == i % 65536
            &&& f.total_chunks == frames@.len() % 65536
            &&& f.payload@ == pieces(payload@, MAX_UDP_PAYLOAD as nat)[i]
        },
{
    let chunks: Vec<Vec<u8>> = cut(payload, MAX_UDP_PAYLOAD);
    let count: usize = chunks.len();
    let total_chunks: u16 = (count % 65536) as u16;
    let ghost all = pieces(payload@, MAX_UDP_PAYLOAD as nat);
    let mut frames: Vec<CryptoFrame> = Vec::new();
    let mut i: usize = 0;
    while i < count
        invariant
            i <= count,
            i == frames@.len(),
            count == chunks@.len(),
            total_chunks == count % 65536,
            forall|k: int| 0 <= k < chunks@.len() ==> (#[trigger] chunks@[k])@ == all[k],
            forall|k: int| 0 <= k < frames@.len() ==> {
                let f = #[trigger] frames@[k];
                &&& f.session_id == session_id
                &&& f.packet_id == packet_id
                &&& f.chunk_index == k % 65536
                &&& f.total_chunks == count % 65536
                &&& f.payload@ == all[k]
            },
        decreases count - i,
    {
        frames.push(
            CryptoFrame {
                session_id,
                packet_id,
                chunk_index: (i % 65536) as u16,
                total_chunks,
                payload: copy_bytes(chunks[i].as_slice()),
            },
        );
        i += 1;
    }
    frames
}

/// The frame of chunk `i` of a packet.
pub open spec fn chunk_of(session: Seq<u8>, packet: u32, chunks: Seq<Seq<u8>>, i: int) -> Chunk {
    Chunk { session, packet, index: i as nat, total: chunks.len(), payload: chunks[i] }
}

proof fn lemma_all_filled(parts: Seq<Option<Seq<u8>>>, n: nat)
    requires
        n <= parts.len(),
        forall|i: int| n <= i < parts.len() ==> #[trigger] parts[i] is None,
    ensures
        filled(parts) <= n,
        filled(parts) == n <==> forall|i: int| 0 <= i < n ==> #[trigger] parts[i] is Some,
    decreases parts.len(),
{
    if parts.len() > 0 {
        let front = parts.drop_last();
        if n == parts.len() {
            lemma_all_filled(front, (n - 1) as nat);
            lemma_filled_bound(front);
            if filled(parts) == n {
                assert forall|i: int| 0 <= i < n implies #[trigger] parts[i] is Some by {
                    if i < n - 1 {
                        assert(front[i] is Some);
                    }
                }
            }
            if forall|i: int| 0 <= i < n ==> #[trigger] parts[i] is Some {
                assert forall|i: int| 0 <= i < n - 1 implies #[trigger] front[i] is Some by {
                    assert(parts[i] is Some);
                }
                assert(parts[n - 1] is Some);
            }
        } else {
            lemma_all_filled(front, n);
            assert(parts[parts.len() - 1] is None);
            if filled(parts) == n {
                assert forall|i: int| 0 <= i < n implies #[trigger] parts[i] is Some by {
                    assert(front[i] is Some);
                }
            }
            if forall|i: int| 0 <= i < n ==> #[trigger] parts[i] is Some {
                assert forall|i: int| 0 <= i < n implies #[trigger] front[i] is Some by {
                    assert(parts[i] is Some);
                }
            }
        }
    }
}

proof fn lemma_joined_chunks(parts: Seq<Option<Seq<u8>>>, chunks: Seq<Seq<u8>>, n: nat)
    requires
        n <= chunks.len(),
        n <= parts.len(),
        forall|i: int| 0 <= i < n ==> #[trigger] parts[i] == Some(chunks[i]),
    ensures
        joined(parts, n) == Some(concat(chunks.take(n as int))),
    decreases n,
{
    if n > 0 {
        lemma_joined_chunks(parts, chunks, (n - 1) as nat);
        assert(chunks.take(n as int).drop_last() =~= chunks.take(n - 1));
        assert(parts[n - 1] == Some(chunks[n - 1]));
    }
}

/// The frames of the chunks of a packet in the order `order`.
pub open spec fn frames_of(
    session: Seq<u8>,
    packet: u32,
    chunks: Seq<Seq<u8>>,
    order: Seq<int>,
) -> Seq<Chunk> {
    Seq::new(order.len(), |k: int| chunk_of(session, packet, chunks, order[k]))
}

/// Whether a table goes through `tables` when `frames` come, one after another, at `times`,
/// and hands out `outs`.
pub open spec fn run(
    tables: Seq<Seq<Assembly>>,
    frames: Seq<Chunk>,
    times: Seq<u64>,
    outs: Seq<Option<Seq<u8>>>,
) -> bool {
    &&& tables.len() == frames.len() + 1
    &&& times.len() == frames.len()
    &&& outs.len() == frames.len()
    &&& forall|k: int|
        0 <= k < frames.len() ==> processed(
            tables[k],
            frames[k],
            times[k],
            tables[k + 1],
            #[trigger] outs[k],
        )
}

/// Whether every index below `n` stands in `order`.
pub open spec fn complete(order: Seq<int>, n: nat) -> bool {
    forall|i: int| 0 <= i < n ==> #[trigger] order.contains(i)
}

/// The assembly of a packet of which the chunks of `order` came, the last one at `last_ms`.
pub open spec fn partial(
    session: Seq<u8>,
    packet: u32,
    chunks: Seq<Seq<u8>>,
    order: Seq<int>,
    last_ms: u64,
) -> Assembly {
    Assembly {
        session,
        packet,
        total: chunks.len(),
        parts: Seq::new(
            MAX_TOTAL_CHUNKS as nat,
            |i: int|
                if order.contains(i) {
                    Some(chunks[i])
                } else {
                    None
                },
        ),
        last_ms,
    }
}

proof fn lemma_place_at_end(t: Seq<Assembly>, a: Assembly)
    requires
        place_of(t, a.session, a.packet) == t.len(),
    ensures
        place_of(t.push(a), a.session, a.packet) == t.len(),
{
    lemma_absent(t, a.session, a.packet);
    lemma_place_of(t.push(a), a.session, a.packet, t.len() as int);
}

proof fn lemma_one_more(
    t: Seq<Assembly>,
    session: Seq<u8>,
    packet: u32,
    chunks: Seq<Seq<u8>>,
    order: Seq<int>,
    last_ms: u64,
    now_ms: u64,
)
    requires
        place_of(t, session, packet) == t.len(),
        0 < chunks.len() <= MAX_TOTAL_CHUNKS,
        order.len() > 0,
        forall|k: int| 0 <= k < order.len() ==> 0 <= #[trigger] order[k] < chunks.len(),
    ensures
        ({
            let before = if order.len() == 1 {
                t
            } else {
                t.push(partial(session, packet, chunks, order.drop_last(), last_ms))
            };
            &&& stored(before, chunk_of(session, packet, chunks, order.last()), now_ms) == (
                if complete(order, chunks.len()) {
                    (t, Some(concat(chunks)))
                } else {
                    (t.push(partial(session, packet, chunks, order, now_ms)), None)
                }
            )
            &&& place_of(before, session, packet) == t.len()
        }),
{
    let front = order.drop_last();
    let f = chunk_of(session, packet, chunks, order.last());
    let held = partial(session, packet, chunks, front, last_ms);
    let before = if order.len() == 1 {
        t
    } else {
        t.push(held)
    };
    let at = t.len() as int;
    if order.len() > 1 {
        lemma_place_at_end(t, held);
    }
    let open = opened(before, f, now_ms);
    let a = with_chunk(open[at], f, now_ms);
    let want = partial(session, packet, chunks, order, now_ms);
    assert(order =~= front.push(order.last()));
    assert forall|i: int| 0 <= i < MAX_TOTAL_CHUNKS implies a.parts[i] == want.parts[i] by {
        if front.contains(i) {
            let k = choose|k: int| 0 <= k < front.len() && front[k] == i;
            assert(order[k] == i);
        }
        if order.contains(i) && i != order.last() {
            let k = choose|k: int| 0 <= k < order.len() && order[k] == i;
            assert(front[k] == i);
        }
        assert(order.contains(order.last()));
    }
    assert(a.parts =~= want.parts);
    assert(a =~= want);
    assert forall|i: int| a.total <= i < a.parts.len() implies #[trigger] a.parts[i] is None by {
        if order.contains(i) {
            let k = choose|k: int| 0 <= k < order.len() && order[k] == i;
            assert(order[k] < chunks.len());
        }
    }
    lemma_all_filled(a.parts, a.total);
    if complete(order, chunks.len()) {
        assert forall|i: int| 0 <= i < a.total implies #[trigger] a.parts[i] == Some(
            chunks[i],
        ) by {
            assert(order.contains(i));
        }
        lemma_joined_chunks(a.parts, chunks, chunks.len());
        assert(chunks.take(chunks.len() as int) =~= chunks);
        assert(open.remove(at) =~= t);
    } else {
        let i = choose|i: int| 0 <= i < chunks.len() && !(#[trigger] order.contains(i));
        assert(a.parts[i] is None);
        assert(open.update(at, a) =~= t.push(want));
    }
}

/// The chunks that are there hold no more bytes than all chunks.
proof fn lemma_held_of_some(parts: Seq<Option<Seq<u8>>>, chunks: Seq<Seq<u8>>)
    requires
        chunks.len() <= parts.len(),
        forall|i: int|
            0 <= i < parts.len() ==> (#[trigger] parts[i] is Some ==> i < chunks.len() && parts[i]
                == Some(chunks[i])),
    ensures
        held(parts) <= concat(chunks).len(),
    decreases parts.len(),
{
    if parts.len() > 0 {
        let front = parts.drop_last();
        assert(parts[parts.len() - 1] == parts.last());
        if chunks.len() == parts.len() {
            lemma_held_of_some(front, chunks.drop_last());
        } else {
            lemma_held_of_some(front, chunks);
        }
    }
}

proof fn lemma_run(
    tables: Seq<Seq<Assembly>>,
    session: Seq<u8>,
    packet: u32,
    chunks: Seq<Seq<u8>>,
    order: Seq<int>,
    times: Seq<u64>,
    outs: Seq<Option<Seq<u8>>>,
    mid: Seq<Assembly>,
    n: int,
)
    requires
        0 < chunks.len() <= MAX_TOTAL_CHUNKS,
        forall|i: int| 0 <= i < chunks.len() ==> (#[trigger] chunks[i]).len() <= MAX_UDP_PAYLOAD,
        concat(chunks).len() <= MAX_REASSEMBLED_LEN,
        forall|k: int| 0 <= k < order.len() ==> 0 <= #[trigger] order[k] < chunks.len(),
        run(tables, frames_of(session, packet, chunks, order), times, outs),
        1 <= n <= order.len(),
        place_of(mid, session, packet) == mid.len(),
        tables[1] == stored(mid, chunk_of(session, packet, chunks, order[0]), times[0]).0,
        outs[0] == stored(mid, chunk_of(session, packet, chunks, order[0]), times[0]).1,
        !complete(order.take(n - 1), chunks.len()),
    ensures
        complete(order.take(n), chunks.len()) ==> tables[n] == mid && outs[n - 1] == Some(
            concat(chunks),
        ),
        !complete(order.take(n), chunks.len()) ==> tables[n] == mid.push(
            partial(session, packet, chunks, order.take(n), times[n - 1]),
        ) && outs[n - 1] is None,
        forall|k: int| 0 <= k < n - 1 ==> #[trigger] outs[k] is None,
    decreases n,
{
    let so_far = order.take(n);
    let front = order.take(n - 1);
    assert(so_far.drop_last() =~= front);
    assert(so_far.last() == order[n - 1]);
    assert forall|k: int| 0 <= k < so_far.len() implies 0 <= #[trigger] so_far[k]
        < chunks.len() by {
        assert(so_far[k] == order[k]);
    }
    if n == 1 {
        lemma_one_more(mid, session, packet, chunks, so_far, times[0], times[0]);
    } else {
        let earlier = order.take(n - 2);
        if complete(earlier, chunks.len()) {
            assert forall|i: int| 0 <= i < chunks.len() implies #[trigger] front.contains(i) by {
                assert(earlier.contains(i));
                let k = choose|k: int| 0 <= k < earlier.len() && earlier[k] == i;
                assert(front[k] == i);
            }
        }
        lemma_run(tables, session, packet, chunks, order, times, outs, mid, n - 1);
        lemma_one_more(mid, session, packet, chunks, so_far, times[n - 2], times[n - 1]);
        let t = tables[n - 1];
        let f = chunk_of(session, packet, chunks, order[n - 1]);
        let had = partial(session, packet, chunks, front, times[n - 2]);
        assert(t == mid.push(had));
        assert(frames_of(session, packet, chunks, order)[n - 1] == f);
        assert(processed(t, f, times[n - 1], tables[n], outs[n - 1]));
        assert(chunks[order[n - 1]].len() <= MAX_UDP_PAYLOAD);
        assert(acceptable(f));
        let parts = had.parts.update(f.index as int, Some(f.payload));
        assert forall|i: int| 0 <= i < parts.len() && #[trigger] parts[i] is Some implies i
            < chunks.len() && parts[i] == Some(chunks[i]) by {
            if i != order[n - 1] {
                let k = choose|k: int| 0 <= k < front.len() && front[k] == i;
                assert(front[k] == order[k]);
            }
        }
        lemma_held_of_some(parts, chunks);
        assert(fits(t, f));
        assert(forall|m: Seq<Assembly>| #[trigger] made_room(t, m, f) ==> m == t);
    }
}

/// The chunks of a packet of at most `MAX_REASSEMBLED_LEN` bytes may come in any order, and
/// more than once: a table without an assembly of the packet hands out nothing before the
/// chunk that was missing last, and with it the whole packet. It is then as it was before the
/// first chunk, but for the assembly that made room where it was full.
pub proof fn law_chunks_come_back_in_any_order(
    tables: Seq<Seq<Assembly>>,
    session: Seq<u8>,
    packet: u32,
    chunks: Seq<Seq<u8>>,
    order: Seq<int>,
    times: Seq<u64>,
    outs: Seq<Option<Seq<u8>>>,
)
    requires
        0 < chunks.len() <= MAX_TOTAL_CHUNKS,
        forall|i: int| 0 <= i < chunks.len() ==> (#[trigger] chunks[i]).len() <= MAX_UDP_PAYLOAD,
        concat(chunks).len() <= MAX_REASSEMBLED_LEN,
        order.len() > 0,
        forall|k: int| 0 <= k < order.len() ==> 0 <= #[trigger] order[k] < chunks.len(),
        !complete(order.drop_last(), chunks.len()),
        run(tables, frames_of(session, packet, chunks, order), times, outs),
        place_of(tables[0], session, packet) == tables[0].len(),
    ensures
        forall|k: int| 0 <= k < order.len() - 1 ==> #[trigger] outs[k] is None,
        !complete(order, chunks.len()) ==> outs.last() is None,
        complete(order, chunks.len()) ==> outs.last() == Some(concat(chunks)) && made_room(
            tables[0],
            tables.last(),
            chunk_of(session, packet, chunks, order[0]),
        ),
{
    let t = tables[0];
    let f = chunk_of(session, packet, chunks, order[0]);
    assert(frames_of(session, packet, chunks, order)[0] == f);
    assert(processed(t, f, times[0], tables[1], outs[0]));
    assert(chunks[order[0]].len() <= MAX_UDP_PAYLOAD);
    assert(acceptable(f) && fits(t, f));
    let mid = choose|mid: Seq<Assembly>| #[trigger]
        made_room(t, mid, f) && tables[1] == stored(mid, f, times[0]).0 && outs[0] == stored(
            mid,
            f,
            times[0],
        ).1;
    if t.len() >= MAX_CONCURRENT_ASSEMBLIES {
        let i = choose|i: int| #[trigger] stalest(t, i) && mid == t.remove(i);
        lemma_absent_after_remove(t, session, packet, i);
    }
    let n = order.len() as int;
    assert(order.take(n - 1) =~= order.drop_last());
    assert(order.take(n) =~= order);
    lemma_run(tables, session, packet, chunks, order, times, outs, mid, n);
}

/// Which frames are taken in: those of a packet of 1 to 219 chunks, with an index among them and at most
/// 1200 bytes. No packet above 262144 bytes is assembled.
pub proof fn law_frames_are_bounded(t: Seq<Assembly>, f: Chunk)
    ensures
        acceptable(f) <==> 1 <= f.total <= 219 && f.index < f.total && f.payload.len() <= 1200,
        place_of(t, f.session, f.packet) < t.len() ==> (fits(t, f) <==> held(
            t[place_of(t, f.session, f.packet)].parts.update(f.index as int, Some(f.payload)),
        ) <= 262_144),
{
}

/// Which assembly leaves a full table for a new packet: one that no other was updated before. Room is made
/// only where 256 assemblies are tracked and the frame opens another; else the table stays.
pub proof fn law_stalest_makes_room(t: Seq<Assembly>, mid: Seq<Assembly>, f: Chunk)
    requires
        made_room(t, mid, f),
    ensures
        place_of(t, f.session, f.packet) < t.len() || t.len() < 256 ==> mid == t,
        place_of(t, f.session, f.packet) == t.len() && t.len() >= 256 ==> exists|i: int|
            0 <= i < t.len() && mid == #[trigger] t.remove(i) && forall|k: int|
                0 <= k < t.len() ==> t[i].last_ms <= (#[trigger] t[k]).last_ms,
{
    if place_of(t, f.session, f.packet) == t.len() && t.len() >= 256 {
        let i = choose|i: int| #[trigger] stalest(t, i) && mid == t.remove(i);
        assert(mid == t.remove(i));
    }
}

proof fn lemma_alive_holds(t: Seq<Assembly>, now_ms: u64, a: Assembly)
    ensures
        alive(t, now_ms).contains(a) <==> t.contains(a) && now_ms <= a.last_ms + 5000,
    decreases t.len(),
{
    if t.len() > 0 {
        let front = t.drop_last();
        lemma_alive_holds(front, now_ms, a);
        let kept = alive(front, now_ms);
        let all = alive(t, now_ms);
        if front.contains(a) {
            let i = choose|i: int| 0 <= i < front.len() && front[i] == a;
            assert(t[i] == a);
        }
        if t.contains(a) && !front.contains(a) {
            let i = choose|i: int| 0 <= i < t.len() && t[i] == a;
            if i < front.len() {
                assert(front[i] == a);
            }
        }
        assert(t[t.len() - 1] == t.last());
        if kept.contains(a) {
            let i = choose|i: int| 0 <= i < kept.len() && kept[i] == a;
            assert(all[i] == a);
        }
        if silent_for(now_ms, t.last().last_ms) <= DEAD_AFTER_MS {
            assert(all[kept.len() as int] == t.last());
            if all.contains(a) && !kept.contains(a) {
                let i = choose|i: int| 0 <= i < all.len() && all[i] == a;
                if i < kept.len() {
                    assert(kept[i] == a);
                }
            }
        }
    }
}

/// How long an assembly is waited for: it is kept for five seconds after its last chunk, and dropped after
/// that; in between, from 50 milliseconds on, its missing chunks are reported.
pub proof fn law_silence_decides(t: Seq<Assembly>, now_ms: u64, i: int)
    requires
        0 <= i < t.len(),
    ensures
        now_ms <= t[i].last_ms + 5000 ==> alive(t, now_ms).contains(t[i]),
        now_ms > t[i].last_ms + 5000 ==> !alive(t, now_ms).contains(t[i]),
        t[i].last_ms + 50 < now_ms <= t[i].last_ms + 5000 && missing(t[i].parts, t[i].total).len() > 0
            ==> nacks(t, now_ms).contains(
            (t[i].session, t[i].packet, missing(t[i].parts, t[i].total)),
        ),
{
    lemma_alive_holds(t, now_ms, t[i]);
    assert(t.contains(t[i]));
    if t[i].last_ms + 50 < now_ms <= t[i].last_ms + 5000 && missing(t[i].parts, t[i].total).len() > 0 {
        lemma_reported(t, now_ms, i);
    }
}

/// Nothing else is reported: each report is of an assembly that is silent for more than 50 milliseconds, and
/// lists exactly what it lacks.
pub proof fn law_reports_are_of_silent_assemblies(t: Seq<Assembly>, now_ms: u64, k: int)
    requires
        0 <= k < nacks(t, now_ms).len(),
    ensures
        exists|i: int|
            0 <= i < t.len() && nacks(t, now_ms)[k] == (
                (#[trigger] t[i]).session,
                t[i].packet,
                missing(t[i].parts, t[i].total),
            ) && t[i].last_ms + 50 < now_ms <= t[i].last_ms + 5000,
    decreases t.len(),
{
    if t.len() > 0 {
        let front = t.drop_last();
        if k < nacks(front, now_ms).len() {
            law_reports_are_of_silent_assemblies(front, now_ms, k);
            let i = choose|i: int|
                0 <= i < front.len() && nacks(front, now_ms)[k] == (
                    (#[trigger] front[i]).session,
                    front[i].packet,
                    missing(front[i].parts, front[i].total),
                ) && front[i].last_ms + 50 < now_ms <= front[i].last_ms + 5000;
            assert(t[i] == front[i]);
        } else {
            assert(t[t.len() - 1] == t.last());
        }
    }
}

/// How a payload is cut: all pieces but the last are of the given size.
pub proof fn law_pieces_are_full(payload: Seq<u8>, size: nat, i: int)
    requires
        size > 0,
        0 <= i < pieces(payload, size).len() - 1,
    ensures
        pieces(payload, size)[i].len() == size,
    decreases payload.len(),
{
    if payload.len() > size {
        let rest = payload.skip(size as int);
        if i > 0 {
            law_pieces_are_full(rest, size, i - 1);
            assert(pieces(payload, size)[i] == pieces(rest, size)[i - 1]);
        }
    }
}

/// What a chunk does to an assembly: it takes its place among the chunks, in place of an earlier one of the
/// same index, the assembly counts as updated then, and nothing else of it changes.
pub proof fn law_chunk_takes_its_place(a: Assembly, f: Chunk, now_ms: u64, k: int)
    requires
        f.index < a.parts.len(),
        0 <= k < a.parts.len(),
    ensures
        with_chunk(a, f, now_ms).parts[f.index as int] == Some(f.payload),
        k != f.index ==> with_chunk(a, f, now_ms).parts[k] == a.parts[k],
        with_chunk(a, f, now_ms).last_ms == now_ms,
        with_chunk(a, f, now_ms).total == a.total,
        with_chunk(a, f, now_ms).session == a.session,
        with_chunk(a, f, now_ms).packet == a.packet,
{
}

/// A chunk that is refused changes nothing: one of no chunks or more than 219, one whose index is out of range, one
/// of more than 1200 bytes, and one that takes its packet above 256 KiB.
pub proof fn law_refused_chunk_changes_nothing(
    t: Seq<Assembly>,
    f: Chunk,
    now_ms: u64,
    after: Seq<Assembly>,
    out: Option<Seq<u8>>,
)
    requires
        processed(t, f, now_ms, after, out),
        f.total == 0 || f.total > 219 || f.index >= f.total || f.payload.len() > 1200 || !fits(t, f),
    ensures
        after == t,
        out is None,
{
}

/// What is missing of a packet: exactly the indices below its count that no chunk came for, in ascending order.
pub proof fn law_missing_is_exact(parts: Seq<Option<Seq<u8>>>, n: nat, i: int)
    requires
        n <= parts.len(),
        n <= 65_535,
        0 <= i < n,
    ensures
        missing(parts, n).contains(i as u16) <==> parts[i] is None,
        forall|a: int, b: int|
            0 <= a < b < missing(parts, n).len() ==> #[trigger] missing(parts, n)[a]
                < #[trigger] missing(parts, n)[b],
        forall|a: int| 0 <= a < missing(parts, n).len() ==> (#[trigger] missing(parts, n)[a]) < n,
    decreases n,
{
    lemma_missing_below(parts, n);
    lemma_missing_ascends(parts, n);
    let front = missing(parts, (n - 1) as nat);
    let all = missing(parts, n);
    lemma_missing_below(parts, (n - 1) as nat);
    if i == n - 1 {
        if parts[i] is None {
            assert(all[all.len() - 1] == i as u16);
        } else {
            assert(all == front);
            if all.contains(i as u16) {
                let a = choose|a: int| 0 <= a < all.len() && all[a] == i as u16;
                assert(front[a] < n - 1);
            }
        }
    } else {
        law_missing_is_exact(parts, (n - 1) as nat, i);
        if front.contains(i as u16) {
            let a = choose|a: int| 0 <= a < front.len() && front[a] == i as u16;
            assert(all[a] == i as u16);
        }
        if all.contains(i as u16) {
            let a = choose|a: int| 0 <= a < all.len() && all[a] == i as u16;
            assert(a < front.len());
            assert(front[a] == i as u16);
        }
    }
}

proof fn lemma_missing_below(parts: Seq<Option<Seq<u8>>>, n: nat)
    requires
        n <= 65_535,
    ensures
        forall|a: int| 0 <= a < missing(parts, n).len() ==> (#[trigger] missing(parts, n)[a]) < n,
    decreases n,
{
    if n > 0 {
        lemma_missing_below(parts, (n - 1) as nat);
        let front = missing(parts, (n - 1) as nat);
        assert forall|a: int| 0 <= a < missing(parts, n).len() implies (#[trigger] missing(
            parts,
            n,
        )[a]) < n by {
            if a < front.len() {
                assert(front[a] < n - 1);
            }
        }
    }
}

proof fn lemma_missing_ascends(parts: Seq<Option<Seq<u8>>>, n: nat)
    requires
        n <= 65_535,
    ensures
        forall|a: int, b: int|
            0 <= a < b < missing(parts, n).len() ==> #[trigger] missing(parts, n)[a]
                < #[trigger] missing(parts, n)[b],
    decreases n,
{
    if n > 0 {
        lemma_missing_ascends(parts, (n - 1) as nat);
        lemma_missing_below(parts, (n - 1) as nat);
        let front = missing(parts, (n - 1) as nat);
        assert forall|a: int, b: int| 0 <= a < b < missing(parts, n).len() implies #[trigger] missing(
            parts,
            n,
        )[a] < #[trigger] missing(parts, n)[b] by {
            assert(front[a] < n - 1);
            if b < front.len() {
                assert(front[a] < front[b]);
            }
        }
    }
}

/// How many bytes a packet holds: a chunk that takes its place adds its length, less that of the one it replaces.
pub proof fn law_held_bytes_add_up(parts: Seq<Option<Seq<u8>>>, i: int, payload: Seq<u8>)
    requires
        0 <= i < parts.len(),
    ensures
        parts[i] is None ==> held(parts.update(i, Some(payload))) == held(parts) + payload.len(),
        parts[i] is Some ==> held(parts.update(i, Some(payload))) == held(parts) + payload.len()
            - parts[i]->0.len(),
    decreases parts.len(),
{
    let next = parts.update(i, Some(payload));
    if i == parts.len() - 1 {
        assert(next.drop_last() =~= parts.drop_last());
    } else {
        assert(next.drop_last() =~= parts.drop_last().update(i, Some(payload)));
        law_held_bytes_add_up(parts.drop_last(), i, payload);
    }
}

} // verus!
