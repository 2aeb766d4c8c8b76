//! Batching of small packets into one datagram.
//!
//! A bundle is `[count u16][len u16][payload][len u16][payload]...`, all big-endian. Times
//! are microseconds on a clock of the caller.

use crate::wire::{append, be16, be16_at, lemma_be16_inside, push_u16, read_u16};
use vstd::prelude::*;
use vstd::slice::slice_subrange;

verus! {

/// The largest payload of a datagram.
pub const MAX_ASSEMBLED_DATAGRAM: usize = 65507;

/// A datagram size that common paths carry without fragmenting.
pub const DEFAULT_MAX_DATAGRAM: usize = 1200;

const HEADER_SIZE: usize = 2;

const SUB_HEADER_SIZE: usize = 2;

/// Coalescer tuning.
#[derive(Debug, Clone, Copy)]
pub struct CoalescerConfig {
    /// Largest datagram to emit.
    pub max_datagram_size: usize,
    /// How long a batch may wait before it is flushed, in microseconds.
    pub flush_timeout_us: u64,
    /// Most packets in one datagram.
    pub max_packets: u16,
}

impl Default for CoalescerConfig {
    fn default() -> (c: Self)
        ensures
            c == (CoalescerConfig {
                max_datagram_size: DEFAULT_MAX_DATAGRAM,
                flush_timeout_us: 500,
                max_packets: 256,
            }),
    {
        CoalescerConfig {
            max_datagram_size: DEFAULT_MAX_DATAGRAM,
            flush_timeout_us: 500,
            max_packets: 256,
        }
    }
}

/// The packets of a bundle, each behind its length.
pub open spec fn bundle_body(packets: Seq<Seq<u8>>) -> Seq<u8>
    decreases packets.len(),
{
    if packets.len() == 0 {
        Seq::empty()
    } else {
        bundle_body(packets.drop_last()) + be16(packets.last().len() as int) + packets.last()
    }
}

/// The bundle of `packets`.
pub open spec fn bundle(packets: Seq<Seq<u8>>) -> Seq<u8> {
    be16(packets.len() as int) + bundle_body(packets)
}

/// What flushing a batch hands out: nothing for an empty one.
pub open spec fn flushed(r: Option<Vec<u8>>, packets: Seq<Seq<u8>>) -> bool {
    if packets.len() == 0 {
        r is None
    } else {
        r matches Some(d) && d@ == bundle(packets)
    }
}

/// A batch that is being filled.
#[verifier::ext_equal]
pub struct Batch {
    pub config: CoalescerConfig,
    pub packets: Seq<Seq<u8>>,
    /// When the first packet of the batch came.
    pub started_us: Option<u64>,
}

impl Batch {
    /// Whether a coalescer can hold this batch. It has a start time exactly when it holds a
    /// packet, and it keeps to the datagram size and to the number of packets; only a packet
    /// that is alone in its batch may exceed them.
    pub open spec fn wf(self) -> bool {
        &&& self.started_us is Some <==> self.packets.len() > 0
        &&& bundle(self.packets).len() <= self.config.max_datagram_size || self.packets.len() <= 1
        &&& self.packets.len() <= self.config.max_packets || self.packets.len() <= 1
    }
}

/// Whether a packet of `len` bytes starts a new batch.
pub open spec fn overflows(b: Batch, len: nat) -> bool {
    ||| 2 + bundle_body(b.packets).len() + 2 + len > b.config.max_datagram_size
    ||| b.packets.len() >= b.config.max_packets
}

/// Gathers packets and hands back full datagrams.
pub struct PacketCoalescer {
    config: CoalescerConfig,
    buf: Vec<u8>,
    count: u16,
    batch_start: Option<u64>,
    packets: Ghost<Seq<Seq<u8>>>,
}

impl View for PacketCoalescer {
    type V = Batch;

    closed spec fn view(&self) -> Batch {
        Batch { config: self.config, packets: self.packets@, started_us: self.batch_start }
    }
}

impl PacketCoalescer {
    /// The buffer holds the batch, which is a possible one, behind a blank count.
    #[verifier::type_invariant]
    spec fn inv(&self) -> bool {
        &&& self.buf@ == seq![0u8, 0u8] + bundle_body(self.packets@)
        &&& self.count == self.packets@.len()
        &&& self@.wf()
    }

    /// An empty coalescer.
    pub fn new(config: CoalescerConfig) -> (c: Self)
        ensures
            c@ == (Batch { config, packets: Seq::empty(), started_us: None }),
            c@.wf(),
    {
        let buf: Vec<u8> = vec![0u8, 0u8];
        assert(buf@ =~= seq![0u8, 0u8] + bundle_body(Seq::empty()));
        PacketCoalescer { config, buf, count: 0, batch_start: None, packets: Ghost(Seq::empty()) }
    }

    /// Add a packet at `now_us`. When it does not fit the batch, the batch is handed out and
    /// the packet starts a new one.
    pub fn push(&mut self, data: &[u8], now_us: u64) -> (r: Option<Vec<u8>>)
        ensures
            old(self)@.wf(),
            final(self)@.wf(),
            final(self)@.config == old(self)@.config,
            overflows(old(self)@, data@.len()) ==> {
                &&& flushed(r, old(self)@.packets)
                &&& final(self)@.packets == seq![data@]
                &&& final(self)@.started_us == Some(now_us)
            },
            !overflows(old(self)@, data@.len()) ==> {
                &&& r is None
                &&& final(self)@.packets == old(self)@.packets.push(data@)
                &&& final(self)@.started_us == (if old(self)@.packets.len() == 0 {
                    Some(now_us)
                } else {
                    old(self)@.started_us
                })
            },
    {
        proof {
            use_type_invariant(&*self);
        }
        let needed: u128 = SUB_HEADER_SIZE as u128 + data.len() as u128;
        if self.buf.len() as u128 + needed > self.config.max_datagram_size as u128 || self.count
            >= self.config.max_packets {
            let out: Option<Vec<u8>> = self.flush();
            self.push_inner(data, now_us);
            proof {
                assert(self@.packets =~= seq![data@]);
                use_type_invariant(&*self);
            }
            return out;
        }
        self.push_inner(data, now_us);
        proof {
            use_type_invariant(&*self);
        }
        None
    }

    fn push_inner(&mut self, data: &[u8], now_us: u64)
        requires
            old(self)@.packets.len() == 0 || !overflows(old(self)@, data@.len()),
        ensures
            final(self)@ == (Batch {
                packets: old(self)@.packets.push(data@),
                started_us: if old(self)@.packets.len() == 0 {
                    Some(now_us)
                } else {
                    old(self)@.started_us
                },
                ..old(self)@
            }),
    {
        proof {
            use_type_invariant(&*self);
        }
        let mut held: PacketCoalescer = PacketCoalescer::new(self.config);
        std::mem::swap(&mut held, self);
        proof {
            use_type_invariant(&held);
        }
        let ghost before = held.packets@;
        let mut buf: Vec<u8> = held.buf;
        push_u16(&mut buf, (data.len() % 65536) as u16);
        append(&mut buf, data);
        proof {
            let all = before.push(data@);
            assert(all.drop_last() =~= before);
            assert(be16((data@.len() % 65536) as int) =~= be16(data@.len() as int));
            assert(buf@ =~= seq![0u8, 0u8] + bundle_body(all));
        }
        let batch_start: Option<u64> = match held.batch_start {
            Some(start) => Some(start),
            None => Some(now_us),
        };
        *self = PacketCoalescer {
            config: held.config,
            buf,
            count: held.count + 1,
            batch_start,
            packets: Ghost(before.push(data@)),
        };
    }

    /// Whether the batch has waited out its flush timeout at `now_us`.
    pub fn should_flush(&self, now_us: u64) -> (b: bool)
        ensures
            b == match self@.started_us {
                Some(start) => now_us - start >= self@.config.flush_timeout_us
                    || self@.config.flush_timeout_us == 0,
                None => false,
            },
    {
        proof {
            use_type_invariant(self);
        }
        if self.count == 0 {
            return false;
        }
        match self.batch_start {
            Some(start) => now_us.saturating_sub(start) >= self.config.flush_timeout_us,
            None => false,
        }
    }

    /// Hand out the batch as a datagram and start an empty one. `None` for an empty batch.
    pub fn flush(&mut self) -> (r: Option<Vec<u8>>)
        ensures
            old(self)@.wf(),
            final(self)@.wf(),
            flushed(r, old(self)@.packets),
            final(self)@ == (Batch {
                packets: Seq::empty(),
                started_us: None,
                ..old(self)@
            }),
    {
        proof {
            use_type_invariant(&*self);
        }
        if self.count == 0 {
            assert(self.packets@ =~= Seq::empty());
            return None;
        }
        let count: u16 = self.count;
        let fresh: PacketCoalescer = PacketCoalescer::new(self.config);
        let mut full: PacketCoalescer = fresh;
        std::mem::swap(&mut full, self);
        proof {
            use_type_invariant(&full);
        }
        let mut out: Vec<u8> = full.buf;
        out[0] = (count / 256) as u8;
        out[1] = (count % 256) as u8;
        assert(out@ =~= bundle(old(self)@.packets));
        Some(out)
    }

    /// The packets in the batch.
    pub fn pending_count(&self) -> (n: u16)
        ensures
            n == self@.packets.len(),
            self@.wf(),
    {
        proof {
            use_type_invariant(self);
        }
        self.count
    }

    /// The bytes in the batch, without the count.
    pub fn pending_bytes(&self) -> (n: usize)
        ensures
            n == bundle_body(self@.packets).len(),
            self@.wf(),
    {
        proof {
            use_type_invariant(self);
        }
        self.buf.len() - HEADER_SIZE
    }
}

/// What a decoder still has to read.
#[verifier::ext_equal]
pub struct Unread {
    pub data: Seq<u8>,
    pub offset: int,
    pub remaining: int,
}

/// Whether a whole packet stands at the offset.
pub open spec fn packet_ahead(u: Unread) -> bool {
    &&& u.remaining > 0
    &&& u.offset + 2 <= u.data.len()
    &&& u.offset + 2 + be16_at(u.data, u.offset) <= u.data.len()
}

/// The packet at the offset.
pub open spec fn packet_at(u: Unread) -> Seq<u8> {
    u.data.subrange(u.offset + 2, u.offset + 2 + be16_at(u.data, u.offset))
}

/// What is unread after one step. A packet that is cut short leaves the decoder behind its
/// length.
pub open spec fn advanced(u: Unread) -> Unread {
    if packet_ahead(u) {
        Unread {
            offset: u.offset + 2 + be16_at(u.data, u.offset),
            remaining: u.remaining - 1,
            ..u
        }
    } else if u.remaining > 0 && u.offset + 2 <= u.data.len() {
        Unread { offset: u.offset + 2, ..u }
    } else {
        u
    }
}

/// The packets that stand whole, one behind the other, from the offset on.
pub open spec fn packets_in(u: Unread) -> Seq<Seq<u8>>
    decreases u.remaining,
{
    if packet_ahead(u) {
        seq![packet_at(u)] + packets_in(advanced(u))
    } else {
        Seq::empty()
    }
}

/// A bundle as a decoder starts on it.
pub open spec fn opened(datagram: Seq<u8>) -> Unread {
    Unread { data: datagram, offset: 2, remaining: be16_at(datagram, 0) }
}

/// Reads the packets of a bundle one after the other.
pub struct Decoalescer<'a> {
    data: &'a [u8],
    offset: usize,
    remaining: u16,
}

impl<'a> View for Decoalescer<'a> {
    type V = Unread;

    closed spec fn view(&self) -> Unread {
        Unread {
            data: self.data@,
            offset: self.offset as int,
            remaining: self.remaining as int,
        }
    }
}

impl<'a> Decoalescer<'a> {
    #[verifier::type_invariant]
    spec fn inv(&self) -> bool {
        self.offset <= self.data@.len()
    }

    /// A decoder of a bundle, or `None` when the bundle is shorter than its count.
    pub fn new(datagram: &'a [u8]) -> (d: Option<Self>)
        ensures
            d is Some <==> datagram@.len() >= 2,
            d matches Some(dec) ==> dec@ == opened(datagram@),
    {
        if datagram.len() < HEADER_SIZE {
            return None;
        }
        let remaining: u16 = read_u16(datagram, 0);
        Some(Decoalescer { data: datagram, offset: HEADER_SIZE, remaining })
    }

    /// The packets still to be read.
    pub fn count(&self) -> (n: u16)
        ensures
            n == self@.remaining,
    {
        self.remaining
    }

    /// The next packet, or `None` when none is left or the bundle is cut short.
    pub fn next(&mut self) -> (r: Option<&'a [u8]>)
        ensures
            final(self)@ == advanced(old(self)@),
            packet_ahead(old(self)@) ==> (r matches Some(p) && p@ == packet_at(old(self)@)),
            !packet_ahead(old(self)@) ==> r is None,
    {
        proof {
            use_type_invariant(&*self);
        }
        if self.remaining == 0 {
            return None;
        }
        if self.data.len() - self.offset < SUB_HEADER_SIZE {
            return None;
        }
        let len: usize = read_u16(self.data, self.offset) as usize;
        self.offset = self.offset + SUB_HEADER_SIZE;
        if self.data.len() - self.offset < len {
            return None;
        }
        let packet: &'a [u8] = slice_subrange(self.data, self.offset, self.offset + len);
        self.offset = self.offset + len;
        self.remaining = self.remaining - 1;
        Some(packet)
    }
}

/// Packets in a row, the first one first.
proof fn lemma_body_front(packets: Seq<Seq<u8>>)
    requires
        packets.len() > 0,
    ensures
        bundle_body(packets) == be16(packets[0].len() as int) + packets[0] + bundle_body(
            packets.skip(1),
        ),
    decreases packets.len(),
{
    let init = packets.drop_last();
    if packets.len() == 1 {
        assert(init =~= Seq::empty());
        assert(packets.skip(1) =~= Seq::empty());
        assert(bundle_body(packets) =~= be16(packets[0].len() as int) + packets[0] + bundle_body(
            packets.skip(1),
        ));
    } else {
        lemma_body_front(init);
        let rest = packets.skip(1);
        assert(init[0] == packets[0]);
        assert(init.skip(1) =~= rest.drop_last());
        assert(rest.last() == packets.last());
        assert(bundle_body(packets) =~= be16(packets[0].len() as int) + packets[0] + bundle_body(
            rest,
        ));
    }
}

proof fn lemma_body_is_read(data: Seq<u8>, offset: int, packets: Seq<Seq<u8>>)
    requires
        0 <= offset <= data.len(),
        data.skip(offset) == bundle_body(packets),
        forall|i: int| 0 <= i < packets.len() ==> (#[trigger] packets[i]).len() <= 65535,
    ensures
        packets_in(Unread { data, offset, remaining: packets.len() as int }) == packets,
    decreases packets.len(),
{
    let u = Unread { data, offset, remaining: packets.len() as int };
    if packets.len() == 0 {
        assert(packets =~= Seq::empty());
    } else {
        lemma_body_front(packets);
        let first = packets[0];
        let rest = packets.skip(1);
        let tail = data.skip(offset);
        let head = be16(first.len() as int);
        assert(tail == head + first + bundle_body(rest));
        assert(data.subrange(offset, offset + 2) =~= tail.subrange(0, 2));
        assert(tail.subrange(0, 2) =~= head);
        lemma_be16_inside(data, offset, first.len() as int);
        assert(packet_at(u) =~= tail.subrange(2, 2 + first.len() as int));
        assert(tail.subrange(2, 2 + first.len() as int) =~= first);
        let next = offset + 2 + first.len();
        assert(data.skip(next) =~= tail.skip(2 + first.len() as int));
        assert(tail.skip(2 + first.len() as int) =~= bundle_body(rest));
        assert forall|i: int| 0 <= i < rest.len() implies (#[trigger] rest[i]).len() <= 65535 by {
            assert(rest[i] == packets[i + 1]);
        }
        lemma_body_is_read(data, next, rest);
        assert(seq![first] + rest =~= packets);
    }
}

/// Reading a bundle gives back the packets that it was made of, in order. Packets of more
/// than 65535 bytes, whose length the format cannot hold, are left out.
pub proof fn law_bundle_is_read_back(packets: Seq<Seq<u8>>)
    requires
        packets.len() <= 65535,
        forall|i: int| 0 <= i < packets.len() ==> (#[trigger] packets[i]).len() <= 65535,
    ensures
        packets_in(opened(bundle(packets))) == packets,
{
    let d = bundle(packets);
    let head = be16(packets.len() as int);
    assert(d.subrange(0, 2) =~= head);
    lemma_be16_inside(d, 0, packets.len() as int);
    assert(d.skip(2) =~= bundle_body(packets));
    lemma_body_is_read(d, 2, packets);
}

/// A batch that no packet overflowed stays within the datagram size: the bundle after a
/// packet that fits is not longer than the limit.
pub proof fn law_fitting_packet_keeps_the_size(b: Batch, data: Seq<u8>)
    requires
        !overflows(b, data.len()),
    ensures
        bundle(b.packets.push(data)).len() <= b.config.max_datagram_size,
{
    assert(b.packets.push(data).drop_last() =~= b.packets);
}

/// When a packet starts a new batch: where the datagram with it would be longer than the limit, two bytes for
/// the count and two for each packet counted, or where the batch has as many packets as it may.
pub proof fn law_when_a_batch_is_full(b: Batch, data: Seq<u8>)
    ensures
        overflows(b, data.len()) <==> bundle(b.packets.push(data)).len() > b.config.max_datagram_size
            || b.packets.len() >= b.config.max_packets,
        bundle(b.packets.push(data)).len() == bundle(b.packets).len() + 2 + data.len(),
        bundle(Seq::<Seq<u8>>::empty()).len() == 2,
{
    assert(b.packets.push(data).drop_last() =~= b.packets);
}

/// What a flush hands out: nothing of an empty batch, and of any other a datagram from which every packet is
/// read back in order, with their number in front.
pub proof fn law_flush_hands_out_the_batch(r: Option<Vec<u8>>, packets: Seq<Seq<u8>>)
    requires
        flushed(r, packets),
        packets.len() <= 65_535,
        forall|i: int| 0 <= i < packets.len() ==> (#[trigger] packets[i]).len() <= 65_535,
    ensures
        r is None <==> packets.len() == 0,
        r is Some ==> packets_in(opened(r->0@)) == packets && r->0@.len() >= 2 && r->0@[0] * 256
            + r->0@[1] == packets.len(),
{
    if packets.len() > 0 {
        law_bundle_is_read_back(packets);
        assert(bundle(packets)[0] == be16(packets.len() as int)[0]);
        assert(bundle(packets)[1] == be16(packets.len() as int)[1]);
    }
}

/// A datagram is of up to 1200 bytes by default, and of up to 65507 at all.
pub proof fn law_datagram_sizes()
    ensures
        DEFAULT_MAX_DATAGRAM == 1200,
        MAX_ASSEMBLED_DATAGRAM == 65_507,
{
}

/// How packets are read: each stands behind its length in two bytes, the most significant first. Where the count is
/// used up, or a length or a packet is cut short, nothing more is read.
pub proof fn law_packets_come_one_by_one(u: Unread)
    requires
        0 <= u.offset,
    ensures
        u.remaining <= 0 || u.offset + 2 > u.data.len() ==> packets_in(u).len() == 0,
        u.remaining > 0 && u.offset + 2 <= u.data.len() ==> {
            let n = u.data[u.offset] * 256 + u.data[u.offset + 1];
            let end = u.offset + 2 + n;
            &&& end > u.data.len() ==> packets_in(u).len() == 0
            &&& end <= u.data.len() ==> packets_in(u) == seq![u.data.subrange(u.offset + 2, end)]
                + packets_in(Unread { offset: end, remaining: u.remaining - 1, ..u })
        },
{
}

/// A datagram starts with the count of its packets in two bytes, the most significant first.
pub proof fn law_count_stands_in_front(datagram: Seq<u8>)
    requires
        datagram.len() >= 2,
    ensures
        opened(datagram).remaining == datagram[0] * 256 + datagram[1],
        opened(datagram).offset == 2,
        opened(datagram).data == datagram,
{
}

} // verus!
