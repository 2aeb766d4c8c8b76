//! Packets whose payload is a bundle.

use crate::packet_coalescer::{bundle, opened, packets_in, Batch, Decoalescer, PacketCoalescer};
use crate::text::{two_numbers, two_numbers_text};
use crate::types::{
    PacketFlags, PacketHeader, PhantomPacket, SequenceNumber, SessionId, StreamId,
};
use crate::wire::{be16_at, copy_bytes, read_u16};
use vstd::prelude::*;

verus! {

/// The header of a bundle's packet.
pub open spec fn coalesced_header(
    session_id: SessionId,
    stream_id: StreamId,
    sequence: SequenceNumber,
    flags_extra: u16,
) -> PacketHeader {
    PacketHeader {
        session_id,
        stream_id,
        sequence,
        flags: PacketFlags(flags_extra | PacketFlags::COALESCED),
        epoch: 0,
        path_id: 0,
    }
}

/// Wrap a bundle into a packet. `flags_extra` holds further flag bits.
pub fn wrap_coalesced_packet(
    session_id: SessionId,
    stream_id: StreamId,
    sequence: SequenceNumber,
    flags_extra: u16,
    bundle: Vec<u8>,
) -> (p: PhantomPacket)
    ensures
        p.header == coalesced_header(session_id, stream_id, sequence, flags_extra),
        p.payload == bundle,
{
    let flag_bits: u16 = flags_extra | PacketFlags::COALESCED;
    let header: PacketHeader = PacketHeader::new(
        session_id,
        stream_id,
        sequence,
        PacketFlags::new(flag_bits),
    );
    PhantomPacket::new(header, bundle)
}

/// A bundle that cannot be read.
#[derive(Debug, Clone, Copy, PartialEq, Eq, Structural)]
pub enum CoalescedParseError {
    /// The payload is shorter than the count.
    EmptyOrTruncatedHeader,
    /// The bundle holds fewer packets than its count says.
    TruncatedSubPacket { expected: usize, got: usize },
}

impl CoalescedParseError {
    /// The text of the error.
    pub open spec fn spec_text(self) -> Seq<char> {
        match self {
            CoalescedParseError::EmptyOrTruncatedHeader => "COALESCED payload truncated before the bundle header"@,
            CoalescedParseError::TruncatedSubPacket { expected, got } => two_numbers(
                "COALESCED bundle declared "@,
                expected as nat,
                " sub-packets, got "@,
                got as nat,
            ) + " well-formed"@,
        }
    }

    /// The text of the error.
    pub fn to_text(&self) -> (s: String)
        ensures
            s@ == self.spec_text(),
    {
        match self {
            CoalescedParseError::EmptyOrTruncatedHeader => "COALESCED payload truncated before the bundle header".to_owned(),
            CoalescedParseError::TruncatedSubPacket { expected, got } => {
                let mut s: String = two_numbers_text(
                    "COALESCED bundle declared ",
                    *expected as u64,
                    " sub-packets, got ",
                    *got as u64,
                );
                s.append(" well-formed");
                s
            },
        }
    }
}

/// The packets, as byte strings.
pub open spec fn contents(v: Seq<Vec<u8>>) -> Seq<Seq<u8>> {
    v.map_values(|x: Vec<u8>| x@)
}

/// Read a packet's bundle. `Ok(None)` when the packet is none.
pub fn unwrap_coalesced_packet(packet: &PhantomPacket) -> (r: Result<
    Option<Vec<Vec<u8>>>,
    CoalescedParseError,
>)
    ensures
        !packet.header.flags.has(PacketFlags::COALESCED) ==> r == Ok::<
            Option<Vec<Vec<u8>>>,
            CoalescedParseError,
        >(None),
        packet.header.flags.has(PacketFlags::COALESCED) ==> {
            let payload = packet.payload@;
            let inside = packets_in(opened(payload));
            if payload.len() < 2 {
                r == Err::<Option<Vec<Vec<u8>>>, CoalescedParseError>(
                    CoalescedParseError::EmptyOrTruncatedHeader,
                )
            } else if inside.len() != be16_at(payload, 0) {
                r == Err::<Option<Vec<Vec<u8>>>, CoalescedParseError>(
                    CoalescedParseError::TruncatedSubPacket {
                        expected: be16_at(payload, 0) as usize,
                        got: inside.len() as usize,
                    },
                )
            } else {
                r matches Ok(Some(v)) && contents(v@) == inside
            }
        },
{
    if !packet.header.flags.contains(PacketFlags::COALESCED) {
        return Ok(None);
    }
    if packet.payload.len() < 2 {
        return Err(CoalescedParseError::EmptyOrTruncatedHeader);
    }
    let claimed: usize = read_u16(packet.payload.as_slice(), 0) as usize;
    let mut decoder: Decoalescer = match Decoalescer::new(packet.payload.as_slice()) {
        Some(d) => d,
        None => {
            return Err(CoalescedParseError::EmptyOrTruncatedHeader);
        },
    };
    let mut out: Vec<Vec<u8>> = Vec::new();
    assert(contents(out@) =~= Seq::empty());
    let ghost inside = packets_in(opened(packet.payload@));
    assert(contents(out@) + packets_in(decoder@) =~= inside);
    let mut more: bool = true;
    while more
        invariant
            more ==> contents(out@) + packets_in(decoder@) == inside,
            !more ==> contents(out@) == inside,
            0 <= decoder@.remaining,
            out@.len() + decoder@.remaining <= claimed,
            claimed <= 65535,
        decreases decoder@.remaining, more as int,
    {
        let ghost before = decoder@;
        let ghost got = contents(out@);
        match decoder.next() {
            Some(sub) => {
                let copy: Vec<u8> = copy_bytes(sub);
                out.push(copy);
                proof {
                    assert(contents(out@) =~= got.push(copy@));
                    assert(contents(out@) + packets_in(decoder@) =~= got + packets_in(before));
                }
            },
            None => {
                more = false;
                proof {
                    assert(packets_in(before) =~= Seq::empty());
                    assert(got + packets_in(before) =~= got);
                }
            },
        }
    }
    if out.len() != claimed {
        return Err(CoalescedParseError::TruncatedSubPacket { expected: claimed, got: out.len() });
    }
    Ok(Some(out))
}

/// Wrap what a coalescer holds into packets, without waiting. Each takes the next sequence
/// number.
pub fn drain_coalescer_to_packets(
    coalescer: &mut PacketCoalescer,
    session_id: SessionId,
    stream_id: StreamId,
    next_sequence: &mut SequenceNumber,
    flags_extra: u16,
) -> (out: Vec<PhantomPacket>)
    ensures
        final(coalescer)@ == (Batch {
            packets: Seq::empty(),
            started_us: None,
            ..old(coalescer)@
        }),
        old(coalescer)@.packets.len() == 0 ==> out@.len() == 0 && *final(next_sequence) == *old(
            next_sequence,
        ),
        old(coalescer)@.packets.len() > 0 ==> {
            &&& out@.len() == 1
            &&& out@[0].header == coalesced_header(
                session_id,
                stream_id,
                *old(next_sequence),
                flags_extra,
            )
            &&& out@[0].payload@ == bundle(old(coalescer)@.packets)
            &&& *final(next_sequence) == (*old(next_sequence)).wrapping_add(1)
        },
{
    let mut out: Vec<PhantomPacket> = Vec::new();
    let ghost held = coalescer@.packets;
    let ghost first = *next_sequence;
    let ghost rest = Batch { packets: Seq::empty(), started_us: None, ..coalescer@ };
    let mut more: bool = true;
    while more
        invariant
            (Batch { packets: Seq::empty(), started_us: None, ..coalescer@ }) == rest,
            !more ==> coalescer@ == rest && (held.len() == 0 || out@.len() > 0),
            out@.len() == 0 ==> coalescer@.packets == held && *next_sequence == first,
            out@.len() > 0 ==> {
                &&& held.len() > 0
                &&& coalescer@ == rest
                &&& out@.len() == 1
                &&& out@[0].header == coalesced_header(session_id, stream_id, first, flags_extra)
                &&& out@[0].payload@ == bundle(held)
                &&& *next_sequence == first.wrapping_add(1)
            },
        decreases coalescer@.packets.len(), more as int,
    {
        match coalescer.flush() {
            Some(bundle) => {
                let pkt: PhantomPacket = wrap_coalesced_packet(
                    session_id,
                    stream_id,
                    *next_sequence,
                    flags_extra,
                    bundle,
                );
                *next_sequence = next_sequence.wrapping_add(1);
                out.push(pkt);
            },
            None => {
                more = false;
            },
        }
    }
    out
}

/// A wrapped bundle is a coalesced packet, keeps the further flags, and is read back as the
/// packets it was made of.
pub proof fn law_wrapped_bundle_is_read_back(
    session_id: SessionId,
    stream_id: StreamId,
    sequence: SequenceNumber,
    flags_extra: u16,
    packets: Seq<Seq<u8>>,
)
    requires
        packets.len() <= 65535,
        forall|i: int| 0 <= i < packets.len() ==> (#[trigger] packets[i]).len() <= 65535,
    ensures
        ({
            let h = coalesced_header(session_id, stream_id, sequence, flags_extra);
            &&& h.flags.has(PacketFlags::COALESCED)
            &&& h.flags.has(flags_extra)
            &&& be16_at(bundle(packets), 0) == packets.len()
            &&& packets_in(opened(bundle(packets))) == packets
        }),
{
    let bit: u16 = PacketFlags::COALESCED;
    assert((flags_extra | bit) & bit == bit) by (bit_vector);
    assert((flags_extra | bit) & flags_extra == flags_extra) by (bit_vector);
    crate::packet_coalescer::law_bundle_is_read_back(packets);
    assert(bundle(packets).subrange(0, 2) =~= crate::wire::be16(packets.len() as int));
    crate::wire::lemma_be16_inside(bundle(packets), 0, packets.len() as int);
}

/// What a wrapped bundle is on the wire: a packet of the given stream and number in epoch 0 on path 0, with
/// the flag of value 8 and the further flags, and no others.
pub proof fn law_wrapped_bundle_in_numbers(
    session_id: SessionId,
    stream_id: StreamId,
    sequence: SequenceNumber,
    flags_extra: u16,
)
    ensures
        ({
            let h = coalesced_header(session_id, stream_id, sequence, flags_extra);
            &&& h.session_id == session_id && h.stream_id == stream_id && h.sequence == sequence
            &&& h.epoch == 0 && h.path_id == 0
            &&& h.flags.0 == flags_extra | 8
        }),
{
}

} // verus!
