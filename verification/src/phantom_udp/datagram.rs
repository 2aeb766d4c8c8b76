//! One logical frame as one or more datagrams, and back.
//!
//! A frame that fits travels behind the outer header. A larger one is cut into chunks, each
//! behind the outer header and `[packet_id u32 be][chunk_index u16 be][total_chunks u16 be]`.

use super::envelope::{
    decode_header, encode_header, header_bytes, law_encoded_header_is_read_back, read_header,
    EnvelopeError, OuterHeader, PacketType, CID_LEN, FRAG_SUBHDR_LEN, MAX_INNER_FRAG_CHUNK, MAX_INNER_UNFRAGMENTED, PATH_MTU,
};
use crate::fragmentation::{
    acceptable, bytes_of, chunk_of, complete, concat, cut, frames_of,
    law_chunks_come_back_in_any_order, law_pieces_make_up_the_payload, lemma_piece_count, made_room,
    pieces, place_of, processed, run, Assembly, Chunk, CryptoFrame, MAX_TOTAL_CHUNKS,
};
use crate::wire::{
    append, be16, be16_at, be32, be32_at, copy_bytes, lemma_be16_inside, lemma_be32_inside,
    push_u16, push_u32, read_u16, read_u32,
};
use vstd::prelude::*;

pub use crate::fragmentation::FragmentAssembler;

verus! {

/// A connection id as an assembly key: padded with zeros to sixteen bytes.
pub open spec fn assembly_key(cid: Seq<u8>) -> Seq<u8> {
    cid + seq![0u8, 0u8, 0u8, 0u8, 0u8, 0u8, 0u8, 0u8]
}

fn cid16(cid: &[u8; 8]) -> (k: [u8; 16])
    ensures
        k@ == assembly_key(cid@),
{
    let mut k: [u8; 16] = [0u8; 16];
    let mut i: usize = 0;
    while i < 8
        invariant
            i <= 8,
            forall|j: int| 0 <= j < i ==> k@[j] == cid@[j],
            forall|j: int| i <= j < 16 ==> k@[j] == 0,
        decreases 8 - i,
    {
        k[i] = cid[i];
        i += 1;
    }
    assert(k@ =~= assembly_key(cid@));
    k
}

/// The datagram of chunk `i` of `chunks`.
pub open spec fn fragment_datagram(
    ty: PacketType,
    cid: Seq<u8>,
    packet_id: u32,
    chunks: Seq<Seq<u8>>,
    i: int,
) -> Seq<u8> {
    header_bytes(ty, true, cid) + be32(packet_id as int) + be16(i) + be16(chunks.len() as int)
        + chunks[i]
}

/// The chunks of a frame that does not fit one datagram.
pub open spec fn frame_chunks(frame: Seq<u8>) -> Seq<Seq<u8>> {
    pieces(frame, MAX_INNER_FRAG_CHUNK as nat)
}

/// The datagrams of a frame, or `None` where it has more chunks than a receiver accepts.
pub open spec fn datagrams_of(ty: PacketType, cid: Seq<u8>, packet_id: u32, frame: Seq<u8>) -> Option<
    Seq<Seq<u8>>,
> {
    if frame.len() <= MAX_INNER_UNFRAGMENTED {
        Some(seq![header_bytes(ty, false, cid) + frame])
    } else if frame_chunks(frame).len() > MAX_TOTAL_CHUNKS {
        None
    } else {
        Some(
            Seq::new(
                frame_chunks(frame).len(),
                |i: int| fragment_datagram(ty, cid, packet_id, frame_chunks(frame), i),
            ),
        )
    }
}

/// Datagrams as sequences.
pub open spec fn views(d: Seq<Vec<u8>>) -> Seq<Seq<u8>> {
    Seq::new(d.len(), |i: int| d[i]@)
}

/// Encode a frame as datagrams. `packet_id` tells apart the fragmented frames of one
/// connection.
pub fn encode_datagrams(ty: PacketType, cid: &[u8; 8], packet_id: u32, frame: &[u8]) -> (r: Result<
    Vec<Vec<u8>>,
    EnvelopeError,
>)
    ensures
        match datagrams_of(ty, cid@, packet_id, frame@) {
            None => r matches Err(e) && e == EnvelopeError::FrameTooLarge,
            Some(d) => r matches Ok(v) && views(v@) == d,
        },
{
    let mut out: Vec<Vec<u8>> = Vec::new();
    if frame.len() <= MAX_INNER_UNFRAGMENTED {
        let mut d: Vec<u8> = Vec::new();
        encode_header(&mut d, ty, false, cid);
        append(&mut d, frame);
        assert(d@ =~= header_bytes(ty, false, cid@) + frame@);
        out.push(d);
        assert(views(out@) =~= seq![header_bytes(ty, false, cid@) + frame@]);
        return Ok(out);
    }
    let chunks: Vec<Vec<u8>> = cut(frame, MAX_INNER_FRAG_CHUNK);
    if chunks.len() > MAX_TOTAL_CHUNKS as usize {
        return Err(EnvelopeError::FrameTooLarge);
    }
    let total: u16 = chunks.len() as u16;
    let ghost all = frame_chunks(frame@);
    let mut i: u16 = 0;
    while i < total
        invariant
            i <= total,
            total == chunks@.len(),
            total == all.len(),
            all == frame_chunks(frame@),
            out@.len() == i,
            forall|k: int| 0 <= k < chunks@.len() ==> (#[trigger] chunks@[k])@ == all[k],
            forall|k: int|
                0 <= k < i ==> (#[trigger] out@[k])@ == fragment_datagram(
                    ty,
                    cid@,
                    packet_id,
                    all,
                    k,
                ),
        decreases total - i,
    {
        let mut d: Vec<u8> = Vec::new();
        encode_header(&mut d, ty, true, cid);
        push_u32(&mut d, packet_id);
        push_u16(&mut d, i);
        push_u16(&mut d, total);
        append(&mut d, chunks[i as usize].as_slice());
        assert(d@ =~= fragment_datagram(ty, cid@, packet_id, all, i as int));
        out.push(d);
        i += 1;
    }
    assert(views(out@) =~= Seq::new(
        all.len(),
        |i: int| fragment_datagram(ty, cid@, packet_id, all, i),
    ));
    Ok(out)
}

/// The chunk that a fragment datagram carries.
pub open spec fn chunk_in(d: Seq<u8>) -> Chunk {
    Chunk {
        session: assembly_key(d.subrange(1, 9)),
        packet: be32_at(d, 9) as u32,
        index: be16_at(d, 13) as nat,
        total: be16_at(d, 15) as nat,
        payload: d.skip(17),
    }
}

/// Take in one datagram that came at `now_ms`. Its header comes back and, when the datagram
/// is not fragmented or completes a frame, the frame.
pub fn push_datagram(assembler: &mut FragmentAssembler, datagram: &[u8], now_ms: u64) -> (r: Result<
    (OuterHeader, Option<Vec<u8>>),
    EnvelopeError,
>)
    requires
        old(assembler).wf(),
    ensures
        final(assembler).wf(),
        match read_header(datagram@) {
            Err(e) => (r matches Err(f) && f == e) && final(assembler)@ == old(assembler)@,
            Ok((ty, false)) => (r matches Ok((h, Some(frame))) && h.ty == ty && !h.fragmented
                && h.cid@ == datagram@.subrange(1, 9) && frame@ == datagram@.skip(9)) && final(assembler)@
                == old(assembler)@,
            Ok((ty, true)) => if datagram@.len() < 17 {
                (r matches Err(f) && f == EnvelopeError::Truncated) && final(assembler)@ == old(assembler)@
            } else {
                let f = chunk_in(datagram@);
                r matches Ok((h, out)) && h.ty == ty && h.fragmented && h.cid@
                    == datagram@.subrange(1, 9) && processed(
                    old(assembler)@,
                    f,
                    now_ms,
                    final(assembler)@,
                    bytes_of(out),
                )
            },
        },
{
    let (hdr, rest) = match decode_header(datagram) {
        Err(e) => {
            return Err(e);
        },
        Ok(p) => p,
    };
    if !hdr.fragmented {
        return Ok((hdr, Some(copy_bytes(rest))));
    }
    if rest.len() < FRAG_SUBHDR_LEN {
        return Err(EnvelopeError::Truncated);
    }
    let packet_id: u32 = read_u32(rest, 0);
    let chunk_index: u16 = read_u16(rest, 4);
    let total_chunks: u16 = read_u16(rest, 6);
    let payload: Vec<u8> = copy_bytes(
        vstd::slice::slice_subrange(rest, FRAG_SUBHDR_LEN, rest.len()),
    );
    let frame: CryptoFrame = CryptoFrame {
        session_id: cid16(&hdr.cid),
        packet_id,
        chunk_index,
        total_chunks,
        payload,
    };
    proof {
        assert(frame.payload@ =~= datagram@.skip(17));
        assert(frame@ =~= chunk_in(datagram@));
    }
    let out: Option<Vec<u8>> = assembler.process_chunk(frame, now_ms);
    Ok((hdr, out))
}

/// Every datagram of a frame fits the path, and its chunks are acceptable to a receiver and
/// make up the frame.
pub proof fn law_datagrams_fit_and_make_up_the_frame(
    ty: PacketType,
    cid: Seq<u8>,
    packet_id: u32,
    frame: Seq<u8>,
)
    requires
        cid.len() == CID_LEN,
    ensures
        datagrams_of(ty, cid, packet_id, frame) matches Some(d) ==> {
            &&& d.len() >= 1
            &&& forall|i: int| 0 <= i < d.len() ==> (#[trigger] d[i]).len() <= PATH_MTU
        },
        frame.len() > MAX_INNER_UNFRAGMENTED ==> concat(frame_chunks(frame)) == frame
            && frame_chunks(frame).len() >= 2,
        datagrams_of(ty, cid, packet_id, frame) is None <==> frame.len() > MAX_TOTAL_CHUNKS
            * MAX_INNER_FRAG_CHUNK,
{
    law_pieces_make_up_the_payload(frame, MAX_INNER_FRAG_CHUNK as nat);
    lemma_piece_count(frame, MAX_INNER_FRAG_CHUNK as nat);
    if let Some(d) = datagrams_of(ty, cid, packet_id, frame) {
        assert forall|i: int| 0 <= i < d.len() implies (#[trigger] d[i]).len() <= PATH_MTU by {
            if frame.len() > MAX_INNER_UNFRAGMENTED {
                assert(frame_chunks(frame)[i].len() <= MAX_INNER_FRAG_CHUNK);
            }
        }
    }
}

/// A fragment datagram is read back as the chunk that it was made of, and a receiver accepts
/// it.
pub proof fn law_fragment_is_read_back(
    ty: PacketType,
    cid: Seq<u8>,
    packet_id: u32,
    chunks: Seq<Seq<u8>>,
    i: int,
)
    requires
        cid.len() == CID_LEN,
        0 <= i < chunks.len() <= MAX_TOTAL_CHUNKS,
        chunks[i].len() <= MAX_INNER_FRAG_CHUNK,
    ensures
        read_header(fragment_datagram(ty, cid, packet_id, chunks, i)) == Ok::<
            (PacketType, bool),
            EnvelopeError,
        >((ty, true)),
        fragment_datagram(ty, cid, packet_id, chunks, i).len() >= 17,
        chunk_in(fragment_datagram(ty, cid, packet_id, chunks, i)) == chunk_of(
            assembly_key(cid),
            packet_id,
            chunks,
            i,
        ),
        acceptable(chunk_of(assembly_key(cid), packet_id, chunks, i)),
{
    let d = fragment_datagram(ty, cid, packet_id, chunks, i);
    let n = chunks.len() as int;
    let rest = be32(packet_id as int) + be16(i) + be16(n) + chunks[i];
    assert(d =~= header_bytes(ty, true, cid) + rest);
    law_encoded_header_is_read_back(ty, true, cid, rest);
    assert(d.subrange(9, 13) =~= be32(packet_id as int));
    lemma_be32_inside(d, 9, packet_id as int);
    assert(d.subrange(13, 15) =~= be16(i));
    lemma_be16_inside(d, 13, i);
    assert(d.subrange(15, 17) =~= be16(n));
    lemma_be16_inside(d, 15, n);
    assert(d.skip(17) =~= chunks[i]);
}

/// The chunks that datagrams carry.
pub open spec fn chunks_in(came: Seq<Seq<u8>>) -> Seq<Chunk> {
    Seq::new(came.len(), |k: int| chunk_in(came[k]))
}

/// The datagrams of a frame in the order `order`.
pub open spec fn in_order(d: Seq<Seq<u8>>, order: Seq<int>) -> Seq<Seq<u8>> {
    Seq::new(order.len(), |k: int| d[order[k]])
}

/// A frame comes back from its datagrams. One that travels whole is handed out at once, and
/// the table stays as it is. Of any other the datagrams may come in any order, and more than
/// once: a receiver without an assembly of the frame accepts each, hands out nothing before
/// the one that was missing last, and the whole frame with it. Its table is then as it was,
/// but for the assembly that made room where it was full.
pub proof fn law_frame_comes_back(
    tables: Seq<Seq<Assembly>>,
    ty: PacketType,
    cid: Seq<u8>,
    packet_id: u32,
    frame: Seq<u8>,
    d: Seq<Seq<u8>>,
    order: Seq<int>,
    times: Seq<u64>,
    outs: Seq<Option<Seq<u8>>>,
)
    requires
        cid.len() == CID_LEN,
        datagrams_of(ty, cid, packet_id, frame) == Some(d),
        order.len() > 0,
        forall|k: int| 0 <= k < order.len() ==> 0 <= #[trigger] order[k] < d.len(),
        !complete(order.drop_last(), d.len()),
        frame.len() > MAX_INNER_UNFRAGMENTED ==> run(
            tables,
            chunks_in(in_order(d, order)),
            times,
            outs,
        ) && place_of(tables[0], assembly_key(cid), packet_id) == tables[0].len(),
    ensures
        frame.len() <= MAX_INNER_UNFRAGMENTED ==> d.len() == 1 && read_header(d[0]) == Ok::<
            (PacketType, bool),
            EnvelopeError,
        >((ty, false)) && d[0].skip(9) == frame,
        frame.len() > MAX_INNER_UNFRAGMENTED ==> {
            &&& forall|i: int|
                0 <= i < d.len() ==> read_header(#[trigger] d[i]) == Ok::<
                    (PacketType, bool),
                    EnvelopeError,
                >((ty, true)) && d[i].len() >= 17 && acceptable(chunk_in(d[i]))
            &&& forall|k: int| 0 <= k < order.len() - 1 ==> #[trigger] outs[k] is None
            &&& !complete(order, d.len()) ==> outs.last() is None
            &&& complete(order, d.len()) ==> outs.last() == Some(frame) && made_room(
                tables[0],
                tables.last(),
                chunk_in(d[order[0]]),
            )
        },
{
    if frame.len() <= MAX_INNER_UNFRAGMENTED {
        law_encoded_header_is_read_back(ty, false, cid, frame);
        assert(d[0].skip(9) =~= frame);
    } else {
        let chunks = frame_chunks(frame);
        let key = assembly_key(cid);
        law_pieces_make_up_the_payload(frame, MAX_INNER_FRAG_CHUNK as nat);
        law_datagrams_fit_and_make_up_the_frame(ty, cid, packet_id, frame);
        assert forall|i: int| 0 <= i < d.len() implies read_header(#[trigger] d[i]) == Ok::<
            (PacketType, bool),
            EnvelopeError,
        >((ty, true)) && d[i].len() >= 17 && acceptable(chunk_in(d[i])) && chunk_in(d[i])
            == chunk_of(key, packet_id, chunks, i) by {
            assert(chunks[i].len() <= MAX_INNER_FRAG_CHUNK);
            law_fragment_is_read_back(ty, cid, packet_id, chunks, i);
        }
        assert forall|k: int| 0 <= k < order.len() implies chunks_in(in_order(d, order))[k]
            == #[trigger] frames_of(key, packet_id, chunks, order)[k] by {
            assert(0 <= order[k] < d.len());
        }
        assert(chunks_in(in_order(d, order)) =~= frames_of(key, packet_id, chunks, order));
        law_chunks_come_back_in_any_order(tables, key, packet_id, chunks, order, times, outs);
        assert(0 <= order[0] < d.len());
    }
}

/// The limits of datagrams, in numbers: a frame of up to 1191 bytes travels whole, a larger one in chunks of
/// 1183 bytes, one of more than 259077 bytes not at all, and no datagram is longer than 1200 bytes.
pub proof fn law_datagram_limits(
    ty: PacketType,
    cid: Seq<u8>,
    packet_id: u32,
    frame: Seq<u8>,
    i: int,
)
    requires
        cid.len() == 8,
    ensures
        frame.len() <= 1191 ==> datagrams_of(ty, cid, packet_id, frame) == Some(
            seq![header_bytes(ty, false, cid) + frame],
        ),
        1191 < frame.len() <= 259_077 ==> datagrams_of(ty, cid, packet_id, frame) is Some,
        frame.len() > 259_077 ==> datagrams_of(ty, cid, packet_id, frame) is None,
        datagrams_of(ty, cid, packet_id, frame) is Some && 0 <= i < datagrams_of(
            ty,
            cid,
            packet_id,
            frame,
        )->0.len() ==> datagrams_of(ty, cid, packet_id, frame)->0[i].len() <= 1200,
        1191 < frame.len() <= 259_077 && 0 <= i < datagrams_of(ty, cid, packet_id, frame)->0.len() - 1
            ==> datagrams_of(ty, cid, packet_id, frame)->0[i].len() == 1200,
{
    law_datagrams_fit_and_make_up_the_frame(ty, cid, packet_id, frame);
    if 1191 < frame.len() && datagrams_of(ty, cid, packet_id, frame) is Some {
        if 0 <= i < frame_chunks(frame).len() - 1 {
            crate::fragmentation::law_pieces_are_full(frame, MAX_INNER_FRAG_CHUNK as nat, i);
        }
    }
}

/// Where the parts of a fragment stand: behind the header and the connection id, the number of the packet in four
/// bytes, the index and the count in two each, and the chunk. Its key is the connection id and eight zeros.
pub proof fn law_places_in_a_fragment(
    ty: PacketType,
    cid: Seq<u8>,
    packet_id: u32,
    chunks: Seq<Seq<u8>>,
    i: int,
)
    requires
        cid.len() == 8,
        0 <= i < chunks.len() <= 219,
    ensures
        ({
            let d = fragment_datagram(ty, cid, packet_id, chunks, i);
            &&& d.len() == 17 + chunks[i].len()
            &&& d.subrange(1, 9) == cid
            &&& be32_at(d, 9) == packet_id
            &&& be16_at(d, 13) == i
            &&& be16_at(d, 15) == chunks.len()
            &&& d.skip(17) == chunks[i]
            &&& chunk_in(d).session.len() == 16
            &&& chunk_in(d).session.take(8) == cid
            &&& forall|k: int| 8 <= k < 16 ==> #[trigger] chunk_in(d).session[k] == 0
        }),
{
    let d = fragment_datagram(ty, cid, packet_id, chunks, i);
    assert(d.subrange(1, 9) =~= cid);
    assert(d.subrange(9, 13) =~= be32(packet_id as int));
    assert(d.subrange(13, 15) =~= be16(i));
    assert(d.subrange(15, 17) =~= be16(chunks.len() as int));
    assert(d.skip(17) =~= chunks[i]);
    crate::wire::lemma_be32_inside(d, 9, packet_id as int);
    crate::wire::lemma_be16_inside(d, 13, i);
    crate::wire::lemma_be16_inside(d, 15, chunks.len() as int);
    assert(assembly_key(cid).take(8) =~= cid);
}

} // verus!
