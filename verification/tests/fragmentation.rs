//! Fragmentation and bounded reassembly.

use phantom_transport::fragmentation::{
    cut, fragment_payload, CryptoFrame, FragmentAssembler, DEAD_AFTER_MS,
    MAX_CONCURRENT_ASSEMBLIES, MAX_REASSEMBLED_LEN, MAX_TOTAL_CHUNKS, MAX_UDP_PAYLOAD,
    NACK_AFTER_MS,
};

fn frame(packet_id: u32, idx: u16, total: u16, payload_len: usize) -> CryptoFrame {
    CryptoFrame {
        session_id: [0u8; 16],
        packet_id,
        chunk_index: idx,
        total_chunks: total,
        payload: vec![0xABu8; payload_len],
    }
}

#[test]
fn fragment_reassemble_round_trip() {
    let payload: Vec<u8> = (0..3000u32).map(|i| i as u8).collect();
    let frames = fragment_payload([1u8; 16], 42, &payload);
    assert!(frames.len() > 1, "3000 bytes must fragment");
    let mut assembler = FragmentAssembler::new();
    let mut out = None;
    for f in frames {
        if let Some(p) = assembler.process_chunk(f, 0) {
            out = Some(p);
        }
    }
    assert_eq!(out.as_deref(), Some(payload.as_slice()));
    assert!(assembler.is_empty(), "completed assembly is removed");
}

#[test]
fn rejects_zero_total_chunks() {
    let mut assembler = FragmentAssembler::new();
    assert!(assembler.process_chunk(frame(1, 0, 0, 10), 0).is_none());
    assert!(assembler.is_empty(), "malformed frame must not open an assembly");
}

#[test]
fn rejects_out_of_range_chunk_index() {
    let mut assembler = FragmentAssembler::new();
    assert!(assembler.process_chunk(frame(1, 2, 2, 10), 0).is_none());
    assert!(assembler.is_empty());
}

#[test]
fn rejects_excessive_total_chunks() {
    let mut assembler = FragmentAssembler::new();
    assert!(assembler
        .process_chunk(frame(1, 0, MAX_TOTAL_CHUNKS.saturating_add(1), 10), 0)
        .is_none());
    assert!(assembler.is_empty());
}

#[test]
fn rejects_oversized_fragment_payload() {
    let mut assembler = FragmentAssembler::new();
    assert!(assembler
        .process_chunk(frame(1, 0, 4, MAX_UDP_PAYLOAD + 1), 0)
        .is_none());
    assert!(assembler.is_empty());
}

#[test]
fn caps_concurrent_assemblies() {
    let mut assembler = FragmentAssembler::new();
    for packet_id in 0..(MAX_CONCURRENT_ASSEMBLIES as u32 * 4) {
        assert!(assembler.process_chunk(frame(packet_id, 0, 4, 10), 0).is_none());
        assert!(
            assembler.len() <= MAX_CONCURRENT_ASSEMBLIES,
            "assembly table exceeded its cap: {}",
            assembler.len()
        );
    }
    assert_eq!(assembler.len(), MAX_CONCURRENT_ASSEMBLIES);
}

#[test]
fn silent_assembly_is_reported_then_dropped() {
    let mut assembler = FragmentAssembler::new();
    assert!(assembler.process_chunk(frame(7, 1, 3, 10), 1_000).is_none());
    assert!(assembler.get_nacks_and_evict(1_000 + NACK_AFTER_MS).is_empty());
    let nacks = assembler.get_nacks_and_evict(1_001 + NACK_AFTER_MS);
    assert_eq!(nacks, vec![([0u8; 16], 7, vec![0u16, 2])]);
    assert_eq!(assembler.len(), 1);
    let nacks = assembler.get_nacks_and_evict(1_001 + DEAD_AFTER_MS);
    assert!(nacks.is_empty());
    assert!(assembler.is_empty());
}

#[test]
fn cut_pieces_make_up_the_payload() {
    let payload: Vec<u8> = (0..=9u8).collect();
    let pieces = cut(&payload, 4);
    assert_eq!(pieces, vec![vec![0, 1, 2, 3], vec![4, 5, 6, 7], vec![8, 9]]);
    assert_eq!(pieces.concat(), payload);
}

#[test]
fn chunks_in_any_order_reassemble() {
    let payload: Vec<u8> = (0..3000u32).map(|i| (i * 7) as u8).collect();
    let mut frames = fragment_payload([3u8; 16], 5, &payload);
    frames.reverse();
    let mut assembler = FragmentAssembler::new();
    let mut out = None;
    for f in frames {
        if let Some(p) = assembler.process_chunk(f, 9) {
            out = Some(p);
        }
    }
    assert_eq!(out, Some(payload));
}

#[test]
fn no_packet_above_the_cap_is_reassembled() {
    let mut assembler = FragmentAssembler::new();
    for idx in 0..MAX_TOTAL_CHUNKS {
        let f = frame(1, idx, MAX_TOTAL_CHUNKS, MAX_UDP_PAYLOAD);
        assert!(assembler.process_chunk(f, 0).is_none());
    }
    assert_eq!(assembler.len(), 1, "the chunk that would exceed the cap is dropped");
    let nacks = assembler.get_nacks_and_evict(NACK_AFTER_MS + 1);
    assert_eq!(nacks, vec![([0u8; 16], 1, vec![MAX_TOTAL_CHUNKS - 1])]);

    // A shorter chunk in its place still completes the packet, at the cap exactly.
    let left = MAX_REASSEMBLED_LEN - (MAX_TOTAL_CHUNKS as usize - 1) * MAX_UDP_PAYLOAD;
    let f = frame(1, MAX_TOTAL_CHUNKS - 1, MAX_TOTAL_CHUNKS, left);
    let packet = assembler.process_chunk(f, 0).expect("complete");
    assert_eq!(packet.len(), MAX_REASSEMBLED_LEN);
    assert!(assembler.is_empty());
}

#[test]
fn packet_of_the_largest_length_comes_back() {
    let payload: Vec<u8> = (0..MAX_REASSEMBLED_LEN).map(|i| (i % 251) as u8).collect();
    let mut assembler = FragmentAssembler::new();
    let mut out = None;
    for f in fragment_payload([2u8; 16], 8, &payload) {
        if let Some(p) = assembler.process_chunk(f, 0) {
            out = Some(p);
        }
    }
    assert_eq!(out, Some(payload));
    let above = vec![1u8; MAX_REASSEMBLED_LEN + 1];
    for f in fragment_payload([2u8; 16], 9, &above) {
        assert!(assembler.process_chunk(f, 0).is_none());
    }
}

#[test]
fn full_table_makes_room_for_a_packet() {
    let mut assembler = FragmentAssembler::new();
    for packet_id in 0..MAX_CONCURRENT_ASSEMBLIES as u32 {
        assert!(assembler
            .process_chunk(frame(packet_id, 0, 4, 10), packet_id as u64)
            .is_none());
    }
    let payload: Vec<u8> = (0..3000u32).map(|i| i as u8).collect();
    let mut out = None;
    for f in fragment_payload([5u8; 16], 1, &payload) {
        if let Some(p) = assembler.process_chunk(f, 1_000) {
            out = Some(p);
        }
    }
    assert_eq!(out, Some(payload));
    assert_eq!(assembler.len(), MAX_CONCURRENT_ASSEMBLIES - 1, "the stalest one left");
}
