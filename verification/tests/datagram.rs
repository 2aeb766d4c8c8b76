//! Frames in datagrams.

use phantom_transport::fragmentation::{FragmentAssembler, MAX_TOTAL_CHUNKS};
use phantom_transport::phantom_udp::datagram::{encode_datagrams, push_datagram};
use phantom_transport::phantom_udp::envelope::{
    encode_header, EnvelopeError, PacketType, MAX_INNER_FRAG_CHUNK, MAX_INNER_UNFRAGMENTED,
    PATH_MTU,
};

#[test]
fn unfragmented_single_datagram_roundtrip() {
    let cid = [7u8; 8];
    let frame = b"small handshake frame".to_vec();
    let dgrams = encode_datagrams(PacketType::Initial, &cid, 1, &frame).expect("encode");
    assert_eq!(dgrams.len(), 1, "small frame is one datagram");
    let mut assembler = FragmentAssembler::new();
    let (hdr, out) = push_datagram(&mut assembler, &dgrams[0], 0).expect("decode");
    assert_eq!(hdr.cid, cid);
    assert_eq!(out.as_deref(), Some(frame.as_slice()));
}

#[test]
fn large_frame_fragments_and_reassembles() {
    let cid = [9u8; 8];
    let frame: Vec<u8> = (0..10_000u32).map(|i| i as u8).collect();
    let dgrams = encode_datagrams(PacketType::Initial, &cid, 42, &frame).expect("encode");
    assert!(dgrams.len() > 1, "10 KB must fragment");
    for d in &dgrams {
        assert!(d.len() <= PATH_MTU, "no datagram may exceed the path MTU");
    }
    let mut assembler = FragmentAssembler::new();
    let mut reassembled = None;
    for d in &dgrams {
        if let (_, Some(done)) = push_datagram(&mut assembler, d, 0).expect("decode") {
            reassembled = Some(done);
        }
    }
    assert_eq!(reassembled.as_deref(), Some(frame.as_slice()));
}

#[test]
fn fragmentation_boundary() {
    let cid = [1u8; 8];
    let exact = vec![0u8; MAX_INNER_UNFRAGMENTED];
    assert_eq!(
        encode_datagrams(PacketType::Initial, &cid, 0, &exact)
            .expect("encode")
            .len(),
        1
    );
    let over = vec![0u8; MAX_INNER_UNFRAGMENTED + 1];
    assert_eq!(
        encode_datagrams(PacketType::Initial, &cid, 0, &over)
            .expect("encode")
            .len(),
        2
    );
}

#[test]
fn truncated_fragment_returns_err() {
    let cid = [2u8; 8];
    let mut d = Vec::new();
    encode_header(
        &mut d,
        PacketType::Initial,
        true,
        &cid,
    );
    d.extend_from_slice(&[0u8; 4]);
    let mut assembler = FragmentAssembler::new();
    assert!(matches!(
        push_datagram(&mut assembler, &d, 0),
        Err(EnvelopeError::Truncated)
    ));
}

#[test]
fn oversized_frame_returns_err() {
    let cid = [3u8; 8];
    let huge = vec![0u8; (MAX_TOTAL_CHUNKS as usize + 1) * MAX_INNER_FRAG_CHUNK];
    assert!(matches!(
        encode_datagrams(PacketType::Initial, &cid, 0, &huge),
        Err(EnvelopeError::FrameTooLarge)
    ));
}
