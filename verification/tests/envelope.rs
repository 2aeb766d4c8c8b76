//! The outer header of datagrams.

use phantom_transport::phantom_udp::envelope::{
    decode_header, encode_header, ConnId, EnvelopeError, PacketType, CID_LEN, HDR_LEN,
};

#[test]
fn roundtrip_initial_unfragmented() {
    let cid: ConnId = [1, 2, 3, 4, 5, 6, 7, 8];
    let mut buf = Vec::new();
    encode_header(&mut buf, PacketType::Initial, false, &cid);
    assert_eq!(buf.len(), HDR_LEN);
    let (hdr, rest) = decode_header(&buf).expect("decode");
    assert_eq!(hdr.ty, PacketType::Initial);
    assert!(!hdr.fragmented);
    assert_eq!(hdr.cid, cid);
    assert!(rest.is_empty());
}

#[test]
fn roundtrip_onertt_fragmented_with_payload() {
    let cid: ConnId = [9; 8];
    let mut buf = Vec::new();
    encode_header(&mut buf, PacketType::OneRtt, true, &cid);
    buf.extend_from_slice(b"abc");
    let (hdr, rest) = decode_header(&buf).expect("decode");
    assert_eq!(hdr.ty, PacketType::OneRtt);
    assert!(hdr.fragmented);
    assert_eq!(rest, b"abc");
}

#[test]
fn rejects_truncated() {
    assert!(matches!(
        decode_header(&[0u8; 4]),
        Err(EnvelopeError::Truncated)
    ));
}

#[test]
fn rejects_reserved_type() {
    let mut buf = vec![0b1100_0000];
    buf.extend_from_slice(&[0u8; CID_LEN]);
    assert!(matches!(
        decode_header(&buf),
        Err(EnvelopeError::ReservedType)
    ));
}

#[test]
fn rejects_reserved_bits_set() {
    let mut buf = vec![0b0000_0001];
    buf.extend_from_slice(&[0u8; CID_LEN]);
    assert!(matches!(
        decode_header(&buf),
        Err(EnvelopeError::ReservedBitsSet)
    ));
}

#[test]
fn envelope_errors_have_texts() {
    for e in [
        EnvelopeError::Truncated,
        EnvelopeError::ReservedType,
        EnvelopeError::ReservedBitsSet,
        EnvelopeError::FrameTooLarge,
    ] {
        assert!(!e.to_text().is_empty());
    }
}
