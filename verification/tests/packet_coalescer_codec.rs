//! Coalesced packets.

use phantom_transport::packet_coalescer::{CoalescerConfig, PacketCoalescer};
use phantom_transport::packet_coalescer_codec::{
    drain_coalescer_to_packets, unwrap_coalesced_packet, wrap_coalesced_packet,
    CoalescedParseError,
};
use phantom_transport::types::{
    PacketFlags, PacketHeader, PhantomPacket, SequenceNumber, SessionId,
};

fn fixed_session_id() -> SessionId {
    SessionId::from_bytes([0xAB; 32])
}

#[test]
fn wrap_sets_coalesced_flag_and_preserves_payload() {
    let bundle = vec![0u8; 64];
    let v = wrap_coalesced_packet(fixed_session_id(), 7, 1, 0, bundle.clone());
    let v2 = &v;
    assert!(v2.header.flags.contains(PacketFlags::COALESCED));
    assert_eq!(v2.payload, bundle);
}

#[test]
fn wrap_or_s_in_extra_flags() {
    let v = wrap_coalesced_packet(fixed_session_id(), 7, 1, PacketFlags::ENCRYPTED, vec![]);
    let v2 = &v;
    assert!(v2.header.flags.contains(PacketFlags::COALESCED));
    assert!(v2.header.flags.contains(PacketFlags::ENCRYPTED));
}

#[test]
fn round_trip_three_subpayloads() {
    let mut c = PacketCoalescer::new(CoalescerConfig::default());
    c.push(b"aaaa", 0);
    c.push(b"bb", 0);
    c.push(b"cccccc", 0);
    let bundle = c.flush().expect("flush");

    let packet = wrap_coalesced_packet(fixed_session_id(), 0, 0, 0, bundle);
    let v2 = packet;
    let parsed = unwrap_coalesced_packet(&v2)
        .expect("ok")
        .expect("coalesced flag matched");

    assert_eq!(parsed.len(), 3);
    assert_eq!(parsed[0], b"aaaa");
    assert_eq!(parsed[1], b"bb");
    assert_eq!(parsed[2], b"cccccc");
}

#[test]
fn unwrap_returns_none_when_not_coalesced() {
    let header = PacketHeader::new(
        fixed_session_id(),
        0,
        0,
        PacketFlags::new(PacketFlags::ENCRYPTED),
    );
    let p = PhantomPacket::new(header, vec![0u8; 16]);
    let parsed = unwrap_coalesced_packet(&p).expect("no error");
    assert!(parsed.is_none());
}

#[test]
fn unwrap_errors_on_truncated_header() {
    let header = PacketHeader::new(
        fixed_session_id(),
        0,
        0,
        PacketFlags::new(PacketFlags::COALESCED),
    );
    let p = PhantomPacket::new(header, vec![0u8]);
    let err = unwrap_coalesced_packet(&p).expect_err("err");
    assert_eq!(err, CoalescedParseError::EmptyOrTruncatedHeader);
}

#[test]
fn unwrap_errors_when_bundle_count_exceeds_actual_subs() {
    let mut bundle = Vec::new();
    bundle.extend_from_slice(&5u16.to_be_bytes());
    bundle.extend_from_slice(&3u16.to_be_bytes());
    bundle.extend_from_slice(b"abc");

    let header = PacketHeader::new(
        fixed_session_id(),
        0,
        0,
        PacketFlags::new(PacketFlags::COALESCED),
    );
    let p = PhantomPacket::new(header, bundle);
    let err = unwrap_coalesced_packet(&p).expect_err("err");
    match err {
        CoalescedParseError::TruncatedSubPacket { expected, got } => {
            assert_eq!(expected, 5);
            assert_eq!(got, 1);
        }
        other => panic!("unexpected error variant: {:?}", other),
    }
}

#[test]
fn drain_coalescer_helper_emits_one_packet_per_flush() {
    let mut c = PacketCoalescer::new(CoalescerConfig::default());
    c.push(b"x", 0);
    c.push(b"yy", 0);

    let mut next_seq: SequenceNumber = 100;
    let packets = drain_coalescer_to_packets(
        &mut c,
        fixed_session_id(),
        3,
        &mut next_seq,
        PacketFlags::ENCRYPTED,
    );
    assert_eq!(packets.len(), 1);
    let v2 = packets.into_iter().next().unwrap();
    assert!(v2.header.flags.contains(PacketFlags::COALESCED));
    assert!(v2.header.flags.contains(PacketFlags::ENCRYPTED));
    assert_eq!(v2.header.stream_id, 3);
    assert_eq!(v2.header.sequence, 100);

    assert_eq!(next_seq, 101);
}

#[test]
fn coalesced_errors_have_texts() {
    assert!(!CoalescedParseError::EmptyOrTruncatedHeader.to_text().is_empty());
    let text = CoalescedParseError::TruncatedSubPacket {
        expected: 5,
        got: 1,
    }
    .to_text();
    assert!(text.contains('5') && text.contains('1'));
}
