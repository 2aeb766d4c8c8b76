//! Path validation packets.

use phantom_transport::path::{
    PathRegistry, PathStateKind, RegistrationResult, PATH_CHALLENGE_LEN,
};
use phantom_transport::path_validation_codec::{
    build_path_validation_packet, parse_path_validation, PathValidationKind,
    PathValidationParseError,
};
use phantom_transport::types::{PacketFlagsV2, PacketHeaderV2, PhantomPacketV2, SessionId};

fn fixed_session_id() -> SessionId {
    SessionId::from_bytes([0x42; 32])
}

#[test]
fn build_round_trip_preserves_path_id_and_payload() {
    let payload = [0xAA; PATH_CHALLENGE_LEN];
    let v = build_path_validation_packet(fixed_session_id(), 7, 42, payload);
    let v2 = v.as_v2().expect("built as V2");
    assert_eq!(v2.header.path_id, 7);
    assert!(v2.header.flags.contains(PacketFlagsV2::PATH_VALIDATION));
    assert_eq!(v2.header.stream_id, 0u16);
    assert_eq!(v2.header.sequence, 42u32);
    assert_eq!(v2.payload, payload.to_vec());
}

#[test]
fn parse_path_validation_returns_payload_on_match() {
    let payload = [0xCC; PATH_CHALLENGE_LEN];
    let v = build_path_validation_packet(fixed_session_id(), 3, 1, payload);
    let v2 = v.into_v2().unwrap();
    let parsed = parse_path_validation(&v2).expect("ok").expect("some");
    assert_eq!(parsed.path_id, 3);
    assert_eq!(parsed.payload, payload);
}

#[test]
fn parse_returns_none_when_flag_missing() {
    let header = PacketHeaderV2::new(
        fixed_session_id(),
        0u16,
        0u32,
        PacketFlagsV2::new(PacketFlagsV2::ENCRYPTED),
    );
    let p = PhantomPacketV2::new(header, vec![0u8; PATH_CHALLENGE_LEN]);
    let parsed = parse_path_validation(&p).expect("no error");
    assert!(parsed.is_none());
}

#[test]
fn parse_errors_on_wrong_payload_length() {
    let header = PacketHeaderV2::new(
        fixed_session_id(),
        0u16,
        0u32,
        PacketFlagsV2::new(PacketFlagsV2::PATH_VALIDATION),
    );
    let p = PhantomPacketV2::new(header, vec![0u8; 16]);
    let err = parse_path_validation(&p).expect_err("err");
    assert_eq!(
        err,
        PathValidationParseError::WrongPayloadLength { got: 16 }
    );
}

#[test]
fn challenge_and_response_are_wire_identical() {
    let payload = [0x55; PATH_CHALLENGE_LEN];
    let a = build_path_validation_packet(fixed_session_id(), 1, 5, payload);
    let b = build_path_validation_packet(fixed_session_id(), 1, 5, payload);

    let a = a.into_v2().expect("v2");
    let b = b.into_v2().expect("v2");
    assert_eq!(a.header.session_id.as_bytes(), b.header.session_id.as_bytes());
    assert_eq!(a.header.path_id, b.header.path_id);
    assert_eq!(a.header.sequence, b.header.sequence);
    assert_eq!(a.header.flags, b.header.flags);
    assert_eq!(a.payload, b.payload);
}

#[test]
fn kind_enum_round_trips_for_documentation() {
    assert_ne!(PathValidationKind::Challenge, PathValidationKind::Response);
}

#[test]
fn full_challenge_response_round_trip_via_codec() {
    let mut side_a = PathRegistry::new();
    let side_b = PathRegistry::new();
    let path_id: u8 = 5;

    assert_eq!(side_a.register(path_id), RegistrationResult::Created);
    let challenge = side_a.issue_challenge(path_id).expect("random bytes").expect("challenge issued");
    let session_id = fixed_session_id();

    let outgoing = build_path_validation_packet(session_id, path_id, 0, challenge);
    let v2 = outgoing.into_v2().expect("v2");
    let parsed = parse_path_validation(&v2)
        .expect("ok")
        .expect("flag matched");
    assert_eq!(parsed.path_id, path_id);
    assert_eq!(parsed.payload, challenge);

    let response = build_path_validation_packet(session_id, path_id, 0, parsed.payload);
    let v2_echoed = response.into_v2().expect("v2");
    let echoed_parsed = parse_path_validation(&v2_echoed)
        .expect("ok")
        .expect("flag matched");

    let accepted = side_a.verify_response(echoed_parsed.path_id, &echoed_parsed.payload);
    assert!(accepted, "responder's echo must validate");
    assert_eq!(side_a.state(path_id), Some(PathStateKind::Validated));

    let _ = side_b;
}

#[test]
fn tampered_response_fails_validation() {
    let mut validator = PathRegistry::new();
    validator.register(2);
    let challenge = validator.issue_challenge(2).expect("random bytes").expect("challenge");

    let mut tampered = challenge;
    tampered[7] ^= 0xFF;
    let pkt = build_path_validation_packet(fixed_session_id(), 2, 0, tampered);
    let v2 = pkt.into_v2().unwrap();
    let parsed = parse_path_validation(&v2).unwrap().unwrap();

    assert!(!validator.verify_response(parsed.path_id, &parsed.payload));
    assert_eq!(validator.state(2), Some(PathStateKind::Failed));
}

#[test]
fn validation_error_has_a_text() {
    let text = PathValidationParseError::WrongPayloadLength { got: 16 }.to_text();
    assert!(text.contains("16"));
}
