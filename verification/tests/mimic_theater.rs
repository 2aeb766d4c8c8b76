//! The imitated prelude.

use bytes::BytesMut;
use phantom_transport::errors::CoreError;
use phantom_transport::legs::mimic_tls::leg::{
    black_hole_remaining_ms, records_for_send, HelloWait, MimicConfig, RecordRun,
    PRELUDE_DEADLINE_MS, SEND_CAP,
};
use phantom_transport::legs::mimic_tls::record::{
    FramePhase, CT_APPLICATION_DATA, CT_CHANGE_CIPHER_SPEC, CT_HANDSHAKE,
    MAX_RECORD_FRAGMENT_WIRE, TLS_RECORD_HEADER_LEN,
};
use phantom_transport::legs::mimic_tls::server_hello::{parse_client_hello, ParsedClientHello};
use phantom_transport::legs::mimic_tls::theater::{
    client_finished_flight, client_finished_flight_from, client_finished_types,
    client_hello_record, close_notify_from, close_notify_record, rand_len, server_flight,
    server_flight_from, server_flight_types, take_record, OPAQUE_FLIGHT_MAX,
    OPAQUE_FLIGHT_MIN, TICKET_MAX, TICKET_MIN,
};

fn record_type(buf: &[u8]) -> u8 {
    buf[0]
}
fn record_total_len(buf: &[u8]) -> usize {
    TLS_RECORD_HEADER_LEN + u16::from_be_bytes([buf[3], buf[4]]) as usize
}

#[test]
fn full_prelude_round_trip() {
    let ch_rec = client_hello_record("round.trip.test").expect("ch record");
    assert_eq!(record_type(&ch_rec), CT_HANDSHAKE);
    assert_eq!(&ch_rec[1..3], &[0x03, 0x01], "CH record version is 0x0301");

    let mut server_in = BytesMut::from(&ch_rec[..]);
    let ch_frag = take_record(&mut server_in, CT_HANDSHAKE)
        .expect("take")
        .expect("complete CH");
    assert!(server_in.is_empty());
    let parsed = parse_client_hello(&ch_frag).expect("parse CH");

    let flight = server_flight(&parsed).expect("server flight");

    let mut client_in = BytesMut::from(&flight[..]);
    let sh_frag = take_record(&mut client_in, CT_HANDSHAKE)
        .expect("take SH")
        .expect("SH complete");
    for t in &server_flight_types()[1..] {
        take_record(&mut client_in, *t)
            .expect("take flight record")
            .expect("flight record complete");
    }
    assert!(
        client_in.is_empty(),
        "exactly the four flight records consumed"
    );

    assert_eq!(record_type(&flight), CT_HANDSHAKE);
    assert_eq!(sh_frag[0], 0x02, "ServerHello handshake type");

    let fin = client_finished_flight().expect("client finished");
    let mut server_in2 = BytesMut::from(&fin[..]);
    for t in &client_finished_types() {
        take_record(&mut server_in2, *t)
            .expect("take finished record")
            .expect("finished record complete");
    }
    assert!(server_in2.is_empty());
}

#[test]
fn change_cipher_spec_is_the_canonical_six_bytes() {
    let fin = client_finished_flight().expect("finished");
    assert_eq!(&fin[..6], &[0x14, 0x03, 0x03, 0x00, 0x01, 0x01]);
}

#[test]
fn server_flight_record_types_and_versions() {
    let parsed = ParsedClientHello {
        legacy_session_id: vec![0u8; 32],
        cipher_suites: vec![0x1301],
        supported_groups: vec![0x001d],
        key_share_groups: vec![0x001d],
    };
    let flight = server_flight(&parsed).expect("flight");
    let mut buf = &flight[..];
    let mut seen = Vec::new();
    while buf.len() >= TLS_RECORD_HEADER_LEN {
        seen.push(record_type(buf));
        assert_eq!(&buf[1..3], &[0x03, 0x03], "flight record version 0x0303");
        let total = record_total_len(buf);
        buf = &buf[total..];
    }
    assert_eq!(seen, server_flight_types());
}

#[test]
fn take_record_waits_for_a_full_record() {
    let rec = close_notify_record().expect("rec");
    let mut buf = BytesMut::new();
    buf.extend_from_slice(&rec[..rec.len() - 1]);
    assert!(take_record(&mut buf, CT_APPLICATION_DATA)
        .expect("no error mid-dribble")
        .is_none());
    buf.extend_from_slice(&rec[rec.len() - 1..]);
    assert!(take_record(&mut buf, CT_APPLICATION_DATA)
        .expect("parse")
        .is_some());
}

#[test]
fn take_record_rejects_wrong_type() {
    let ch_rec = client_hello_record("x.test").expect("ch");
    let mut buf = BytesMut::from(&ch_rec[..]);
    assert!(take_record(&mut buf, CT_APPLICATION_DATA).is_err());
}

#[test]
fn take_record_rejects_oversized_declared() {
    let mut buf = BytesMut::from(&[CT_HANDSHAKE, 0x03, 0x01, 0xFF, 0xFF, 0x00][..]);
    assert!(take_record(&mut buf, CT_HANDSHAKE).is_err());
}

#[test]
fn opaque_record_sizes_are_in_range() {
    let parsed = ParsedClientHello {
        legacy_session_id: vec![0u8; 32],
        cipher_suites: vec![0x1301],
        supported_groups: vec![0x001d],
        key_share_groups: vec![0x001d],
    };
    for _ in 0..32 {
        let flight = server_flight(&parsed).expect("flight");
        let mut buf = &flight[..];
        buf = &buf[record_total_len(buf)..];
        assert_eq!(record_type(buf), CT_CHANGE_CIPHER_SPEC);
        buf = &buf[record_total_len(buf)..];
        let opaque_len = record_total_len(buf) - TLS_RECORD_HEADER_LEN;
        assert!((OPAQUE_FLIGHT_MIN..=OPAQUE_FLIGHT_MAX).contains(&opaque_len));
        buf = &buf[record_total_len(buf)..];
        let ticket_len = record_total_len(buf) - TLS_RECORD_HEADER_LEN;
        assert!((TICKET_MIN..=TICKET_MAX).contains(&ticket_len));
    }
}

#[test]
fn rand_len_handles_min_equals_max() {
    assert_eq!(rand_len(12345, 42, 42), 42);
}

#[test]
fn rand_len_stays_in_range() {
    for draw in [0u64, 1, 49, 50, 51, u64::MAX] {
        let n = rand_len(draw, 100, 150);
        assert!((100..=150).contains(&n));
    }
    assert_eq!(rand_len(51, 100, 150), 100);
    assert_eq!(rand_len(50, 100, 150), 150);
}

#[test]
fn prelude_state_machines_meet() {
    let config = MimicConfig::new("cover.example.com".to_string());
    let hello = client_hello_record(&config.sni).expect("hello");
    let mut server = HelloWait::new();
    let (first, second) = hello.split_at(40);
    assert!(server.feed(first).expect("no error").is_none());
    let parsed = server.feed(second).expect("no error").expect("a hello");
    let flight = server_flight(&parsed).expect("flight");

    let mut client = RecordRun::server_flight();
    let mut done = false;
    for b in flight.chunks(100) {
        assert!(!done);
        done = client.feed(b).expect("no error");
    }
    assert!(done);
    let mut client_in = client.into_deframer();

    let mut finished = server.into_finished_run();
    assert!(finished
        .feed(&client_finished_flight().expect("finished"))
        .expect("no error"));
    let mut server_in = finished.into_deframer();

    client_in.set_phase(FramePhase::Established);
    server_in.set_phase(FramePhase::Established);
    let big = vec![0x5au8; 40_000];
    for message in [b"hello from client".to_vec(), big] {
        let wire = records_for_send(&message).expect("records");
        server_in.push(&wire);
        assert_eq!(server_in.next_message().expect("no error"), Some(message.clone()));
        client_in.push(&wire);
        assert_eq!(client_in.next_message().expect("no error"), Some(message));
    }
}

#[test]
fn garbage_prelude_is_refused() {
    let mut server = HelloWait::new();
    assert!(server.feed(b"GET / HTTP/1.1\r\nHost: x\r\n\r\n").is_err());
    assert_eq!(black_hole_remaining_ms(400), PRELUDE_DEADLINE_MS - 400);
    assert_eq!(black_hole_remaining_ms(PRELUDE_DEADLINE_MS + 1), 0);
    assert!(records_for_send(&vec![0u8; SEND_CAP + 1]).is_err());
}

#[test]
fn hello_above_the_record_bound_is_refused() {
    let fits = "n".repeat(MAX_RECORD_FRAGMENT_WIRE - 1512);
    let rec = client_hello_record(&fits).expect("record");
    assert_eq!(rec.len(), TLS_RECORD_HEADER_LEN + MAX_RECORD_FRAGMENT_WIRE);
    assert_eq!(record_total_len(&rec), rec.len());
    let above = "n".repeat(MAX_RECORD_FRAGMENT_WIRE - 1511);
    match client_hello_record(&above) {
        Err(CoreError::NetworkError(m)) => {
            assert_eq!(m, "TLS record fragment too large: 16641 > 16640")
        }
        _ => panic!("a network error"),
    }
}

#[test]
fn opaque_records_carry_what_was_drawn() {
    assert_eq!(close_notify_from(&[9, 8]), vec![0x17, 3, 3, 0, 2, 9, 8]);
    assert_eq!(
        client_finished_flight_from(&[7]),
        vec![0x14, 3, 3, 0, 1, 1, 0x17, 3, 3, 0, 1, 7]
    );
    assert_eq!(
        server_flight_from(&[1], &[2, 3], &[4]).expect("flight"),
        vec![
            0x16, 3, 3, 0, 1, 1, 0x14, 3, 3, 0, 1, 1, 0x17, 3, 3, 0, 2, 2, 3, 0x17, 3, 3, 0, 1, 4
        ]
    );
    let above = vec![0u8; MAX_RECORD_FRAGMENT_WIRE + 1];
    match server_flight_from(&above, &[], &[]) {
        Err(CoreError::NetworkError(m)) => {
            assert_eq!(m, "TLS record fragment too large: 16641 > 16640")
        }
        _ => panic!("a network error"),
    }
}

#[test]
fn refused_record_stays_in_front() {
    let mut run = RecordRun::server_flight();
    let mut wire = vec![0x16, 3, 3, 0, 1, 1, 0x17, 3, 3, 0, 1, 1];
    assert!(run.feed(&wire).is_err());
    assert!(run.feed(&[]).is_err(), "the same record is refused again");
    wire[6] = 0x14;
    let mut run = RecordRun::server_flight();
    assert!(!run.feed(&wire).expect("two records"));
}
