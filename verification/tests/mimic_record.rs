//! TLS records.

use phantom_transport::errors::CoreError;
use phantom_transport::legs::mimic_tls::record::{
    encode_record, frame_message, FramePhase, RecordDeframer, CT_APPLICATION_DATA, CT_HANDSHAKE,
    MAX_CONSECUTIVE_EMPTY, TLS_RECORD_HEADER_LEN, VER_TLS12,
};

fn padded_record(chunk: &[u8], pad: usize) -> Vec<u8> {
    let mut fragment = Vec::new();
    fragment.extend_from_slice(&(chunk.len() as u16).to_be_bytes());
    fragment.extend_from_slice(chunk);
    fragment.extend(std::iter::repeat(0u8).take(pad));
    let mut out = Vec::new();
    encode_record(CT_APPLICATION_DATA, VER_TLS12, &fragment, &mut out).expect("encode");
    out
}

#[test]
fn round_trip_single_message() {
    let msg = b"hello phantom over tls";
    let wire = frame_message(msg).expect("frame");
    let mut d = RecordDeframer::new();
    d.push(&wire);
    let got = d.next_message().expect("parse").expect("one message");
    assert_eq!(&got[..], msg);
    assert!(
        d.next_message().expect("parse").is_none(),
        "no second message"
    );
}

#[test]
fn round_trip_multiple_messages_concatenated() {
    let mut wire = Vec::new();
    wire.extend_from_slice(&frame_message(b"first").expect("f1"));
    wire.extend_from_slice(&frame_message(b"second").expect("f2"));
    wire.extend_from_slice(&frame_message(b"third").expect("f3"));
    let mut d = RecordDeframer::new();
    d.push(&wire);
    assert_eq!(&d.next_message().expect("p").expect("m1")[..], b"first");
    assert_eq!(&d.next_message().expect("p").expect("m2")[..], b"second");
    assert_eq!(&d.next_message().expect("p").expect("m3")[..], b"third");
    assert!(d.next_message().expect("p").is_none());
}

#[test]
fn round_trip_empty_message() {
    let wire = frame_message(b"").expect("frame empty");
    let mut d = RecordDeframer::new();
    d.push(&wire);
    let got = d.next_message().expect("parse").expect("empty message");
    assert_eq!(got.len(), 0);
}

#[test]
fn round_trip_large_message_spans_multiple_records() {
    let msg: Vec<u8> = (0..40_000u32).map(|i| (i % 251) as u8).collect();
    let wire = frame_message(&msg).expect("frame");
    let record_count = count_records(&wire);
    assert!(record_count >= 3, "expected ≥3 records, got {record_count}");
    let mut d = RecordDeframer::new();
    d.set_phase(FramePhase::Established);
    d.push(&wire);
    let got = d.next_message().expect("parse").expect("message");
    assert_eq!(got.len(), msg.len());
    assert_eq!(&got[..], &msg[..]);
}

#[test]
fn dribble_one_byte_at_a_time_reassembles() {
    let msg = b"dribbled across many tiny reads";
    let wire = frame_message(msg).expect("frame");
    let mut d = RecordDeframer::new();
    for b in &wire {
        assert!(
            d.next_message()
                .expect("parse must not error mid-dribble")
                .is_none(),
            "no message should complete before the last byte is pushed"
        );
        d.push(std::slice::from_ref(b));
    }
    let got = d
        .next_message()
        .expect("parse")
        .expect("message after full dribble");
    assert_eq!(&got[..], msg);
}

#[test]
fn oversized_declared_record_rejected() {
    let wire = [0x17u8, 0x03, 0x03, 0xFF, 0xFF, 0x00, 0x00, 0x00];
    let mut d = RecordDeframer::new();
    d.push(&wire);
    let err = d
        .next_message()
        .expect_err("must reject oversized declared record");
    assert!(matches!(err, CoreError::NetworkError(_)));
}

#[test]
fn oversized_inner_message_rejected_in_handshake_phase() {
    let big = vec![0u8; 100 * 1024];
    let wire = frame_message(&big).expect("frame");
    let mut d = RecordDeframer::new();
    d.push(&wire);
    let err = d
        .next_message()
        .expect_err("must reject an oversized inner message in handshake phase");
    assert!(matches!(err, CoreError::NetworkError(_)));
}

#[test]
fn established_phase_accepts_larger_message() {
    let big = vec![0x5au8; 100 * 1024];
    let wire = frame_message(&big).expect("frame");
    let mut d = RecordDeframer::new();
    d.set_phase(FramePhase::Established);
    d.push(&wire);
    let got = d.next_message().expect("parse").expect("message");
    assert_eq!(got.len(), big.len());
}

#[test]
fn empty_record_flood_is_bounded() {
    let mut d = RecordDeframer::new();
    let empty_record = [CT_APPLICATION_DATA, 0x03, 0x03, 0x00, 0x00];
    for _ in 0..(MAX_CONSECUTIVE_EMPTY + 2) {
        d.push(&empty_record);
    }
    let err = d
        .next_message()
        .expect_err("must reject an empty-record flood");
    assert!(matches!(err, CoreError::NetworkError(_)));
}

#[test]
fn encode_rejects_oversized_fragment() {
    let huge = vec![0u8; 70_000];
    let mut out = Vec::new();
    let err = encode_record(CT_APPLICATION_DATA, VER_TLS12, &huge, &mut out)
        .expect_err("must reject an oversized fragment");
    assert!(matches!(err, CoreError::NetworkError(_)));
    assert!(out.is_empty(), "nothing written on the error path");
}

#[test]
fn non_application_data_content_type_rejected() {
    let mut wire = Vec::new();
    encode_record(CT_HANDSHAKE, VER_TLS12, b"\x00\x05hello", &mut wire).expect("encode");
    let mut d = RecordDeframer::new();
    d.push(&wire);
    let err = d
        .next_message()
        .expect_err("must reject 0x16 in the data phase");
    assert!(matches!(err, CoreError::NetworkError(_)));
}

#[test]
fn padded_record_strips_padding() {
    let mut stream = Vec::new();
    stream.extend_from_slice(&3u32.to_be_bytes());
    stream.extend_from_slice(b"PAD");
    let wire = padded_record(&stream, 500);
    assert!(wire.len() > 500);
    let mut d = RecordDeframer::new();
    d.push(&wire);
    let got = d.next_message().expect("parse").expect("message");
    assert_eq!(&got[..], b"PAD");
}

#[test]
fn inner_chunk_len_overrun_rejected() {
    let mut wire = Vec::new();
    let fragment = [0x00u8, 0x10, b'a', b'b', b'c'];
    encode_record(CT_APPLICATION_DATA, VER_TLS12, &fragment, &mut wire).expect("encode");
    let mut d = RecordDeframer::new();
    d.push(&wire);
    let err = d
        .next_message()
        .expect_err("must reject inner chunk_len overrun");
    assert!(matches!(err, CoreError::NetworkError(_)));
}

#[test]
fn reassembly_buffer_is_bounded_by_cap() {
    let mut d = RecordDeframer::new();
    let chunk = vec![0u8; 16_000];
    let mut wire = Vec::new();
    for _ in 0..25 {
        let mut frag = Vec::new();
        frag.extend_from_slice(&(chunk.len() as u16).to_be_bytes());
        frag.extend_from_slice(&chunk);
        encode_record(CT_APPLICATION_DATA, VER_TLS12, &frag, &mut wire).expect("encode");
    }
    d.push(&wire);
    let err = d
        .next_message()
        .expect_err("the reassembly buffer must be bounded by cap, not grow to the fed size");
    assert!(matches!(err, CoreError::NetworkError(_)));
}

#[test]
fn msg_len_prefix_split_across_records() {
    let mut stream = Vec::new();
    stream.extend_from_slice(&2u32.to_be_bytes());
    stream.extend_from_slice(b"hi");
    let mut wire = Vec::new();
    for part in [&stream[0..3], &stream[3..6]] {
        let mut frag = Vec::new();
        frag.extend_from_slice(&(part.len() as u16).to_be_bytes());
        frag.extend_from_slice(part);
        encode_record(CT_APPLICATION_DATA, VER_TLS12, &frag, &mut wire).expect("encode");
    }
    let mut d = RecordDeframer::new();
    d.push(&wire);
    let got = d
        .next_message()
        .expect("parse")
        .expect("message across split prefix");
    assert_eq!(&got[..], b"hi");
}

fn count_records(mut buf: &[u8]) -> usize {
    let mut n = 0;
    while buf.len() >= TLS_RECORD_HEADER_LEN {
        let frag_len = u16::from_be_bytes([buf[3], buf[4]]) as usize;
        let total = TLS_RECORD_HEADER_LEN + frag_len;
        if buf.len() < total {
            break;
        }
        n += 1;
        buf = &buf[total..];
    }
    n
}

#[test]
fn record_layout_is_exact() {
    let mut out = Vec::new();
    encode_record(CT_APPLICATION_DATA, VER_TLS12, b"ab", &mut out).expect("encode");
    assert_eq!(out, vec![0x17, 0x03, 0x03, 0x00, 0x02, b'a', b'b']);
    assert_eq!(
        frame_message(b"m").expect("frame"),
        vec![0x17, 0x03, 0x03, 0x00, 0x07, 0x00, 0x05, 0, 0, 0, 1, b'm']
    );
}

#[test]
fn strict_prefix_of_a_message_is_awaited() {
    let msg = vec![7u8; 40_000];
    let wire = frame_message(&msg).expect("frame");
    for k in [0, 1, 4, 5, 8, 16_389, 16_390, 32_778, wire.len() - 1] {
        let mut d = RecordDeframer::new();
        d.push(&wire[..k]);
        assert!(d.next_message().expect("no fault").is_none());
        d.push(&wire[k..]);
        assert_eq!(d.next_message().expect("no fault"), Some(msg.clone()));
    }
}
