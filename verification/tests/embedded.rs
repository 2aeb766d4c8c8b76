//! Frames of the embedded leg.

use phantom_transport::errors::CoreError;
use phantom_transport::legs::embedded::framing::{decode_header, encode_header, FramingError};
use phantom_transport::legs::embedded::{recv_frame, recv_header, send_frame};

#[test]
fn encode_header_writes_big_endian_length() {
    let header = encode_header(0x0102_0304, 0x1000_0000).expect("within capacity");
    assert_eq!(header, [0x01, 0x02, 0x03, 0x04]);
}

#[test]
fn encode_header_rejects_length_over_capacity() {
    let err = encode_header(2000, 1024).expect_err("2000 > 1024 capacity");
    assert_eq!(
        err,
        FramingError::FrameTooLarge {
            len: 2000,
            capacity: 1024
        }
    );
}

#[test]
fn encode_header_rejects_length_over_u32_max() {
    let huge = u32::MAX as usize + 1;
    let err = encode_header(huge, usize::MAX).expect_err("over u32::MAX wire limit");
    assert_eq!(
        err,
        FramingError::FrameTooLarge {
            len: huge,
            capacity: usize::MAX
        }
    );
}

#[test]
fn encode_decode_round_trips() {
    let capacity = 0x1000_0000;
    for len in [0_usize, 1, 255, 0x0102_0304] {
        let header = encode_header(len, capacity).expect("within capacity");
        let decoded = decode_header(&header, capacity).expect("within capacity");
        assert_eq!(decoded, len, "round-trip failed for len {len}");
    }
}

#[test]
fn decode_header_rejects_length_over_capacity() {
    let err = decode_header(&[0x00, 0x00, 0x08, 0x00], 1024).expect_err("2048 > 1024 capacity");
    assert_eq!(
        err,
        FramingError::FrameTooLarge {
            len: 2048,
            capacity: 1024
        }
    );
}

fn text_of<T>(r: Result<T, CoreError>) -> String {
    match r {
        Err(CoreError::NetworkError(m)) => m,
        _ => panic!("a network error"),
    }
}

#[test]
fn send_frame_writes_length_prefixed_payload() {
    let buf = send_frame(b"hello", 1024).expect("send_frame");
    assert_eq!(&buf[..4], &[0x00, 0x00, 0x00, 0x05], "length prefix");
    assert_eq!(&buf[4..], b"hello", "payload");
    assert_eq!(
        text_of(send_frame(b"hello", 4)),
        "framing: FrameTooLarge { len: 5, capacity: 4 }"
    );
}

#[test]
fn recv_frame_reads_length_prefixed_payload() {
    let n = recv_header(Some([0x00, 0x00, 0x00, 0x05]), 1024).expect("header");
    assert_eq!(n, 5);
    let frame = recv_frame(Some(b"world".to_vec())).expect("recv_frame");
    assert_eq!(&frame[..], b"world");
}

#[test]
fn recv_frame_rejects_oversized_header() {
    assert_eq!(
        text_of(recv_header(Some([0x00, 0x00, 0x08, 0x00]), 1024)),
        "framing: FrameTooLarge { len: 2048, capacity: 1024 }"
    );
}

#[test]
fn recv_frame_returns_error_on_eof_mid_header() {
    assert_eq!(text_of(recv_header(None, 1024)), "read header");
    assert_eq!(text_of(recv_frame(None)), "read payload");
}
