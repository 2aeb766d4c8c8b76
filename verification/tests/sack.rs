//! Selective acknowledgements.

use phantom_transport::sack::{Sack, SackError, MAX_SACK_RANGES};

const FIXED_HDR_LEN: usize = 10;
const CONTINUATION_BYTES: usize = 8;

#[derive(Debug)]
struct Shown(SackError);

impl std::fmt::Display for Shown {
    fn fmt(&self, f: &mut std::fmt::Formatter<'_>) -> std::fmt::Result {
        f.write_str(&self.0.to_text())
    }
}

impl std::error::Error for Shown {}

#[test]
fn coalesces_to_descending_ranges() {
    let sack = Sack::from_received(&[5, 6, 7, 10, 11, 3], 0).unwrap();
    assert_eq!(sack.largest_acked, 11);
    assert_eq!((sack.largest_acked(), sack.ack_delay_us()), (11, 0));
    assert_eq!(sack.ranges(), &[(10, 11), (5, 7), (3, 3)]);
}

#[test]
fn from_received_empty_returns_none() {
    assert!(Sack::from_received(&[], 42).is_none());
}

#[test]
fn from_received_single_seq() {
    let sack = Sack::from_received(&[7], 100).unwrap();
    assert_eq!(sack.largest_acked, 7);
    assert_eq!(sack.ranges(), &[(7, 7)]);
}

#[test]
fn from_received_contiguous() {
    let input: Vec<u32> = (0..=9).collect();
    let sack = Sack::from_received(&input, 0).unwrap();
    assert_eq!(sack.largest_acked, 9);
    assert_eq!(sack.ranges(), &[(0, 9)]);
}

#[test]
fn from_received_duplicate_seqs_coalesced() {
    let sack = Sack::from_received(&[3, 3, 3, 5, 5], 0).unwrap();
    assert_eq!(sack.ranges(), &[(5, 5), (3, 3)]);
}

#[test]
fn from_received_caps_ranges_to_max_and_stays_decodable() {
    let seqs: Vec<u32> = (0u32..40).map(|i| i * 2).collect();
    let sack = Sack::from_received(&seqs, 0).expect("non-empty");
    assert!(
        sack.ranges().len() <= MAX_SACK_RANGES,
        "generated SACK must be capped to MAX_SACK_RANGES, got {}",
        sack.ranges().len()
    );
    assert_eq!(sack.largest_acked, 78);
    assert_eq!(sack.ranges().len(), MAX_SACK_RANGES);
    assert_eq!(sack.ranges()[0], (78, 78));
    assert_eq!(sack.ranges()[MAX_SACK_RANGES - 1], (16, 16));
    let wire = sack.to_wire();
    let decoded = Sack::from_wire(&wire).expect("a capped SACK must decode at the peer");
    assert_eq!(decoded, sack);
}

#[test]
fn from_inclusive_ranges_caps_and_keeps_highest() {
    let asc: Vec<(u32, u32)> = (0u32..40).map(|i| (i * 2, i * 2)).collect();
    let sack = Sack::from_inclusive_ranges(asc, 7).expect("non-empty");
    assert_eq!(sack.ack_delay_us, 7);
    assert_eq!(sack.ranges().len(), MAX_SACK_RANGES);
    assert_eq!(sack.largest_acked, 78);
    assert_eq!(sack.ranges()[0], (78, 78));
    assert_eq!(Sack::from_wire(&sack.to_wire()).expect("decode"), sack);
}

#[test]
fn from_inclusive_ranges_coalesces_and_orders() {
    let sack = Sack::from_inclusive_ranges(vec![(6, 7), (0, 1), (4, 5)], 0).expect("non-empty");
    assert_eq!(sack.ranges(), &[(4, 7), (0, 1)]);
    assert_eq!(sack.largest_acked, 7);
    assert_eq!(Sack::from_wire(&sack.to_wire()).expect("decode"), sack);
}

#[test]
fn from_inclusive_ranges_empty_is_none() {
    assert!(Sack::from_inclusive_ranges(Vec::new(), 0).is_none());
}

#[test]
fn roundtrip_multi_gap() {
    let sack =
        Sack::from_received(&[20, 21, 22, 23, 24, 25, 10, 11, 12, 13, 1, 2, 3], 1234).unwrap();
    assert_eq!(sack.ranges(), &[(20, 25), (10, 13), (1, 3)]);
    let wire = sack.to_wire();
    let decoded = Sack::from_wire(&wire).expect("should decode");
    assert_eq!(decoded, sack);
}

#[test]
fn roundtrip_single_contiguous() {
    let sack = Sack::from_received(&(0u32..=9).collect::<Vec<_>>(), 0).unwrap();
    assert_eq!(sack.ranges(), &[(0, 9)]);
    let wire = sack.to_wire();
    let decoded = Sack::from_wire(&wire).expect("roundtrip single");
    assert_eq!(decoded, sack);
}

#[test]
fn roundtrip_degenerate_single_seq() {
    let sack = Sack::from_received(&[42], 999).unwrap();
    assert_eq!(sack.largest_acked, 42);
    let wire = sack.to_wire();
    let decoded = Sack::from_wire(&wire).expect("roundtrip single seq");
    assert_eq!(decoded, sack);
}

#[test]
fn roundtrip_from_received_coalesced() {
    let input = [5u32, 6, 7, 10, 11, 3];
    let sack = Sack::from_received(&input, 500).unwrap();
    let wire = sack.to_wire();
    let decoded = Sack::from_wire(&wire).expect("from_received roundtrip");
    assert_eq!(decoded, sack);
}

#[test]
fn roundtrip_preserves_ack_delay() {
    let sack = Sack::from_received(&[1, 2, 3], 0xDEAD_BEEF).unwrap();
    let wire = sack.to_wire();
    let decoded = Sack::from_wire(&wire).expect("roundtrip ack_delay");
    assert_eq!(decoded.ack_delay_us, 0xDEAD_BEEF);
}

#[test]
fn roundtrip_large_span_exceeds_u16() {
    let seqs: Vec<u32> = (0u32..=100_000).collect();
    let sack = Sack::from_received(&seqs, 0).unwrap();
    assert_eq!(sack.largest_acked, 100_000);
    assert_eq!(sack.ranges(), &[(0, 100_000)]);
    let wire = sack.to_wire();
    let decoded = Sack::from_wire(&wire).expect("large span must round-trip");
    assert_eq!(decoded, sack);
    let first_len_wire = u32::from_be_bytes([wire[10], wire[11], wire[12], wire[13]]);
    assert_eq!(first_len_wire, 100_000u32);
}

#[test]
fn roundtrip_large_gap_exceeds_u16() {
    let sack = Sack::from_received(&[200_000u32, 0], 0).unwrap();
    assert_eq!(sack.ranges(), &[(200_000, 200_000), (0, 0)]);
    let wire = sack.to_wire();
    let decoded = Sack::from_wire(&wire).expect("large gap must round-trip");
    assert_eq!(decoded, sack);
    let gap_wire = u32::from_be_bytes([wire[14], wire[15], wire[16], wire[17]]);
    assert_eq!(gap_wire, 199_999u32);
}

#[test]
fn decode_gap_zero_is_malformed() {
    let mut buf = vec![0u8; 22];
    buf[0..4].copy_from_slice(&10u32.to_be_bytes());
    buf[4..8].copy_from_slice(&0u32.to_be_bytes());
    buf[8..10].copy_from_slice(&2u16.to_be_bytes());
    buf[10..14].copy_from_slice(&0u32.to_be_bytes());
    buf[14..18].copy_from_slice(&0u32.to_be_bytes());
    buf[18..22].copy_from_slice(&0u32.to_be_bytes());
    assert!(
        matches!(Sack::from_wire(&buf), Err(SackError::Malformed)),
        "gap == 0 must be rejected as Malformed"
    );
}

#[test]
fn acks_correctness_across_gaps() {
    let sack = Sack::from_received(&[5, 6, 7, 10, 11, 3], 0).unwrap();

    for seq in [3u32, 5, 6, 7, 10, 11] {
        assert!(sack.acks(seq), "expected seq {seq} to be ACKed");
    }
    for seq in [0u32, 1, 2, 4, 8, 9, 12, 100] {
        assert!(!sack.acks(seq), "expected seq {seq} to NOT be ACKed");
    }
}

#[test]
fn acks_single_seq() {
    let sack = Sack::from_received(&[99], 0).unwrap();
    assert!(sack.acks(99));
    assert!(!sack.acks(98));
    assert!(!sack.acks(100));
}

#[test]
fn decode_truncated_too_short() {
    let buf = [0u8; 13];
    assert!(
        matches!(Sack::from_wire(&buf), Err(SackError::Truncated)),
        "expected Truncated for 13-byte buffer"
    );
}

#[test]
fn decode_truncated_claimed_ranges_exceed_buffer() {
    let mut buf = vec![0u8; 14];
    buf[0..4].copy_from_slice(&10u32.to_be_bytes());
    buf[4..8].copy_from_slice(&0u32.to_be_bytes());
    buf[8..10].copy_from_slice(&2u16.to_be_bytes());
    buf[10..14].copy_from_slice(&0u32.to_be_bytes());
    assert!(
        matches!(Sack::from_wire(&buf), Err(SackError::Truncated)),
        "expected Truncated when buffer too small for claimed ranges"
    );
}

#[test]
fn decode_too_many_ranges() {
    let bad_count = (MAX_SACK_RANGES + 1) as u16;
    let needed = FIXED_HDR_LEN + 4 + CONTINUATION_BYTES * MAX_SACK_RANGES;
    let mut buf = vec![0u8; needed + CONTINUATION_BYTES];
    buf[0..4].copy_from_slice(&u32::MAX.to_be_bytes());
    buf[4..8].copy_from_slice(&0u32.to_be_bytes());
    buf[8..10].copy_from_slice(&bad_count.to_be_bytes());
    assert!(
        matches!(Sack::from_wire(&buf), Err(SackError::TooManyRanges)),
        "expected TooManyRanges for range_count = MAX+1"
    );
}

#[test]
fn decode_zero_range_count_is_malformed() {
    let mut buf = vec![0u8; 14];
    buf[8..10].copy_from_slice(&0u16.to_be_bytes());
    assert!(
        matches!(Sack::from_wire(&buf), Err(SackError::Malformed)),
        "expected Malformed for range_count == 0"
    );
}

#[test]
fn decode_first_len_underflow_is_malformed() {
    let mut buf = vec![0u8; 14];
    buf[0..4].copy_from_slice(&3u32.to_be_bytes());
    buf[4..8].copy_from_slice(&0u32.to_be_bytes());
    buf[8..10].copy_from_slice(&1u16.to_be_bytes());
    buf[10..14].copy_from_slice(&5u32.to_be_bytes());
    assert!(
        matches!(Sack::from_wire(&buf), Err(SackError::Malformed)),
        "expected Malformed when first_len underflows"
    );
}

#[test]
fn decode_continuation_gap_underflow_is_malformed() {
    let mut buf = vec![0u8; 22];
    buf[0..4].copy_from_slice(&5u32.to_be_bytes());
    buf[4..8].copy_from_slice(&0u32.to_be_bytes());
    buf[8..10].copy_from_slice(&2u16.to_be_bytes());
    buf[10..14].copy_from_slice(&0u32.to_be_bytes());
    buf[14..18].copy_from_slice(&10u32.to_be_bytes());
    buf[18..22].copy_from_slice(&0u32.to_be_bytes());
    assert!(
        matches!(Sack::from_wire(&buf), Err(SackError::Malformed)),
        "expected Malformed when continuation gap underflows"
    );
}

#[test]
fn wire_size_1_range() {
    let sack = Sack::from_received(&[5], 0).unwrap();
    assert_eq!(sack.to_wire().len(), 14);
}

#[test]
fn wire_size_2_ranges() {
    let sack = Sack::from_received(&[8, 9, 10, 3, 4, 5], 0).unwrap();
    assert_eq!(sack.ranges(), &[(8, 10), (3, 5)]);
    assert_eq!(sack.to_wire().len(), 22);
}

#[test]
fn wire_size_n_ranges() {
    let mut seqs: Vec<u32> = Vec::new();
    for i in 0u32..5 {
        for s in (i * 20)..(i * 20 + 10) {
            seqs.push(s);
        }
    }
    let sack = Sack::from_received(&seqs, 0).unwrap();
    let n = sack.ranges().len();
    assert_eq!(n, 5);
    assert_eq!(sack.to_wire().len(), 10 + 4 + 8 * (n - 1));
}

#[test]
fn sack_error_display_is_non_empty() {
    for e in [
        SackError::Truncated,
        SackError::TooManyRanges,
        SackError::Malformed,
    ] {
        let s = e.to_text();
        assert!(!s.is_empty(), "Display must not be empty for {e:?}");
    }
}

#[test]
fn sack_error_is_std_error() {
    let e: &dyn std::error::Error = &Shown(SackError::Truncated);
    assert!(e.source().is_none());
}

#[test]
fn decoded_prefix_ignores_what_follows() {
    let sack = Sack::from_received(&[1, 2, 9], 3).unwrap();
    let mut wire = sack.to_wire();
    wire.extend_from_slice(&[1, 2, 3]);
    assert_eq!(Sack::from_wire(&wire), Ok(sack));
}

#[test]
fn builders_agree_on_the_same_numbers() {
    let numbers = Sack::from_received(&[9, 1, 2, 3, 8, 2, 20], 7).unwrap();
    let ranges = Sack::from_inclusive_ranges(vec![(2, 3), (20, 20), (1, 2), (8, 9)], 7).unwrap();
    assert_eq!(numbers, ranges);
    assert_eq!(ranges.ranges(), &[(20, 20), (8, 9), (1, 3)]);
}
