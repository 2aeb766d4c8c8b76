//! Coalescing of packets into datagrams.

use phantom_transport::packet_coalescer::{
    CoalescerConfig, Decoalescer, PacketCoalescer, DEFAULT_MAX_DATAGRAM,
};
use std::time::Instant;

#[test]
fn round_trip_single() {
    let mut c = PacketCoalescer::new(CoalescerConfig::default());
    c.push(b"hello", 0);
    let datagram = c.flush().unwrap();
    let mut dec = Decoalescer::new(&datagram).unwrap();
    assert_eq!(dec.next(), Some(b"hello".as_slice()));
    assert_eq!(dec.next(), None);
}

#[test]
fn round_trip_multiple() {
    let mut c = PacketCoalescer::new(CoalescerConfig::default());
    c.push(b"aaa", 0);
    c.push(b"bbbbb", 0);
    c.push(b"cc", 0);
    let datagram = c.flush().unwrap();
    let mut dec = Decoalescer::new(&datagram).unwrap();
    assert_eq!(dec.next(), Some(b"aaa".as_slice()));
    assert_eq!(dec.next(), Some(b"bbbbb".as_slice()));
    assert_eq!(dec.next(), Some(b"cc".as_slice()));
    assert_eq!(dec.next(), None);
}

#[test]
fn auto_flush_on_full() {
    let config = CoalescerConfig {
        max_datagram_size: 20,
        ..Default::default()
    };
    let mut c = PacketCoalescer::new(config);
    assert!(c.push(b"AAAAA", 0).is_none());
    assert!(c.push(b"BBBBB", 0).is_none());
    let flushed = c.push(b"CCCCC", 0);
    assert!(flushed.is_some());

    let d = flushed.unwrap();
    let mut dec = Decoalescer::new(&d).unwrap();
    assert_eq!(dec.next(), Some(b"AAAAA".as_slice()));
    assert_eq!(dec.next(), Some(b"BBBBB".as_slice()));

    let d2 = c.flush().unwrap();
    let mut dec2 = Decoalescer::new(&d2).unwrap();
    assert_eq!(dec2.next(), Some(b"CCCCC".as_slice()));
}

#[test]
fn default_config_never_exceeds_path_mtu() {
    let mut c = PacketCoalescer::new(CoalescerConfig::default());
    let small = vec![0xCCu8; 50];
    let mut datagrams: Vec<Vec<u8>> = Vec::new();

    for _ in 0..200 {
        if let Some(d) = c.push(&small, 0) {
            datagrams.push(d);
        }
    }
    if let Some(d) = c.flush() {
        datagrams.push(d);
    }

    assert!(
        !datagrams.is_empty(),
        "expected at least one flushed datagram"
    );
    for (i, d) in datagrams.iter().enumerate() {
        assert!(
            d.len() <= DEFAULT_MAX_DATAGRAM,
            "datagram {i} is {} bytes — exceeds DEFAULT_MAX_DATAGRAM ({})",
            d.len(),
            DEFAULT_MAX_DATAGRAM,
        );
    }
}

#[test]
fn throughput_bench() {
    let config = CoalescerConfig {
        max_datagram_size: 65507,
        max_packets: 256,
        ..Default::default()
    };
    let mut c = PacketCoalescer::new(config);
    let packet = vec![0xABu8; 1024];
    let total_packets = 100_000;
    let mut datagrams = 0usize;
    let mut _total_bytes = 0usize;

    let start = Instant::now();
    for _ in 0..total_packets {
        if let Some(d) = c.push(&packet, 0) {
            datagrams += 1;
            _total_bytes += d.len();
        }
    }
    if let Some(d) = c.flush() {
        datagrams += 1;
        _total_bytes += d.len();
    }
    let elapsed = start.elapsed();

    let mib_s = (total_packets * 1024) as f64 / 1_048_576.0 / elapsed.as_secs_f64();
    assert!(mib_s > 1000.0, "Coalescer too slow: {:.0} MiB/s", mib_s);
}

#[test]
fn bundle_layout_is_exact() {
    let mut c = PacketCoalescer::new(CoalescerConfig::default());
    assert!(c.push(b"ab", 0).is_none());
    assert!(c.push(b"c", 0).is_none());
    assert_eq!(c.pending_count(), 2);
    assert_eq!(c.pending_bytes(), 7);
    assert_eq!(c.flush(), Some(vec![0, 2, 0, 2, b'a', b'b', 0, 1, b'c']));
    assert_eq!(c.pending_count(), 0);
    assert_eq!(c.flush(), None);
}

#[test]
fn old_bundle_is_due() {
    let mut c = PacketCoalescer::new(CoalescerConfig::default());
    assert!(!c.should_flush(u64::MAX));
    assert!(c.push(b"ab", 1_000).is_none());
    assert!(!c.should_flush(1_000));
    assert!(c.should_flush(u64::MAX));
}

#[test]
fn only_a_lone_packet_exceeds_the_limits() {
    let config = CoalescerConfig {
        max_datagram_size: 20,
        flush_timeout_us: 500,
        max_packets: 2,
    };
    let mut c = PacketCoalescer::new(config);
    assert!(c.push(&[1; 40], 5).is_none());
    assert_eq!(c.pending_count(), 1);
    assert!(c.should_flush(505));
    let alone = c.push(&[2; 3], 10).expect("the large packet");
    assert_eq!(alone.len(), 44);
    assert!(c.push(&[3; 3], 11).is_none());
    let full = c.push(&[4; 3], 12).expect("two packets");
    assert!(full.len() <= 20);
    assert_eq!(c.pending_count(), 1);
}
