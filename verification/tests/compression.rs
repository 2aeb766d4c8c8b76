//! Adaptive compression.

use phantom_transport::compression::{
    AdaptiveCompressor, CompressionAlgo, CompressionError, CompressionStats,
};
use phantom_transport::metrics::Ratio;
use std::time::Instant;

#[test]
fn no_compression_passthrough() {
    let mut c = AdaptiveCompressor::none();
    let data = b"Hello, world!";
    let (algo, result) = c.compress(data);
    assert_eq!(algo, 0);
    assert_eq!(result, data);
}

#[test]
fn lz4_round_trip() {
    let mut c = AdaptiveCompressor::lz4();
    let data = vec![0u8; 4096];
    let (algo, compressed) = c.compress(&data);
    assert_eq!(algo, CompressionAlgo::Lz4.to_byte());
    assert!(compressed.len() < data.len(), "LZ4 should compress zeros");
    let decompressed = AdaptiveCompressor::decompress(algo, &compressed).unwrap();
    assert_eq!(decompressed, data);
}

#[test]
fn zstd_round_trip() {
    let mut c = AdaptiveCompressor::zstd(1);
    let data: Vec<u8> = (0..2048)
        .map(|i| b"The quick brown fox jumps over the lazy dog. "[i % 45])
        .collect();
    let (algo, compressed) = c.compress(&data);
    assert_eq!(algo, CompressionAlgo::Zstd1.to_byte());
    assert!(compressed.len() < data.len(), "Zstd should compress text");
    let decompressed = AdaptiveCompressor::decompress(algo, &compressed).unwrap();
    assert_eq!(decompressed, data);
}

#[test]
fn skip_tiny_data() {
    let mut c = AdaptiveCompressor::lz4();
    let data = b"tiny";
    let (algo, result) = c.compress(data);
    assert_eq!(algo, 0);
    assert_eq!(result, data);
}

#[test]
fn auto_probe_disable_on_random() {
    let mut c = AdaptiveCompressor::lz4();
    c.set_probe(8, 150);

    for i in 0u32..10 {
        let data: Vec<u8> = (0..256)
            .map(|j| ((i.wrapping_mul(2654435761).wrapping_add(j)) & 0xFF) as u8)
            .collect();
        let _ = c.compress(&data);
    }
    assert!(c.is_disabled_by_probe());
    assert_eq!(c.algorithm(), CompressionAlgo::Off);
}

#[test]
fn lz4_throughput() {
    let data = vec![42u8; 64 * 1024];
    let iters = 10_000;

    let start = Instant::now();
    for _ in 0..iters {
        let c = lz4_flex::compress_prepend_size(&data);
        std::hint::black_box(c);
    }
    let elapsed = start.elapsed();
    let compressed = lz4_flex::compress_prepend_size(&data);
    let start = Instant::now();
    for _ in 0..iters {
        let d = lz4_flex::decompress_size_prepended(&compressed).unwrap();
        std::hint::black_box(d);
    }
    let elapsed = start.elapsed();
}

#[test]
fn zstd_throughput() {
    let data = vec![42u8; 64 * 1024];
    let iters = 5_000;

    let start = Instant::now();
    for _ in 0..iters {
        let c = zstd::encode_all(&data[..], 1).unwrap();
        std::hint::black_box(c);
    }
    let elapsed = start.elapsed();
    let compressed = zstd::encode_all(&data[..], 1).unwrap();
    let start = Instant::now();
    for _ in 0..iters {
        let d = zstd::decode_all(&compressed[..]).unwrap();
        std::hint::black_box(d);
    }
    let elapsed = start.elapsed();
}

#[test]
fn decompress_unknown_algo_fails() {
    let result = AdaptiveCompressor::decompress(0xFF, &[1, 2, 3]);
    assert!(result.is_err());
}

#[test]
fn compression_changes_the_bytes() {
    let data = vec![7u8; 1000];
    for mut c in [AdaptiveCompressor::lz4(), AdaptiveCompressor::zstd(3)] {
        let (algo, out) = c.compress(&data);
        assert_ne!(algo, 0);
        assert_ne!(out, data);
        assert_eq!(AdaptiveCompressor::decompress(algo, &out).unwrap(), data);
        assert_eq!(c.stats().samples, 1);
        assert_eq!(c.stats().total_input, 1000);
        assert_eq!(c.stats().total_output, out.len() as u64);
    }
}

#[test]
fn settle_keeps_what_is_shorter() {
    let mut c = AdaptiveCompressor::lz4();
    assert_eq!(c.settle(b"abcd", vec![1, 2]), (1, vec![1, 2]));
    assert_eq!(c.settle(b"abcd", vec![1, 2, 3, 4]), (0, b"abcd".to_vec()));
    assert_eq!(
        c.stats().ratio(),
        Ratio {
            numerator: 8,
            denominator: 6
        }
    );
    c.set_probe(3, 200);
    assert_eq!(c.settle(b"abcd", vec![1, 2]), (0, b"abcd".to_vec()));
    assert!(!c.is_active());
    c.reset_probe();
    assert!(c.is_active());
    assert_eq!(*c.stats(), CompressionStats::new());
    assert_eq!(
        c.stats().ratio(),
        Ratio {
            numerator: 1,
            denominator: 1
        }
    );
}

#[test]
fn broken_input_is_an_error() {
    let err = AdaptiveCompressor::decompress(1, &[1]).unwrap_err();
    assert!(err.to_text().starts_with("Decompression failed: LZ4: "));
    let err = AdaptiveCompressor::decompress(2, &[1, 2, 3]).unwrap_err();
    assert!(err.to_text().starts_with("Decompression failed: Zstd: "));
    let err = AdaptiveCompressor::decompress(0xFF, &[]).unwrap_err();
    assert!(matches!(err, CompressionError::UnknownAlgorithm(0xFF)));
    assert_eq!(err.to_text(), "Unknown compression algorithm: 0xff");
    assert_eq!(AdaptiveCompressor::decompress(0, b"as is").unwrap(), b"as is");
}

#[test]
fn algorithm_bytes_round_trip() {
    for b in 0..3u8 {
        assert_eq!(CompressionAlgo::from_byte(b).unwrap().to_byte(), b);
    }
    assert!(CompressionAlgo::from_byte(3).is_none());
}

#[test]
fn block_with_an_endless_length_is_told_apart() {
    // A length of 16 843 010 bytes 0xff does not fit 32 bits.
    let mut block = vec![0xffu8; 4 + 1 + 16_843_010];
    block[..5].copy_from_slice(&[16, 0, 0, 0, 0xf0]);
    assert!(!AdaptiveCompressor::can_decompress(1, &block));
    assert!(AdaptiveCompressor::can_decompress(0, &block));
    assert!(AdaptiveCompressor::can_decompress(2, &block));
    block[8_000_000] = 0;
    assert!(AdaptiveCompressor::can_decompress(1, &block));
    assert!(AdaptiveCompressor::decompress(1, &block).is_err());
    block[8_000_000] = 0xff;
    block.truncate(4 + 1 + 16_843_008);
    assert!(AdaptiveCompressor::can_decompress(1, &block));
    assert!(AdaptiveCompressor::decompress(1, &block).is_err());
    assert!(AdaptiveCompressor::can_decompress(1, &[1]));
}

#[test]
fn large_payload_comes_back() {
    let data: Vec<u8> = (0..3_000_000u32).map(|i| (i / 7000) as u8).collect();
    let (algo, out) = AdaptiveCompressor::lz4().compress(&data);
    assert_eq!(algo, 1);
    assert_eq!(out[..4], 3_000_000u32.to_le_bytes());
    assert!(AdaptiveCompressor::can_decompress(algo, &out));
    assert_eq!(AdaptiveCompressor::decompress(algo, &out).unwrap(), data);
}
