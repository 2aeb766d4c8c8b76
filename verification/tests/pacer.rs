//! Token-bucket pacing.

use phantom_transport::clock::Duration;
use phantom_transport::pacer::{Pacer, MAX_BURST_BYTES, MIN_PACING_RATE};

#[test]
fn test_pacer_allows_burst() {
    let mut pacer = Pacer::new(1_000_000);
    assert!(pacer.try_consume(1400, 0));
    assert!(pacer.try_consume(1400, 0));
}

#[test]
fn test_pacer_blocks_when_empty() {
    let mut pacer = Pacer::new(1_024);
    assert!(pacer.try_consume(MAX_BURST_BYTES, 0));
    assert!(!pacer.try_consume(1, 0));
}

#[test]
fn test_pacer_refills_over_time() {
    let mut pacer = Pacer::new(100_000);
    assert!(pacer.try_consume(MAX_BURST_BYTES, 0));
    assert!(!pacer.try_consume(1, 0));

    let available = pacer.available_tokens(50_000_000);
    assert!(
        available > 0,
        "expected tokens after sleep, got {}",
        available
    );
}

#[test]
fn test_pacer_rate_update() {
    let mut pacer = Pacer::new(1_000_000);
    assert_eq!(pacer.rate(), 1_000_000);

    pacer.set_rate(2_000_000);
    assert_eq!(pacer.rate(), 2_000_000);
}

#[test]
fn test_pacer_min_rate() {
    let mut pacer = Pacer::new(0);
    assert_eq!(pacer.rate(), MIN_PACING_RATE);
}

#[test]
fn test_pacer_unlimited() {
    let mut pacer = Pacer::unlimited();
    assert!(!pacer.is_enabled());
    assert!(pacer.try_consume(u64::MAX, 0));
    assert_eq!(pacer.time_until_available(1, 0), Duration::zero());
}

#[test]
fn test_pacer_time_until_available() {
    let mut pacer = Pacer::new(1_000_000);
    pacer.try_consume(MAX_BURST_BYTES, 0);

    let wait = pacer.time_until_available(10_000, 0);
    assert!(wait > Duration::zero());
    assert!(wait < Duration::from_millis(50), "wait was {:?}", wait);
}

#[test]
fn refill_is_exact() {
    let mut pacer = Pacer::new(100_000);
    assert!(pacer.try_consume(MAX_BURST_BYTES, 0));
    assert_eq!(pacer.available_tokens(50_000_000), 5_000);
    assert!(!pacer.try_consume(5_001, 50_000_000));
    assert!(pacer.try_consume(5_000, 50_000_000));
    assert_eq!(pacer.available_tokens(u64::MAX), MAX_BURST_BYTES);
}

#[test]
fn wait_is_exact() {
    let mut pacer = Pacer::new(1_000_000);
    assert!(pacer.try_consume(MAX_BURST_BYTES, 0));
    assert_eq!(
        pacer.time_until_available(10_000, 0),
        Duration::from_millis(10)
    );
    pacer.set_enabled(false);
    assert_eq!(pacer.time_until_available(10_000, 0), Duration::zero());
}
