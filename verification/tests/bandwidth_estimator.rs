//! Bandwidth estimation.

use phantom_transport::bandwidth_estimator::{
    BandwidthEstimator, BbrState, DeliverySample, MIN_CWND,
};
use phantom_transport::clock::Duration;

const MS: u64 = 1_000_000;
const PROBE_RTT_CWND_PACKETS: u64 = 4;
const MIN_PACKET_SIZE: u64 = 1400;

fn make_sample(sent_at: u64, rtt_ms: u64, packet_bytes: u64) -> DeliverySample {
    DeliverySample {
        delivered_bytes: 0,
        sent_at,
        acked_at: sent_at + rtt_ms * MS,
        packet_bytes,
        is_app_limited: false,
        ack_delay_us: 0,
    }
}

fn make_app_limited_sample(sent_at: u64, rtt_ms: u64, packet_bytes: u64) -> DeliverySample {
    DeliverySample {
        delivered_bytes: 0,
        sent_at,
        acked_at: sent_at + rtt_ms * MS,
        packet_bytes,
        is_app_limited: true,
        ack_delay_us: 0,
    }
}

#[test]
fn test_estimator_starts_in_startup() {
    let est = BandwidthEstimator::new(0);
    assert_eq!(est.state(), BbrState::Startup);
    assert_eq!(est.delivered_bytes(), 0);
    assert_eq!(est.inflight_bytes(), 0);
    assert!(!est.is_app_limited());
}

#[test]
fn test_bandwidth_increases_with_acks() {
    let mut est = BandwidthEstimator::new(0);
    let now = 0;

    for i in 0..10 {
        let sent = now + (i * 10) * MS;
        est.on_send(1400);
        let sample = make_sample(sent, 10, 1400);
        est.on_ack(sample);
    }

    assert!(
        est.bottleneck_bandwidth() > 0,
        "btl_bw = {} should be > 0",
        est.bottleneck_bandwidth()
    );
    assert_eq!(est.delivered_bytes(), 14_000);
}

#[test]
fn test_min_rtt_tracking() {
    let mut est = BandwidthEstimator::new(0);
    let now = 0;

    let s1 = make_sample(now, 100, 1400);
    est.on_ack(s1);
    assert!(est.min_rtt() <= Duration::from_millis(101));

    let s2 = make_sample(now + (200) * MS, 5, 1400);
    est.on_ack(s2);
    assert!(
        est.min_rtt() <= Duration::from_millis(6),
        "min_rtt = {:?}",
        est.min_rtt()
    );
}

#[test]
fn test_pacing_rate_positive() {
    let mut est = BandwidthEstimator::new(0);
    let now = 0;

    let sample = make_sample(now, 20, 1400);
    est.on_ack(sample);

    assert!(est.pacing_rate() > 0);
}

#[test]
fn test_cwnd_at_least_minimum() {
    let est = BandwidthEstimator::new(0);
    let cwnd = est.cwnd();
    assert!(
        cwnd >= 4 * 1400,
        "cwnd = {} should be >= {}",
        cwnd,
        4 * 1400
    );
}

#[test]
fn test_startup_to_drain_transition() {
    let mut est = BandwidthEstimator::new(0);
    let now = 0;

    for i in 0..20 {
        let sent = now + (i * 10) * MS;
        est.on_send(1400);
        let sample = make_sample(sent, 10, 1400);
        est.on_ack(sample);
    }

    assert!(
        est.state() != BbrState::Startup || est.round_count() < 20,
        "expected startup exit, state = {:?}, rounds = {}",
        est.state(),
        est.round_count()
    );
}

#[test]
fn test_inflight_tracking() {
    let mut est = BandwidthEstimator::new(0);

    est.on_send(1400);
    est.on_send(1400);
    est.on_send(1400);
    assert_eq!(est.inflight_bytes(), 4200);

    let now = 0;
    est.on_ack(make_sample(now, 10, 1400));
    assert_eq!(est.inflight_bytes(), 2800);

    est.on_loss(1400, 0);
    assert_eq!(est.inflight_bytes(), 1400);

    est.on_ack(make_sample(now + (10) * MS, 10, 1400));
    assert_eq!(est.inflight_bytes(), 0);
}

#[test]
fn test_inflight_cant_go_negative() {
    let mut est = BandwidthEstimator::new(0);
    est.on_loss(5000, 0);
    assert_eq!(est.inflight_bytes(), 0);
}

#[test]
fn test_app_limited_filtering() {
    let mut est = BandwidthEstimator::new(0);
    let now = 0;

    for i in 0..5 {
        let sent = now + (i * 10) * MS;
        est.on_send(1400);
        est.on_ack(make_sample(sent, 10, 1400));
    }
    let real_bw = est.bottleneck_bandwidth();
    assert!(real_bw > 0);

    est.set_app_limited();
    assert!(est.is_app_limited());

    for i in 5..10 {
        let sent = now + (i * 1000) * MS;
        est.on_ack(make_app_limited_sample(sent, 1000, 100));
    }

    assert!(
        est.bottleneck_bandwidth() >= real_bw,
        "BW should not decrease from app-limited samples: {} < {}",
        est.bottleneck_bandwidth(),
        real_bw
    );
}

#[test]
fn test_drain_waits_for_bdp() {
    let mut est = BandwidthEstimator::new(0);
    let now = 0;

    for i in 0..20 {
        let sent = now + (i * 10) * MS;
        est.on_send(1400);
        est.on_ack(make_sample(sent, 10, 1400));
    }

    if est.state() == BbrState::Drain {
        est.on_send(est.bdp() * 3);
        let sent = now + (300) * MS;
        est.on_ack(make_sample(sent, 10, 1400));
        if est.inflight_bytes() > est.bdp() {
            assert_eq!(
                est.state(),
                BbrState::Drain,
                "should stay in Drain while inflight ({}) > BDP ({})",
                est.inflight_bytes(),
                est.bdp()
            );
        }
    }
}

#[test]
fn test_bdp_calculation() {
    let mut est = BandwidthEstimator::new(0);
    let now = 0;

    for i in 0..5 {
        let sent = now + (i * 10) * MS;
        est.on_send(1400);
        est.on_ack(make_sample(sent, 10, 1400));
    }

    let bdp = est.bdp();
    assert!(bdp > 0, "BDP should be positive, got {}", bdp);
}

#[test]
fn test_cwnd_minimum_in_probe_rtt() {
    let mut est = BandwidthEstimator::new(0);
    let mut sent: u64 = 0;
    while est.state() != BbrState::ProbeRTT {
        let rtt = if sent == 0 { 10 } else { 20 };
        est.on_send(1400);
        est.on_ack(make_sample(sent, rtt, 1400));
        sent += 10 * MS;
        assert!(sent < 60_000 * MS, "the estimator probes for the round-trip time");
    }
    let cwnd = est.cwnd();
    assert_eq!(
        cwnd,
        PROBE_RTT_CWND_PACKETS * MIN_PACKET_SIZE,
        "ProbeRTT CWND should be {} (4 packets), got {}",
        PROBE_RTT_CWND_PACKETS * MIN_PACKET_SIZE,
        cwnd
    );
}

#[test]
fn estimates_are_exact() {
    assert_eq!(BandwidthEstimator::new(0).cwnd(), MIN_CWND);
    let mut est = BandwidthEstimator::new(0);
    est.on_send(1400);
    let rate = est.on_ack(make_sample(0, 10, 1400));
    assert_eq!(rate, 280_000);
    assert_eq!(est.pacing_rate(), 280_000);
    assert_eq!(est.bottleneck_bandwidth(), 140_000);
    assert_eq!(est.min_rtt(), Duration::from_millis(10));
    assert_eq!(est.bdp(), 1_400);
}

#[test]
fn recovery_ends_after_a_quiet_round_trip() {
    let mut est = BandwidthEstimator::new(0);
    est.on_ack(make_sample(0, 50, 1000));
    est.on_send(1_000_000);
    let before = est.state();
    est.on_loss(1000, 100 * MS);
    assert_eq!(est.state(), BbrState::FastRecovery);
    assert!(est.inflight_bytes() > est.bdp());

    // A further loss starts the round trip of 50 ms anew.
    est.on_loss(1000, 140 * MS);
    est.on_ack(make_sample(129 * MS, 60, 10));
    assert_eq!(est.state(), BbrState::FastRecovery);
    est.on_ack(make_sample(130 * MS, 60, 10));
    assert!(est.inflight_bytes() > est.bdp());
    assert_eq!(est.state(), before);
}

#[test]
fn products_are_exact() {
    let mut est = BandwidthEstimator::new(0);
    est.on_ack(make_sample(0, 570, 57));
    assert_eq!(est.bottleneck_bandwidth(), 100);
    assert_eq!(est.bdp(), 57);
}
