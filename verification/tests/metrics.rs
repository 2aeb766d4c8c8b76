//! Transport metrics.

use phantom_transport::metrics::{Ratio, TransportMetrics};

#[test]
fn record_and_snapshot() {
    let mut m = TransportMetrics::new();

    m.record_send(1024);
    m.record_send(2048);
    m.record_recv(512);
    m.record_encrypt(100);
    m.record_encrypt(200);
    m.record_decrypt(50);
    m.record_rtt(5000);
    m.record_loss();
    m.record_compression(1000, 500);

    let snap = m.snapshot(0);
    assert_eq!(snap.packets_sent, 2);
    assert_eq!(snap.packets_recv, 1);
    assert_eq!(snap.bytes_sent, 3072);
    assert_eq!(snap.bytes_recv, 512);
    assert_eq!(snap.avg_encrypt_ns, 150);
    assert_eq!(snap.avg_decrypt_ns, 50);
    assert_eq!(snap.rtt_us, 5000);
    assert_eq!(snap.loss_count, 1);
    assert!((quotient(snap.compression_ratio) - 2.0).abs() < 0.01);
}

#[test]
fn zero_metrics() {
    let m = TransportMetrics::new();
    let snap = m.snapshot(0);
    assert_eq!(snap.packets_sent, 0);
    assert_eq!(snap.avg_encrypt_ns, 0);
    assert!((quotient(snap.compression_ratio) - 1.0).abs() < 0.01);
}

#[test]
fn security_signals_recorded() {
    let mut m = TransportMetrics::new();
    m.record_replay_rejected();
    m.record_replay_rejected();
    m.record_unencrypted_dropped();
    m.record_aead_decrypt_failed();
    m.record_path_migration();
    m.record_handshake_failure();

    let snap = m.snapshot(0);
    assert_eq!(snap.replay_rejected, 2);
    assert_eq!(snap.unencrypted_dropped, 1);
    assert_eq!(snap.aead_decrypt_failed, 1);
    assert_eq!(snap.path_migrations, 1);
    assert_eq!(snap.handshake_failures, 1);
}

#[test]
fn gauge_open_close_balances() {
    let mut m = TransportMetrics::new();
    m.session_opened();
    m.session_opened();
    m.session_opened();
    m.session_closed();

    m.stream_opened();
    m.stream_opened();
    m.stream_closed();

    let snap = m.snapshot(0);
    assert_eq!(snap.active_sessions, 2);
    assert_eq!(snap.active_streams, 1);
}

#[test]
fn handshake_histogram_cumulative_le_semantics() {
    let mut m = TransportMetrics::new();
    m.record_handshake_success(500_000);
    m.record_handshake_success(5_000_000);
    m.record_handshake_success(2_000_000_000);

    let snap = m.snapshot(0);
    let h = &snap.handshake_latency_buckets;
    assert_eq!(h.count, 3);
    assert_eq!(h.le_1ms, 1);
    assert_eq!(h.le_10ms, 2);
    assert_eq!(h.le_100ms, 2);
    assert_eq!(h.le_1s, 2);
    assert_eq!(h.le_inf, 3);
    assert_eq!(h.sum_ns, 500_000 + 5_000_000 + 2_000_000_000);
}

#[test]
fn prometheus_text_contains_expected_lines() {
    let mut m = TransportMetrics::new();
    m.record_send(1024);
    m.record_replay_rejected();
    m.record_handshake_success(50_000_000);
    m.session_opened();
    m.stream_opened();

    let text = m.snapshot(0).to_prometheus_text();

    assert!(text.contains("# TYPE phantom_packets_sent_total counter"));
    assert!(text.contains("phantom_packets_sent_total 1"));
    assert!(text.contains("# TYPE phantom_replay_rejected_total counter"));
    assert!(text.contains("phantom_replay_rejected_total 1"));

    assert!(text.contains("# TYPE phantom_active_sessions gauge"));
    assert!(text.contains("phantom_active_sessions 1"));
    assert!(text.contains("phantom_active_streams 1"));

    assert!(text.contains("phantom_handshake_latency_seconds_bucket{le=\"0.1\"} 1"));
    assert!(text.contains("phantom_handshake_latency_seconds_count 1"));
    assert!(text.contains("phantom_handshake_latency_seconds_sum 0.050000000"));
}

fn quotient(r: Ratio) -> f64 {
    r.numerator as f64 / r.denominator as f64
}

#[test]
fn counters_wrap() {
    let mut m = TransportMetrics::new();
    m.bytes_sent = u64::MAX;
    m.record_send(3);
    assert_eq!(m.bytes_sent, 2);
}

#[test]
fn snapshot_has_uptime_and_ratio() {
    let mut m = TransportMetrics::new();
    m.record_compression(3, 2);
    let snap = m.snapshot(77);
    assert_eq!(snap.uptime_secs, 77);
    assert_eq!(
        snap.compression_ratio,
        Ratio {
            numerator: 3,
            denominator: 2
        }
    );
}
