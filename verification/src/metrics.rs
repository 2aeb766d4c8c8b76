//! Transport metrics: counters, gauges, a latency histogram and their text exposition.

use crate::text::{
    decimal, decimal_padded, decimal_signed, push_decimal, push_decimal_padded, push_decimal_signed,
};
use vstd::prelude::*;

verus! {

/// An exact quotient.
#[derive(Debug, Clone, Copy, PartialEq, Eq, Structural)]
pub struct Ratio {
    pub numerator: u64,
    pub denominator: u64,
}

/// Transport-level metrics. Counters wrap at their limit.
#[derive(Debug, Clone, PartialEq, Eq, Structural)]
pub struct TransportMetrics {
    pub packets_sent: u64,
    pub packets_recv: u64,
    pub bytes_sent: u64,
    pub bytes_recv: u64,
    pub encrypt_ns_total: u64,
    pub decrypt_ns_total: u64,
    pub encrypt_count: u64,
    pub decrypt_count: u64,
    /// Latest round-trip time in microseconds.
    pub rtt_us: u64,
    pub loss_count: u64,
    pub retransmit_count: u64,
    pub compress_input_bytes: u64,
    pub compress_output_bytes: u64,
    pub handshakes_total: u64,
    pub resumptions_total: u64,
    pub fallbacks_total: u64,
    /// Packets rejected by a replay window.
    pub replay_rejected_total: u64,
    /// Application packets dropped because they were not encrypted.
    pub unencrypted_dropped_total: u64,
    /// Decryption failures.
    pub aead_decrypt_failed_total: u64,
    /// Completed path migrations.
    pub path_migrations_total: u64,
    /// Handshakes that failed for any cause.
    pub handshake_failures_total: u64,
    /// Sessions open now.
    pub active_sessions: i64,
    /// Streams open now, over all sessions.
    pub active_streams: i64,
    /// Sum of the handshake latencies in nanoseconds.
    pub handshake_latency_ns_total: u64,
    pub handshake_latency_count: u64,
    pub handshake_latency_bucket_1ms: u64,
    pub handshake_latency_bucket_10ms: u64,
    pub handshake_latency_bucket_100ms: u64,
    pub handshake_latency_bucket_1s: u64,
    pub handshake_latency_bucket_inf: u64,
}

impl TransportMetrics {
    /// Fresh metrics: everything is zero.
    pub fn new() -> (m: Self)
        ensures
            m == zero_metrics(),
    {
        TransportMetrics {
            packets_sent: 0,
            packets_recv: 0,
            bytes_sent: 0,
            bytes_recv: 0,
            encrypt_ns_total: 0,
            decrypt_ns_total: 0,
            encrypt_count: 0,
            decrypt_count: 0,
            rtt_us: 0,
            loss_count: 0,
            retransmit_count: 0,
            compress_input_bytes: 0,
            compress_output_bytes: 0,
            handshakes_total: 0,
            resumptions_total: 0,
            fallbacks_total: 0,
            replay_rejected_total: 0,
            unencrypted_dropped_total: 0,
            aead_decrypt_failed_total: 0,
            path_migrations_total: 0,
            handshake_failures_total: 0,
            active_sessions: 0,
            active_streams: 0,
            handshake_latency_ns_total: 0,
            handshake_latency_count: 0,
            handshake_latency_bucket_1ms: 0,
            handshake_latency_bucket_10ms: 0,
            handshake_latency_bucket_100ms: 0,
            handshake_latency_bucket_1s: 0,
            handshake_latency_bucket_inf: 0,
        }
    }

    /// Count one packet of `bytes` bytes sent.
    pub fn record_send(&mut self, bytes: usize)
        ensures
            *final(self) == (TransportMetrics {
                packets_sent: old(self).packets_sent.wrapping_add(1),
                bytes_sent: old(self).bytes_sent.wrapping_add(bytes as u64),
                ..*old(self)
            }),
    {
        self.packets_sent = self.packets_sent.wrapping_add(1);
        self.bytes_sent = self.bytes_sent.wrapping_add(bytes as u64);
    }

    /// Count one packet of `bytes` bytes received.
    pub fn record_recv(&mut self, bytes: usize)
        ensures
            *final(self) == (TransportMetrics {
                packets_recv: old(self).packets_recv.wrapping_add(1),
                bytes_recv: old(self).bytes_recv.wrapping_add(bytes as u64),
                ..*old(self)
            }),
    {
        self.packets_recv = self.packets_recv.wrapping_add(1);
        self.bytes_recv = self.bytes_recv.wrapping_add(bytes as u64);
    }

    /// Count one encryption that took `duration_ns`.
    pub fn record_encrypt(&mut self, duration_ns: u64)
        ensures
            *final(self) == (TransportMetrics {
                encrypt_ns_total: old(self).encrypt_ns_total.wrapping_add(duration_ns),
                encrypt_count: old(self).encrypt_count.wrapping_add(1),
                ..*old(self)
            }),
    {
        self.encrypt_ns_total = self.encrypt_ns_total.wrapping_add(duration_ns);
        self.encrypt_count = self.encrypt_count.wrapping_add(1);
    }

    /// Count one decryption that took `duration_ns`.
    pub fn record_decrypt(&mut self, duration_ns: u64)
        ensures
            *final(self) == (TransportMetrics {
                decrypt_ns_total: old(self).decrypt_ns_total.wrapping_add(duration_ns),
                decrypt_count: old(self).decrypt_count.wrapping_add(1),
                ..*old(self)
            }),
    {
        self.decrypt_ns_total = self.decrypt_ns_total.wrapping_add(duration_ns);
        self.decrypt_count = self.decrypt_count.wrapping_add(1);
    }

    /// Keep the latest round-trip time.
    pub fn record_rtt(&mut self, rtt_us: u64)
        ensures
            *final(self) == (TransportMetrics { rtt_us: rtt_us, ..*old(self) }),
    {
        self.rtt_us = rtt_us;
    }

    /// Count one lost packet.
    pub fn record_loss(&mut self)
        ensures
            *final(self) == (TransportMetrics {
                loss_count: old(self).loss_count.wrapping_add(1),
                ..*old(self)
            }),
    {
        self.loss_count = self.loss_count.wrapping_add(1);
    }

    /// Count what went into and came out of one compression.
    pub fn record_compression(&mut self, input: usize, output: usize)
        ensures
            *final(self) == (TransportMetrics {
                compress_input_bytes: old(self).compress_input_bytes.wrapping_add(input as u64),
                compress_output_bytes: old(self).compress_output_bytes.wrapping_add(output as u64),
                ..*old(self)
            }),
    {
        self.compress_input_bytes = self.compress_input_bytes.wrapping_add(input as u64);
        self.compress_output_bytes = self.compress_output_bytes.wrapping_add(output as u64);
    }

    /// Count one packet rejected by a replay window.
    pub fn record_replay_rejected(&mut self)
        ensures
            *final(self) == (TransportMetrics {
                replay_rejected_total: old(self).replay_rejected_total.wrapping_add(1),
                ..*old(self)
            }),
    {
        self.replay_rejected_total = self.replay_rejected_total.wrapping_add(1);
    }

    /// Count one packet dropped because it was not encrypted.
    pub fn record_unencrypted_dropped(&mut self)
        ensures
            *final(self) == (TransportMetrics {
                unencrypted_dropped_total: old(self).unencrypted_dropped_total.wrapping_add(1),
                ..*old(self)
            }),
    {
        self.unencrypted_dropped_total = self.unencrypted_dropped_total.wrapping_add(1);
    }

    /// Count one decryption failure.
    pub fn record_aead_decrypt_failed(&mut self)
        ensures
            *final(self) == (TransportMetrics {
                aead_decrypt_failed_total: old(self).aead_decrypt_failed_total.wrapping_add(1),
                ..*old(self)
            }),
    {
        self.aead_decrypt_failed_total = self.aead_decrypt_failed_total.wrapping_add(1);
    }

    /// Count one completed path migration.
    pub fn record_path_migration(&mut self)
        ensures
            *final(self) == (TransportMetrics {
                path_migrations_total: old(self).path_migrations_total.wrapping_add(1),
                ..*old(self)
            }),
    {
        self.path_migrations_total = self.path_migrations_total.wrapping_add(1);
    }

    /// Count one failed handshake.
    pub fn record_handshake_failure(&mut self)
        ensures
            *final(self) == (TransportMetrics {
                handshake_failures_total: old(self).handshake_failures_total.wrapping_add(1),
                ..*old(self)
            }),
    {
        self.handshake_failures_total = self.handshake_failures_total.wrapping_add(1);
    }

    /// One more session is open.
    pub fn session_opened(&mut self)
        ensures
            *final(self) == (TransportMetrics {
                active_sessions: old(self).active_sessions.wrapping_add(1),
                ..*old(self)
            }),
    {
        self.active_sessions = self.active_sessions.wrapping_add(1);
    }

    /// One session fewer is open.
    pub fn session_closed(&mut self)
        ensures
            *final(self) == (TransportMetrics {
                active_sessions: old(self).active_sessions.wrapping_sub(1),
                ..*old(self)
            }),
    {
        self.active_sessions = self.active_sessions.wrapping_sub(1);
    }

    /// One more stream is open.
    pub fn stream_opened(&mut self)
        ensures
            *final(self) == (TransportMetrics {
                active_streams: old(self).active_streams.wrapping_add(1),
                ..*old(self)
            }),
    {
        self.active_streams = self.active_streams.wrapping_add(1);
    }

    /// One stream fewer is open.
    pub fn stream_closed(&mut self)
        ensures
            *final(self) == (TransportMetrics {
                active_streams: old(self).active_streams.wrapping_sub(1),
                ..*old(self)
            }),
    {
        self.active_streams = self.active_streams.wrapping_sub(1);
    }

    /// Count one handshake that succeeded after `duration_ns`: each bucket whose bound is
    /// not below the duration grows by one.
    pub fn record_handshake_success(&mut self, duration_ns: u64)
        ensures
            *final(self) == after_handshake(*old(self), duration_ns),
    {
        self.handshakes_total = self.handshakes_total.wrapping_add(1);
        self.handshake_latency_ns_total = self.handshake_latency_ns_total.wrapping_add(duration_ns);
        self.handshake_latency_count = self.handshake_latency_count.wrapping_add(1);
        if duration_ns <= 1_000_000 {
            self.handshake_latency_bucket_1ms = self.handshake_latency_bucket_1ms.wrapping_add(1);
        }
        if duration_ns <= 10_000_000 {
            self.handshake_latency_bucket_10ms = self.handshake_latency_bucket_10ms.wrapping_add(1);
        }
        if duration_ns <= 100_000_000 {
            self.handshake_latency_bucket_100ms =
            self.handshake_latency_bucket_100ms.wrapping_add(1);
        }
        if duration_ns <= 1_000_000_000 {
            self.handshake_latency_bucket_1s = self.handshake_latency_bucket_1s.wrapping_add(1);
        }
        self.handshake_latency_bucket_inf = self.handshake_latency_bucket_inf.wrapping_add(1);
    }

    /// The average encryption time in nanoseconds, zero before the first.
    pub fn avg_encrypt_ns(&self) -> (ns: u64)
        ensures
            self.encrypt_count == 0 ==> ns == 0,
            self.encrypt_count > 0 ==> ns == self.encrypt_ns_total / self.encrypt_count,
    {
        if self.encrypt_count == 0 {
            0
        } else {
            self.encrypt_ns_total / self.encrypt_count
        }
    }

    /// The average decryption time in nanoseconds, zero before the first.
    pub fn avg_decrypt_ns(&self) -> (ns: u64)
        ensures
            self.decrypt_count == 0 ==> ns == 0,
            self.decrypt_count > 0 ==> ns == self.decrypt_ns_total / self.decrypt_count,
    {
        if self.decrypt_count == 0 {
            0
        } else {
            self.decrypt_ns_total / self.decrypt_count
        }
    }

    /// Bytes into compression over bytes out of it; one before anything came out.
    pub fn compression_ratio(&self) -> (r: Ratio)
        ensures
            r == ratio_of(self.compress_input_bytes, self.compress_output_bytes),
    {
        if self.compress_output_bytes == 0 {
            Ratio { numerator: 1, denominator: 1 }
        } else {
            Ratio {
                numerator: self.compress_input_bytes,
                denominator: self.compress_output_bytes,
            }
        }
    }

    /// A snapshot for reporting, `uptime_secs` after the start.
    pub fn snapshot(&self, uptime_secs: u64) -> (s: MetricsSnapshot)
        ensures
            s.packets_sent == self.packets_sent,
            s.packets_recv == self.packets_recv,
            s.bytes_sent == self.bytes_sent,
            s.bytes_recv == self.bytes_recv,
            s.avg_encrypt_ns == average(self.encrypt_ns_total, self.encrypt_count),
            s.avg_decrypt_ns == average(self.decrypt_ns_total, self.decrypt_count),
            s.rtt_us == self.rtt_us,
            s.loss_count == self.loss_count,
            s.compression_ratio == ratio_of(self.compress_input_bytes, self.compress_output_bytes),
            s.handshakes == self.handshakes_total,
            s.handshake_failures == self.handshake_failures_total,
            s.resumptions == self.resumptions_total,
            s.replay_rejected == self.replay_rejected_total,
            s.unencrypted_dropped == self.unencrypted_dropped_total,
            s.aead_decrypt_failed == self.aead_decrypt_failed_total,
            s.path_migrations == self.path_migrations_total,
            s.active_sessions == self.active_sessions,
            s.active_streams == self.active_streams,
            s.handshake_latency_buckets == (HandshakeLatencyHistogram {
                le_1ms: self.handshake_latency_bucket_1ms,
                le_10ms: self.handshake_latency_bucket_10ms,
                le_100ms: self.handshake_latency_bucket_100ms,
                le_1s: self.handshake_latency_bucket_1s,
                le_inf: self.handshake_latency_bucket_inf,
                sum_ns: self.handshake_latency_ns_total,
                count: self.handshake_latency_count,
            }),
            s.uptime_secs == uptime_secs,
    {
        MetricsSnapshot {
            packets_sent: self.packets_sent,
            packets_recv: self.packets_recv,
            bytes_sent: self.bytes_sent,
            bytes_recv: self.bytes_recv,
            avg_encrypt_ns: self.avg_encrypt_ns(),
            avg_decrypt_ns: self.avg_decrypt_ns(),
            rtt_us: self.rtt_us,
            loss_count: self.loss_count,
            compression_ratio: self.compression_ratio(),
            handshakes: self.handshakes_total,
            handshake_failures: self.handshake_failures_total,
            resumptions: self.resumptions_total,
            replay_rejected: self.replay_rejected_total,
            unencrypted_dropped: self.unencrypted_dropped_total,
            aead_decrypt_failed: self.aead_decrypt_failed_total,
            path_migrations: self.path_migrations_total,
            active_sessions: self.active_sessions,
            active_streams: self.active_streams,
            handshake_latency_buckets: HandshakeLatencyHistogram {
                le_1ms: self.handshake_latency_bucket_1ms,
                le_10ms: self.handshake_latency_bucket_10ms,
                le_100ms: self.handshake_latency_bucket_100ms,
                le_1s: self.handshake_latency_bucket_1s,
                le_inf: self.handshake_latency_bucket_inf,
                sum_ns: self.handshake_latency_ns_total,
                count: self.handshake_latency_count,
            },
            uptime_secs,
        }
    }
}

/// Metrics of a transport that has done nothing.
pub open spec fn zero_metrics() -> TransportMetrics {
    TransportMetrics {
        packets_sent: 0,
        packets_recv: 0,
        bytes_sent: 0,
        bytes_recv: 0,
        encrypt_ns_total: 0,
        decrypt_ns_total: 0,
        encrypt_count: 0,
        decrypt_count: 0,
        rtt_us: 0,
        loss_count: 0,
        retransmit_count: 0,
        compress_input_bytes: 0,
        compress_output_bytes: 0,
        handshakes_total: 0,
        resumptions_total: 0,
        fallbacks_total: 0,
        replay_rejected_total: 0,
        unencrypted_dropped_total: 0,
        aead_decrypt_failed_total: 0,
        path_migrations_total: 0,
        handshake_failures_total: 0,
        active_sessions: 0,
        active_streams: 0,
        handshake_latency_ns_total: 0,
        handshake_latency_count: 0,
        handshake_latency_bucket_1ms: 0,
        handshake_latency_bucket_10ms: 0,
        handshake_latency_bucket_100ms: 0,
        handshake_latency_bucket_1s: 0,
        handshake_latency_bucket_inf: 0,
    }
}

/// `total / count`, or zero where nothing was counted.
pub open spec fn average(total: u64, count: u64) -> u64 {
    if count == 0 {
        0
    } else {
        total / count
    }
}

/// `input / output`, or one where nothing came out.
pub open spec fn ratio_of(input: u64, output: u64) -> Ratio {
    if output == 0 {
        Ratio { numerator: 1, denominator: 1 }
    } else {
        Ratio { numerator: input, denominator: output }
    }
}

/// A bucket with the bound `bound` after a handshake of `duration_ns`.
pub open spec fn bucket_after(bucket: u64, duration_ns: u64, bound: int) -> u64 {
    if duration_ns <= bound {
        bucket.wrapping_add(1)
    } else {
        bucket
    }
}

/// The metrics after a handshake that succeeded in `duration_ns`.
pub open spec fn after_handshake(m: TransportMetrics, duration_ns: u64) -> TransportMetrics {
    TransportMetrics {
        handshakes_total: m.handshakes_total.wrapping_add(1),
        handshake_latency_ns_total: m.handshake_latency_ns_total.wrapping_add(duration_ns),
        handshake_latency_count: m.handshake_latency_count.wrapping_add(1),
        handshake_latency_bucket_1ms: bucket_after(
            m.handshake_latency_bucket_1ms,
            duration_ns,
            1_000_000,
        ),
        handshake_latency_bucket_10ms: bucket_after(
            m.handshake_latency_bucket_10ms,
            duration_ns,
            10_000_000,
        ),
        handshake_latency_bucket_100ms: bucket_after(
            m.handshake_latency_bucket_100ms,
            duration_ns,
            100_000_000,
        ),
        handshake_latency_bucket_1s: bucket_after(
            m.handshake_latency_bucket_1s,
            duration_ns,
            1_000_000_000,
        ),
        handshake_latency_bucket_inf: m.handshake_latency_bucket_inf.wrapping_add(1),
        ..m
    }
}

/// Whether each bucket counts what the buckets below it count, and the last one counts
/// every handshake.
pub open spec fn cumulative(m: TransportMetrics) -> bool {
    &&& m.handshake_latency_bucket_1ms <= m.handshake_latency_bucket_10ms
    &&& m.handshake_latency_bucket_10ms <= m.handshake_latency_bucket_100ms
    &&& m.handshake_latency_bucket_100ms <= m.handshake_latency_bucket_1s
    &&& m.handshake_latency_bucket_1s <= m.handshake_latency_bucket_inf
    &&& m.handshake_latency_bucket_inf == m.handshake_latency_count
}

/// The histogram starts cumulative and stays so with every handshake, until its count
/// reaches its limit.
pub proof fn law_histogram_is_cumulative(m: TransportMetrics, duration_ns: u64)
    ensures
        cumulative(zero_metrics()),
        cumulative(m) && m.handshake_latency_count < u64::MAX ==> cumulative(
            after_handshake(m, duration_ns),
        ),
{
}

/// Closing what was opened leaves the gauge as it was.
pub proof fn law_gauges_balance(gauge: i64)
    ensures
        gauge.wrapping_add(1).wrapping_sub(1) == gauge,
{
}

/// An immutable snapshot for reporting.
#[derive(Debug, Clone, PartialEq, Eq, Structural)]
pub struct MetricsSnapshot {
    pub packets_sent: u64,
    pub packets_recv: u64,
    pub bytes_sent: u64,
    pub bytes_recv: u64,
    pub avg_encrypt_ns: u64,
    pub avg_decrypt_ns: u64,
    pub rtt_us: u64,
    pub loss_count: u64,
    pub compression_ratio: Ratio,
    pub handshakes: u64,
    pub handshake_failures: u64,
    pub resumptions: u64,
    pub replay_rejected: u64,
    pub unencrypted_dropped: u64,
    pub aead_decrypt_failed: u64,
    pub path_migrations: u64,
    pub active_sessions: i64,
    pub active_streams: i64,
    pub handshake_latency_buckets: HandshakeLatencyHistogram,
    pub uptime_secs: u64,
}

/// Handshake latencies, with cumulative buckets.
#[derive(Debug, Clone, PartialEq, Eq, Structural)]
pub struct HandshakeLatencyHistogram {
    pub le_1ms: u64,
    pub le_10ms: u64,
    pub le_100ms: u64,
    pub le_1s: u64,
    pub le_inf: u64,
    pub sum_ns: u64,
    pub count: u64,
}

impl Default for HandshakeLatencyHistogram {
    fn default() -> (h: Self)
        ensures
            h == (HandshakeLatencyHistogram {
                le_1ms: 0,
                le_10ms: 0,
                le_100ms: 0,
                le_1s: 0,
                le_inf: 0,
                sum_ns: 0,
                count: 0,
            }),
    {
        HandshakeLatencyHistogram {
            le_1ms: 0,
            le_10ms: 0,
            le_100ms: 0,
            le_1s: 0,
            le_inf: 0,
            sum_ns: 0,
            count: 0,
        }
    }
}

/// The help line, the type line and the value line of one metric.
pub open spec fn metric_block(
    name: Seq<char>,
    help: Seq<char>,
    kind: Seq<char>,
    value: Seq<char>,
) -> Seq<char> {
    "# HELP "@ + name + " "@ + help + "\n# TYPE "@ + name + " "@ + kind + "\n"@ + name + " "@ + value
        + "\n"@
}

/// The line of one histogram bucket.
pub open spec fn bucket_line(bound: Seq<char>, count: u64) -> Seq<char> {
    "phantom_handshake_latency_seconds_bucket{le=\""@ + bound + "\"} "@ + decimal(count as nat)
        + "\n"@
}

/// A number of nanoseconds as seconds with nine decimals. Every digit is exact, where a
/// floating-point number of seconds has too few digits from about 4.5e15 nanoseconds on.
pub open spec fn seconds_text(ns: u64) -> Seq<char> {
    decimal((ns / 1_000_000_000) as nat) + "."@ + decimal_padded((ns % 1_000_000_000) as nat, 9)
}

/// The counters of the exposition.
pub open spec fn counters_text(s: MetricsSnapshot) -> Seq<char> {
    metric_block(
        "phantom_packets_sent_total"@,
        "Packets transmitted"@,
        "counter"@,
        decimal(s.packets_sent as nat),
    )
    + metric_block(
        "phantom_packets_recv_total"@,
        "Packets received"@,
        "counter"@,
        decimal(s.packets_recv as nat),
    )
    + metric_block(
        "phantom_bytes_sent_total"@,
        "Bytes transmitted"@,
        "counter"@,
        decimal(s.bytes_sent as nat),
    )
    + metric_block(
        "phantom_bytes_recv_total"@,
        "Bytes received"@,
        "counter"@,
        decimal(s.bytes_recv as nat),
    )
    + metric_block(
        "phantom_handshakes_total"@,
        "Successful handshakes"@,
        "counter"@,
        decimal(s.handshakes as nat),
    )
    + metric_block(
        "phantom_handshake_failures_total"@,
        "Failed handshakes"@,
        "counter"@,
        decimal(s.handshake_failures as nat),
    )
    + metric_block(
        "phantom_replay_rejected_total"@,
        "Packets rejected by replay window"@,
        "counter"@,
        decimal(s.replay_rejected as nat),
    )
    + metric_block(
        "phantom_unencrypted_dropped_total"@,
        "Non-empty post-handshake packets without ENCRYPTED flag"@,
        "counter"@,
        decimal(s.unencrypted_dropped as nat),
    )
    + metric_block(
        "phantom_aead_decrypt_failed_total"@,
        "AEAD decryption failures (tag mismatch)"@,
        "counter"@,
        decimal(s.aead_decrypt_failed as nat),
    )
    + metric_block(
        "phantom_path_migrations_total"@,
        "Successful multi-path migrations"@,
        "counter"@,
        decimal(s.path_migrations as nat),
    )
    + metric_block(
        "phantom_resumptions_total"@,
        "0-RTT resumptions accepted"@,
        "counter"@,
        decimal(s.resumptions as nat),
    )
}

/// The gauges of the exposition.
pub open spec fn gauges_text(s: MetricsSnapshot) -> Seq<char> {
    metric_block(
        "phantom_active_sessions"@,
        "Current active sessions"@,
        "gauge"@,
        decimal_signed(s.active_sessions as int),
    )
    + metric_block(
        "phantom_active_streams"@,
        "Current active streams across all sessions"@,
        "gauge"@,
        decimal_signed(s.active_streams as int),
    )
    + metric_block(
        "phantom_rtt_us"@,
        "Latest observed RTT in microseconds"@,
        "gauge"@,
        decimal(s.rtt_us as nat),
    )
}

/// The histogram of the exposition.
pub open spec fn histogram_text(h: HandshakeLatencyHistogram) -> Seq<char> {
    "# HELP phantom_handshake_latency_seconds Handshake latency distribution\n"@
        + "# TYPE phantom_handshake_latency_seconds histogram\n"@
        + bucket_line("0.001"@, h.le_1ms)
        + bucket_line("0.01"@, h.le_10ms)
        + bucket_line("0.1"@, h.le_100ms)
        + bucket_line("1"@, h.le_1s)
        + bucket_line("+Inf"@, h.le_inf)
        + "phantom_handshake_latency_seconds_sum "@ + seconds_text(h.sum_ns) + "\n"@
        + "phantom_handshake_latency_seconds_count "@ + decimal(h.count as nat) + "\n"@
}

fn push_head(s: &mut String, name: &str, help: &str, kind: &str)
    ensures
        final(s)@ == old(s)@ + ("# HELP "@ + name@ + " "@ + help@ + "\n# TYPE "@ + name@ + " "@
            + kind@ + "\n"@ + name@ + " "@),
{
    s.append("# HELP ");
    s.append(name);
    s.append(" ");
    s.append(help);
    s.append("\n# TYPE ");
    s.append(name);
    s.append(" ");
    s.append(kind);
    s.append("\n");
    s.append(name);
    s.append(" ");
    assert(s@ =~= old(s)@ + ("# HELP "@ + name@ + " "@ + help@ + "\n# TYPE "@ + name@ + " "@ + kind@
        + "\n"@ + name@ + " "@));
}

fn push_metric(s: &mut String, name: &str, help: &str, kind: &str, value: u64)
    ensures
        final(s)@ == old(s)@ + metric_block(name@, help@, kind@, decimal(value as nat)),
{
    push_head(s, name, help, kind);
    push_decimal(s, value);
    s.append("\n");
    assert(s@ =~= old(s)@ + metric_block(name@, help@, kind@, decimal(value as nat)));
}

fn push_counter(s: &mut String, name: &str, help: &str, value: u64)
    ensures
        final(s)@ == old(s)@ + metric_block(name@, help@, "counter"@, decimal(value as nat)),
{
    push_metric(s, name, help, "counter", value);
}

fn push_signed_gauge(s: &mut String, name: &str, help: &str, value: i64)
    ensures
        final(s)@ == old(s)@ + metric_block(name@, help@, "gauge"@, decimal_signed(value as int)),
{
    push_head(s, name, help, "gauge");
    push_decimal_signed(s, value);
    s.append("\n");
    assert(s@ =~= old(s)@ + metric_block(name@, help@, "gauge"@, decimal_signed(value as int)));
}

fn push_bucket(s: &mut String, bound: &str, count: u64)
    ensures
        final(s)@ == old(s)@ + bucket_line(bound@, count),
{
    s.append("phantom_handshake_latency_seconds_bucket{le=\"");
    s.append(bound);
    s.append("\"} ");
    push_decimal(s, count);
    s.append("\n");
    assert(s@ =~= old(s)@ + bucket_line(bound@, count));
}

fn push_histogram(s: &mut String, h: &HandshakeLatencyHistogram)
    ensures
        final(s)@ == old(s)@ + histogram_text(*h),
{
    s.append("# HELP phantom_handshake_latency_seconds Handshake latency distribution\n");
    s.append("# TYPE phantom_handshake_latency_seconds histogram\n");
    push_bucket(s, "0.001", h.le_1ms);
    push_bucket(s, "0.01", h.le_10ms);
    push_bucket(s, "0.1", h.le_100ms);
    push_bucket(s, "1", h.le_1s);
    push_bucket(s, "+Inf", h.le_inf);
    s.append("phantom_handshake_latency_seconds_sum ");
    let before: Ghost<Seq<char>> = Ghost(s@);
    push_decimal(s, h.sum_ns / 1_000_000_000);
    s.append(".");
    push_decimal_padded(s, h.sum_ns % 1_000_000_000, 9);
    assert(s@ =~= before@ + seconds_text(h.sum_ns));
    s.append("\n");
    s.append("phantom_handshake_latency_seconds_count ");
    push_decimal(s, h.count);
    s.append("\n");
    assert(s@ =~= old(s)@ + histogram_text(*h));
}

impl MetricsSnapshot {
    /// The snapshot in the Prometheus text exposition format.
    pub fn to_prometheus_text(&self) -> (s: String)
        ensures
            s@ == counters_text(*self) + gauges_text(*self) + histogram_text(
                self.handshake_latency_buckets,
            ),
    {
        let mut s: String = String::new();
        push_counter(
            &mut s,
            "phantom_packets_sent_total",
            "Packets transmitted",
            self.packets_sent,
        );
        push_counter(&mut s, "phantom_packets_recv_total", "Packets received", self.packets_recv);
        push_counter(&mut s, "phantom_bytes_sent_total", "Bytes transmitted", self.bytes_sent);
        push_counter(&mut s, "phantom_bytes_recv_total", "Bytes received", self.bytes_recv);
        push_counter(&mut s, "phantom_handshakes_total", "Successful handshakes", self.handshakes);
        push_counter(
            &mut s,
            "phantom_handshake_failures_total",
            "Failed handshakes",
            self.handshake_failures,
        );
        push_counter(
            &mut s,
            "phantom_replay_rejected_total",
            "Packets rejected by replay window",
            self.replay_rejected,
        );
        push_counter(
            &mut s,
            "phantom_unencrypted_dropped_total",
            "Non-empty post-handshake packets without ENCRYPTED flag",
            self.unencrypted_dropped,
        );
        push_counter(
            &mut s,
            "phantom_aead_decrypt_failed_total",
            "AEAD decryption failures (tag mismatch)",
            self.aead_decrypt_failed,
        );
        push_counter(
            &mut s,
            "phantom_path_migrations_total",
            "Successful multi-path migrations",
            self.path_migrations,
        );
        push_counter(
            &mut s,
            "phantom_resumptions_total",
            "0-RTT resumptions accepted",
            self.resumptions,
        );
        assert(s@ =~= counters_text(*self));
        let counters: Ghost<Seq<char>> = Ghost(s@);
        push_signed_gauge(
            &mut s,
            "phantom_active_sessions",
            "Current active sessions",
            self.active_sessions,
        );
        push_signed_gauge(
            &mut s,
            "phantom_active_streams",
            "Current active streams across all sessions",
            self.active_streams,
        );
        push_metric(
            &mut s,
            "phantom_rtt_us",
            "Latest observed RTT in microseconds",
            "gauge",
            self.rtt_us,
        );
        assert(s@ =~= counters@ + gauges_text(*self));
        push_histogram(&mut s, &self.handshake_latency_buckets);
        s
    }
}

/// Whether a line stands somewhere in a text.
#[verifier::opaque]
pub open spec fn shows(text: Seq<char>, line: Seq<char>) -> bool {
    exists|i: int| 0 <= i <= text.len() - line.len() && #[trigger] text.subrange(i, i + line.len()) == line
}

/// Texts one behind the other.
spec fn chained(blocks: Seq<Seq<char>>) -> Seq<char>
    decreases blocks.len(),
{
    if blocks.len() == 0 {
        Seq::empty()
    } else {
        chained(blocks.drop_last()) + blocks.last()
    }
}

proof fn lemma_shows_inside(front: Seq<char>, line: Seq<char>, back: Seq<char>)
    ensures
        shows(front + line + back, line),
{
    reveal(shows);
    let text = front + line + back;
    let i = front.len() as int;
    assert(text.subrange(i, i + line.len()) =~= line);
}

proof fn lemma_shows_around(front: Seq<char>, text: Seq<char>, back: Seq<char>, line: Seq<char>)
    requires
        shows(text, line),
    ensures
        shows(front + text + back, line),
{
    reveal(shows);
    let i = choose|i: int|
        0 <= i <= text.len() - line.len() && #[trigger] text.subrange(i, i + line.len()) == line;
    let all = front + text + back;
    let k = front.len() + i;
    assert(all.subrange(k, k + line.len()) =~= text.subrange(i, i + line.len()));
}

proof fn lemma_chained_shows(blocks: Seq<Seq<char>>, k: int, line: Seq<char>)
    requires
        0 <= k < blocks.len(),
        shows(blocks[k], line),
    ensures
        shows(chained(blocks), line),
    decreases blocks.len(),
{
    let init = chained(blocks.drop_last());
    let none = Seq::<char>::empty();
    if k == blocks.len() - 1 {
        lemma_shows_around(init, blocks[k], none, line);
        assert(init + blocks[k] + none =~= chained(blocks));
    } else {
        lemma_chained_shows(blocks.drop_last(), k, line);
        lemma_shows_around(none, init, blocks.last(), line);
        assert(none + init + blocks.last() =~= chained(blocks));
    }
}

proof fn lemma_chain_grows(blocks: Seq<Seq<char>>, next: Seq<char>)
    ensures
        chained(blocks.push(next)) == chained(blocks) + next,
{
    assert(blocks.push(next).drop_last() =~= blocks);
}

proof fn lemma_four(a: Seq<char>, p: Seq<char>, q: Seq<char>, r: Seq<char>, t: Seq<char>)
    ensures
        a + (p + q + r + t) == a + p + q + r + t,
        a + (p + q) == a + p + q,
        a + (p + q + r) == a + p + q + r,
{
    assert(a + (p + q + r + t) =~= a + p + q + r + t);
    assert(a + (p + q) =~= a + p + q);
    assert(a + (p + q + r) =~= a + p + q + r);
}

proof fn lemma_five(
    a: Seq<char>,
    p: Seq<char>,
    q: Seq<char>,
    r: Seq<char>,
    t: Seq<char>,
    u: Seq<char>,
)
    ensures
        a + (p + q + r + t + u) == a + p + q + r + t + u,
{
    lemma_four(a, p, q, r, t);
    lemma_four(a, p + q + r + t, u, u, u);
}

/// The value line and the type line of a metric stand in its block.
proof fn lemma_block_shows(name: Seq<char>, help: Seq<char>, kind: Seq<char>, value: Seq<char>)
    ensures
        shows(metric_block(name, help, kind, value), "\n"@ + name + " "@ + value + "\n"@),
        shows(metric_block(name, help, kind, value), "# TYPE "@ + name + " "@ + kind + "\n"@),
{
    let b = metric_block(name, help, kind, value);
    let none = Seq::<char>::empty();
    let nl = "\n"@;
    let sp = " "@;
    let ty = "# TYPE "@;
    let a = "# HELP "@ + name + sp + help;
    let front = a + "\n# TYPE "@ + name + sp + kind;
    let line = nl + name + sp + value + nl;
    lemma_five(front, nl, name, sp, value, nl);
    assert(front + line == b);
    lemma_shows_inside(front, line, none);
    assert(front + line + none =~= front + line);
    lemma_newline_type();
    lemma_four(a, nl, ty, nl, nl);
    let kinds = ty + name + sp + kind + nl;
    lemma_five(a + nl, ty, name, sp, kind, nl);
    let tail = name + sp + value + nl;
    lemma_four(a + nl + kinds, name, sp, value, nl);
    assert(a + nl + kinds + tail == b);
    lemma_shows_inside(a + nl, kinds, tail);
}

proof fn lemma_newline_type()
    ensures
        "\n# TYPE "@ == "\n"@ + "# TYPE "@,
{
    reveal_strlit("\n# TYPE ");
    reveal_strlit("# TYPE ");
    reveal_strlit("\n");
    assert("\n# TYPE "@ =~= "\n"@ + "# TYPE "@);
}

proof fn lemma_counters_chained(s: MetricsSnapshot) -> (blocks: Seq<Seq<char>>)
    ensures
        blocks.len() == 11,
        chained(blocks) == counters_text(s),
        blocks[0] == metric_block(
            "phantom_packets_sent_total"@,
            "Packets transmitted"@,
            "counter"@,
            decimal(s.packets_sent as nat),
        ),
        blocks[1] == metric_block(
            "phantom_packets_recv_total"@,
            "Packets received"@,
            "counter"@,
            decimal(s.packets_recv as nat),
        ),
        blocks[2] == metric_block(
            "phantom_bytes_sent_total"@,
            "Bytes transmitted"@,
            "counter"@,
            decimal(s.bytes_sent as nat),
        ),
        blocks[3] == metric_block(
            "phantom_bytes_recv_total"@,
            "Bytes received"@,
            "counter"@,
            decimal(s.bytes_recv as nat),
        ),
        blocks[4] == metric_block(
            "phantom_handshakes_total"@,
            "Successful handshakes"@,
            "counter"@,
            decimal(s.handshakes as nat),
        ),
        blocks[5] == metric_block(
            "phantom_handshake_failures_total"@,
            "Failed handshakes"@,
            "counter"@,
            decimal(s.handshake_failures as nat),
        ),
        blocks[6] == metric_block(
            "phantom_replay_rejected_total"@,
            "Packets rejected by replay window"@,
            "counter"@,
            decimal(s.replay_rejected as nat),
        ),
        blocks[7] == metric_block(
            "phantom_unencrypted_dropped_total"@,
            "Non-empty post-handshake packets without ENCRYPTED flag"@,
            "counter"@,
            decimal(s.unencrypted_dropped as nat),
        ),
        blocks[8] == metric_block(
            "phantom_aead_decrypt_failed_total"@,
            "AEAD decryption failures (tag mismatch)"@,
            "counter"@,
            decimal(s.aead_decrypt_failed as nat),
        ),
        blocks[9] == metric_block(
            "phantom_path_migrations_total"@,
            "Successful multi-path migrations"@,
            "counter"@,
            decimal(s.path_migrations as nat),
        ),
        blocks[10] == metric_block(
            "phantom_resumptions_total"@,
            "0-RTT resumptions accepted"@,
            "counter"@,
            decimal(s.resumptions as nat),
        ),
{
    let b0 = Seq::<Seq<char>>::empty();
    let m0 = metric_block(
        "phantom_packets_sent_total"@,
        "Packets transmitted"@,
        "counter"@,
        decimal(s.packets_sent as nat),
    );
    let b1 = b0.push(m0);
    lemma_chain_grows(b0, m0);
    let m1 = metric_block(
        "phantom_packets_recv_total"@,
        "Packets received"@,
        "counter"@,
        decimal(s.packets_recv as nat),
    );
    let b2 = b1.push(m1);
    lemma_chain_grows(b1, m1);
    let m2 = metric_block(
        "phantom_bytes_sent_total"@,
        "Bytes transmitted"@,
        "counter"@,
        decimal(s.bytes_sent as nat),
    );
    let b3 = b2.push(m2);
    lemma_chain_grows(b2, m2);
    let m3 = metric_block(
        "phantom_bytes_recv_total"@,
        "Bytes received"@,
        "counter"@,
        decimal(s.bytes_recv as nat),
    );
    let b4 = b3.push(m3);
    lemma_chain_grows(b3, m3);
    let m4 = metric_block(
        "phantom_handshakes_total"@,
        "Successful handshakes"@,
        "counter"@,
        decimal(s.handshakes as nat),
    );
    let b5 = b4.push(m4);
    lemma_chain_grows(b4, m4);
    let m5 = metric_block(
        "phantom_handshake_failures_total"@,
        "Failed handshakes"@,
        "counter"@,
        decimal(s.handshake_failures as nat),
    );
    let b6 = b5.push(m5);
    lemma_chain_grows(b5, m5);
    let m6 = metric_block(
        "phantom_replay_rejected_total"@,
        "Packets rejected by replay window"@,
        "counter"@,
        decimal(s.replay_rejected as nat),
    );
    let b7 = b6.push(m6);
    lemma_chain_grows(b6, m6);
    let m7 = metric_block(
        "phantom_unencrypted_dropped_total"@,
        "Non-empty post-handshake packets without ENCRYPTED flag"@,
        "counter"@,
        decimal(s.unencrypted_dropped as nat),
    );
    let b8 = b7.push(m7);
    lemma_chain_grows(b7, m7);
    let m8 = metric_block(
        "phantom_aead_decrypt_failed_total"@,
        "AEAD decryption failures (tag mismatch)"@,
        "counter"@,
        decimal(s.aead_decrypt_failed as nat),
    );
    let b9 = b8.push(m8);
    lemma_chain_grows(b8, m8);
    let m9 = metric_block(
        "phantom_path_migrations_total"@,
        "Successful multi-path migrations"@,
        "counter"@,
        decimal(s.path_migrations as nat),
    );
    let b10 = b9.push(m9);
    lemma_chain_grows(b9, m9);
    let m10 = metric_block(
        "phantom_resumptions_total"@,
        "0-RTT resumptions accepted"@,
        "counter"@,
        decimal(s.resumptions as nat),
    );
    let b11 = b10.push(m10);
    lemma_chain_grows(b10, m10);
    assert(Seq::<char>::empty() + m0 =~= m0);
    b11
}

/// What the exposition shows of the counters: for each a line with its name and its own number, and that it is
/// a counter.
pub proof fn law_counters_are_shown(s: MetricsSnapshot, rest: Seq<char>)
    ensures
        shows(
            counters_text(s) + rest,
            "\n"@ + "phantom_packets_sent_total"@ + " "@ + decimal(s.packets_sent as nat) + "\n"@,
        ),
        shows(counters_text(s) + rest, "# TYPE "@ + "phantom_packets_sent_total"@ + " "@ + "counter"@ + "\n"@),
        shows(
            counters_text(s) + rest,
            "\n"@ + "phantom_packets_recv_total"@ + " "@ + decimal(s.packets_recv as nat) + "\n"@,
        ),
        shows(counters_text(s) + rest, "# TYPE "@ + "phantom_packets_recv_total"@ + " "@ + "counter"@ + "\n"@),
        shows(
            counters_text(s) + rest,
            "\n"@ + "phantom_bytes_sent_total"@ + " "@ + decimal(s.bytes_sent as nat) + "\n"@,
        ),
        shows(counters_text(s) + rest, "# TYPE "@ + "phantom_bytes_sent_total"@ + " "@ + "counter"@ + "\n"@),
        shows(
            counters_text(s) + rest,
            "\n"@ + "phantom_bytes_recv_total"@ + " "@ + decimal(s.bytes_recv as nat) + "\n"@,
        ),
        shows(counters_text(s) + rest, "# TYPE "@ + "phantom_bytes_recv_total"@ + " "@ + "counter"@ + "\n"@),
        shows(
            counters_text(s) + rest,
            "\n"@ + "phantom_handshakes_total"@ + " "@ + decimal(s.handshakes as nat) + "\n"@,
        ),
        shows(counters_text(s) + rest, "# TYPE "@ + "phantom_handshakes_total"@ + " "@ + "counter"@ + "\n"@),
        shows(
            counters_text(s) + rest,
            "\n"@ + "phantom_handshake_failures_total"@ + " "@ + decimal(s.handshake_failures as nat) + "\n"@,
        ),
        shows(counters_text(s) + rest, "# TYPE "@ + "phantom_handshake_failures_total"@ + " "@ + "counter"@ + "\n"@),
        shows(
            counters_text(s) + rest,
            "\n"@ + "phantom_replay_rejected_total"@ + " "@ + decimal(s.replay_rejected as nat) + "\n"@,
        ),
        shows(counters_text(s) + rest, "# TYPE "@ + "phantom_replay_rejected_total"@ + " "@ + "counter"@ + "\n"@),
        shows(
            counters_text(s) + rest,
            "\n"@ + "phantom_unencrypted_dropped_total"@ + " "@ + decimal(s.unencrypted_dropped as nat) + "\n"@,
        ),
        shows(counters_text(s) + rest, "# TYPE "@ + "phantom_unencrypted_dropped_total"@ + " "@ + "counter"@ + "\n"@),
        shows(
            counters_text(s) + rest,
            "\n"@ + "phantom_aead_decrypt_failed_total"@ + " "@ + decimal(s.aead_decrypt_failed as nat) + "\n"@,
        ),
        shows(counters_text(s) + rest, "# TYPE "@ + "phantom_aead_decrypt_failed_total"@ + " "@ + "counter"@ + "\n"@),
        shows(
            counters_text(s) + rest,
            "\n"@ + "phantom_path_migrations_total"@ + " "@ + decimal(s.path_migrations as nat) + "\n"@,
        ),
        shows(counters_text(s) + rest, "# TYPE "@ + "phantom_path_migrations_total"@ + " "@ + "counter"@ + "\n"@),
        shows(
            counters_text(s) + rest,
            "\n"@ + "phantom_resumptions_total"@ + " "@ + decimal(s.resumptions as nat) + "\n"@,
        ),
        shows(counters_text(s) + rest, "# TYPE "@ + "phantom_resumptions_total"@ + " "@ + "counter"@ + "\n"@),
{
    let blocks = lemma_counters_chained(s);
    lemma_counter_shown(
        blocks,
        0,
        "phantom_packets_sent_total"@,
        "Packets transmitted"@,
        decimal(s.packets_sent as nat),
        rest,
    );
    lemma_counter_shown(
        blocks,
        1,
        "phantom_packets_recv_total"@,
        "Packets received"@,
        decimal(s.packets_recv as nat),
        rest,
    );
    lemma_counter_shown(
        blocks,
        2,
        "phantom_bytes_sent_total"@,
        "Bytes transmitted"@,
        decimal(s.bytes_sent as nat),
        rest,
    );
    lemma_counter_shown(
        blocks,
        3,
        "phantom_bytes_recv_total"@,
        "Bytes received"@,
        decimal(s.bytes_recv as nat),
        rest,
    );
    lemma_counter_shown(
        blocks,
        4,
        "phantom_handshakes_total"@,
        "Successful handshakes"@,
        decimal(s.handshakes as nat),
        rest,
    );
    lemma_counter_shown(
        blocks,
        5,
        "phantom_handshake_failures_total"@,
        "Failed handshakes"@,
        decimal(s.handshake_failures as nat),
        rest,
    );
    lemma_counter_shown(
        blocks,
        6,
        "phantom_replay_rejected_total"@,
        "Packets rejected by replay window"@,
        decimal(s.replay_rejected as nat),
        rest,
    );
    lemma_counter_shown(
        blocks,
        7,
        "phantom_unencrypted_dropped_total"@,
        "Non-empty post-handshake packets without ENCRYPTED flag"@,
        decimal(s.unencrypted_dropped as nat),
        rest,
    );
    lemma_counter_shown(
        blocks,
        8,
        "phantom_aead_decrypt_failed_total"@,
        "AEAD decryption failures (tag mismatch)"@,
        decimal(s.aead_decrypt_failed as nat),
        rest,
    );
    lemma_counter_shown(
        blocks,
        9,
        "phantom_path_migrations_total"@,
        "Successful multi-path migrations"@,
        decimal(s.path_migrations as nat),
        rest,
    );
    lemma_counter_shown(
        blocks,
        10,
        "phantom_resumptions_total"@,
        "0-RTT resumptions accepted"@,
        decimal(s.resumptions as nat),
        rest,
    );
}

proof fn lemma_counter_shown(
    blocks: Seq<Seq<char>>,
    k: int,
    name: Seq<char>,
    help: Seq<char>,
    value: Seq<char>,
    rest: Seq<char>,
)
    requires
        0 <= k < blocks.len(),
        blocks[k] == metric_block(name, help, "counter"@, value),
    ensures
        shows(chained(blocks) + rest, "\n"@ + name + " "@ + value + "\n"@),
        shows(chained(blocks) + rest, "# TYPE "@ + name + " "@ + "counter"@ + "\n"@),
{
    let none = Seq::<char>::empty();
    let line = "\n"@ + name + " "@ + value + "\n"@;
    let kinds = "# TYPE "@ + name + " "@ + "counter"@ + "\n"@;
    lemma_block_shows(name, help, "counter"@, value);
    lemma_chained_shows(blocks, k, line);
    lemma_chained_shows(blocks, k, kinds);
    lemma_shows_around(none, chained(blocks), rest, line);
    lemma_shows_around(none, chained(blocks), rest, kinds);
    assert(none + chained(blocks) + rest =~= chained(blocks) + rest);
}

/// What the exposition shows of the gauges: for each a line with its name and its own number.
pub proof fn law_gauges_are_shown(s: MetricsSnapshot, front: Seq<char>, rest: Seq<char>)
    ensures
        shows(front + gauges_text(s) + rest, "\n"@ + "phantom_active_sessions"@ + " "@ + decimal_signed(s.active_sessions as int) + "\n"@),
        shows(front + gauges_text(s) + rest, "\n"@ + "phantom_active_streams"@ + " "@ + decimal_signed(s.active_streams as int) + "\n"@),
        shows(front + gauges_text(s) + rest, "\n"@ + "phantom_rtt_us"@ + " "@ + decimal(s.rtt_us as nat) + "\n"@),
{
    let none = Seq::<char>::empty();
    let m0 = metric_block("phantom_active_sessions"@, "Current active sessions"@, "gauge"@, decimal_signed(s.active_sessions as int));
    let l0 = "\n"@ + "phantom_active_sessions"@ + " "@ + decimal_signed(s.active_sessions as int) + "\n"@;
    lemma_block_shows("phantom_active_sessions"@, "Current active sessions"@, "gauge"@, decimal_signed(s.active_sessions as int));
    let m1 = metric_block("phantom_active_streams"@, "Current active streams across all sessions"@, "gauge"@, decimal_signed(s.active_streams as int));
    let l1 = "\n"@ + "phantom_active_streams"@ + " "@ + decimal_signed(s.active_streams as int) + "\n"@;
    lemma_block_shows("phantom_active_streams"@, "Current active streams across all sessions"@, "gauge"@, decimal_signed(s.active_streams as int));
    let m2 = metric_block("phantom_rtt_us"@, "Latest observed RTT in microseconds"@, "gauge"@, decimal(s.rtt_us as nat));
    let l2 = "\n"@ + "phantom_rtt_us"@ + " "@ + decimal(s.rtt_us as nat) + "\n"@;
    lemma_block_shows("phantom_rtt_us"@, "Latest observed RTT in microseconds"@, "gauge"@, decimal(s.rtt_us as nat));
    lemma_shows_around(none, m0, m1, l0);
    assert(none + m0 + m1 =~= m0 + m1);
    lemma_shows_around(none, m0 + m1, m2, l0);
    assert(none + (m0 + m1) + m2 =~= m0 + m1 + m2);
    lemma_shows_around(m0, m1, m2, l1);
    lemma_shows_around(m0 + m1, m2, none, l2);
    assert(m0 + m1 + m2 + none =~= m0 + m1 + m2);
    assert(gauges_text(s) == m0 + m1 + m2);
    lemma_shows_around(front, gauges_text(s), rest, l0);
    lemma_shows_around(front, gauges_text(s), rest, l1);
    lemma_shows_around(front, gauges_text(s), rest, l2);
}

proof fn lemma_histogram_chained(h: HandshakeLatencyHistogram) -> (blocks: Seq<Seq<char>>)
    ensures
        blocks.len() == 9,
        chained(blocks) == histogram_text(h),
        blocks[2] == bucket_line("0.001"@, h.le_1ms),
        blocks[3] == bucket_line("0.01"@, h.le_10ms),
        blocks[4] == bucket_line("0.1"@, h.le_100ms),
        blocks[5] == bucket_line("1"@, h.le_1s),
        blocks[6] == bucket_line("+Inf"@, h.le_inf),
        blocks[7] == "phantom_handshake_latency_seconds_sum "@ + seconds_text(h.sum_ns) + "\n"@,
        blocks[8] == "phantom_handshake_latency_seconds_count "@ + decimal(h.count as nat) + "\n"@,
{
    let nl = "\n"@;
    let l0 = "# HELP phantom_handshake_latency_seconds Handshake latency distribution\n"@;
    let l1 = "# TYPE phantom_handshake_latency_seconds histogram\n"@;
    let l2 = bucket_line("0.001"@, h.le_1ms);
    let l3 = bucket_line("0.01"@, h.le_10ms);
    let l4 = bucket_line("0.1"@, h.le_100ms);
    let l5 = bucket_line("1"@, h.le_1s);
    let l6 = bucket_line("+Inf"@, h.le_inf);
    let sum = "phantom_handshake_latency_seconds_sum "@;
    let count = "phantom_handshake_latency_seconds_count "@;
    let l7 = sum + seconds_text(h.sum_ns) + nl;
    let l8 = count + decimal(h.count as nat) + nl;
    let b0 = Seq::<Seq<char>>::empty();
    let b1 = b0.push(l0);
    lemma_chain_grows(b0, l0);
    let b2 = b1.push(l1);
    lemma_chain_grows(b1, l1);
    let b3 = b2.push(l2);
    lemma_chain_grows(b2, l2);
    let b4 = b3.push(l3);
    lemma_chain_grows(b3, l3);
    let b5 = b4.push(l4);
    lemma_chain_grows(b4, l4);
    let b6 = b5.push(l5);
    lemma_chain_grows(b5, l5);
    let b7 = b6.push(l6);
    lemma_chain_grows(b6, l6);
    let b8 = b7.push(l7);
    lemma_chain_grows(b7, l7);
    let b9 = b8.push(l8);
    lemma_chain_grows(b8, l8);
    assert(Seq::<char>::empty() + l0 =~= l0);
    let p = l0 + l1 + l2 + l3 + l4 + l5 + l6;
    lemma_four(p, sum, seconds_text(h.sum_ns), nl, nl);
    lemma_four(p + l7, count, decimal(h.count as nat), nl, nl);
    b9
}

/// What the exposition shows of the latencies: for each bucket a line with its bound and its own count, the sum
/// in seconds with nine decimals, and the count.
pub proof fn law_latencies_are_shown(h: HandshakeLatencyHistogram, front: Seq<char>)
    ensures
        shows(
            front + histogram_text(h),
            "phantom_handshake_latency_seconds_bucket{le=\""@ + "0.001"@ + "\"} "@ + decimal(
            h.le_1ms as nat,
        ) + "\n"@,
        ),
        shows(
            front + histogram_text(h),
            "phantom_handshake_latency_seconds_bucket{le=\""@ + "0.01"@ + "\"} "@ + decimal(
            h.le_10ms as nat,
        ) + "\n"@,
        ),
        shows(
            front + histogram_text(h),
            "phantom_handshake_latency_seconds_bucket{le=\""@ + "0.1"@ + "\"} "@ + decimal(
            h.le_100ms as nat,
        ) + "\n"@,
        ),
        shows(
            front + histogram_text(h),
            "phantom_handshake_latency_seconds_bucket{le=\""@ + "1"@ + "\"} "@ + decimal(
            h.le_1s as nat,
        ) + "\n"@,
        ),
        shows(
            front + histogram_text(h),
            "phantom_handshake_latency_seconds_bucket{le=\""@ + "+Inf"@ + "\"} "@ + decimal(
            h.le_inf as nat,
        ) + "\n"@,
        ),
        shows(
            front + histogram_text(h),
            "phantom_handshake_latency_seconds_sum "@ + seconds_text(h.sum_ns) + "\n"@,
        ),
        shows(
            front + histogram_text(h),
            "phantom_handshake_latency_seconds_count "@ + decimal(h.count as nat) + "\n"@,
        ),
        seconds_text(h.sum_ns) == decimal((h.sum_ns as int / 1_000_000_000) as nat) + "."@
            + decimal_padded((h.sum_ns as int % 1_000_000_000) as nat, 9),
{
    let blocks = lemma_histogram_chained(h);
    lemma_line_shown(blocks, 2, front);
    lemma_line_shown(blocks, 3, front);
    lemma_line_shown(blocks, 4, front);
    lemma_line_shown(blocks, 5, front);
    lemma_line_shown(blocks, 6, front);
    lemma_line_shown(blocks, 7, front);
    lemma_line_shown(blocks, 8, front);
}

proof fn lemma_line_shown(blocks: Seq<Seq<char>>, k: int, front: Seq<char>)
    requires
        0 <= k < blocks.len(),
    ensures
        shows(front + chained(blocks), blocks[k]),
{
    let none = Seq::<char>::empty();
    lemma_shows_inside(none, blocks[k], none);
    assert(none + blocks[k] + none =~= blocks[k]);
    lemma_chained_shows(blocks, k, blocks[k]);
    lemma_shows_around(front, chained(blocks), none, blocks[k]);
    assert(front + chained(blocks) + none =~= front + chained(blocks));
}

/// What a handshake adds to the histogram: one to the count and to every bucket whose bound it did not exceed,
/// 1, 10 and 100 milliseconds, one second and none, and its time to the sum. Averages are rounded down.
pub proof fn law_handshake_is_counted(m: TransportMetrics, ns: u64, total: u64, count: u64)
    requires
        cumulative(m),
        m.handshake_latency_count < u64::MAX,
        m.handshakes_total < u64::MAX,
        m.handshake_latency_ns_total + ns <= u64::MAX,
    ensures
        ({
            let n = after_handshake(m, ns);
            &&& n.handshakes_total == m.handshakes_total + 1
            &&& n.handshake_latency_count == m.handshake_latency_count + 1
            &&& n.handshake_latency_ns_total == m.handshake_latency_ns_total + ns
            &&& n.handshake_latency_bucket_1ms - m.handshake_latency_bucket_1ms == (if ns <= 1_000_000 {
                1int
            } else {
                0
            })
            &&& n.handshake_latency_bucket_10ms - m.handshake_latency_bucket_10ms == (if ns
                <= 10_000_000 {
                1int
            } else {
                0
            })
            &&& n.handshake_latency_bucket_100ms - m.handshake_latency_bucket_100ms == (if ns
                <= 100_000_000 {
                1int
            } else {
                0
            })
            &&& n.handshake_latency_bucket_1s - m.handshake_latency_bucket_1s == (if ns
                <= 1_000_000_000 {
                1int
            } else {
                0
            })
            &&& n.handshake_latency_bucket_inf == m.handshake_latency_bucket_inf + 1
            &&& n.packets_sent == m.packets_sent && n.handshake_failures_total
                == m.handshake_failures_total
        }),
        count == 0 ==> average(total, count) == 0,
        count > 0 ==> average(total, count) * count <= total < (average(total, count) + 1) * count,
        count == 0 ==> ratio_of(total, count) == (Ratio { numerator: 1, denominator: 1 }),
        count > 0 ==> ratio_of(total, count) == (Ratio { numerator: total, denominator: count }),
{
    if count > 0 {
        let q = total as int / count as int;
        vstd::arithmetic::div_mod::lemma_fundamental_div_mod(total as int, count as int);
        vstd::arithmetic::div_mod::lemma_mod_bound(total as int, count as int);
        assert(count * q == q * count) by (nonlinear_arith);
        assert((q + 1) * count == q * count + count) by (nonlinear_arith);
    }
}

/// What a handshake leaves alone: everything but the count of handshakes and the latencies. And what is fresh counts
/// nothing.
pub proof fn law_handshake_leaves_the_rest(m: TransportMetrics, ns: u64)
    ensures
        ({
            let n = after_handshake(m, ns);
            n == (TransportMetrics {
                handshakes_total: n.handshakes_total,
                handshake_latency_ns_total: n.handshake_latency_ns_total,
                handshake_latency_count: n.handshake_latency_count,
                handshake_latency_bucket_1ms: n.handshake_latency_bucket_1ms,
                handshake_latency_bucket_10ms: n.handshake_latency_bucket_10ms,
                handshake_latency_bucket_100ms: n.handshake_latency_bucket_100ms,
                handshake_latency_bucket_1s: n.handshake_latency_bucket_1s,
                handshake_latency_bucket_inf: n.handshake_latency_bucket_inf,
                ..m
            })
        }),
        ({
            let z = zero_metrics();
            &&& z.packets_sent == 0 && z.packets_recv == 0 && z.bytes_sent == 0 && z.bytes_recv == 0
            &&& z.handshakes_total == 0 && z.handshake_failures_total == 0
            &&& z.active_sessions == 0 && z.active_streams == 0 && z.rtt_us == 0
            &&& z.handshake_latency_count == 0 && z.handshake_latency_ns_total == 0
        }),
{
}

} // verus!
