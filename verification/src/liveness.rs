//! Path-liveness decisions.
//!
//! A path is down after a run of probe timeouts without inbound packets while data is
//! outstanding. An idle session sends keep-alives, so that a path that only downloads has
//! something outstanding too.

use crate::clock::{saturating_times, Duration};
use vstd::prelude::*;

verus! {

/// Thresholds of path-down and session-death detection.
#[derive(Debug, Clone, Copy)]
pub struct LivenessConfig {
    /// Floor of the probe timeout; the timeout is three round trips, at least this.
    pub min_pto: Duration,
    /// Probe timeouts of silence, with data outstanding, before the path is down.
    pub path_down_ptos: u32,
    /// How long a migrating session waits for recovery before it is dead.
    pub idle_timeout: Duration,
    /// How often an idle session sends a keep-alive; `None` for never.
    pub keepalive_interval: Option<Duration>,
}

/// The probe timeout in nanoseconds.
pub open spec fn probe_timeout(cfg: LivenessConfig, min_rtt: Duration) -> nat {
    let scaled = saturating_times(min_rtt.spec_nanos(), 3);
    if scaled > cfg.min_pto.spec_nanos() {
        scaled
    } else {
        cfg.min_pto.spec_nanos()
    }
}

/// The silence in nanoseconds after which a path with outstanding data is down.
pub open spec fn path_down_threshold(cfg: LivenessConfig, min_rtt: Duration) -> nat {
    saturating_times(probe_timeout(cfg, min_rtt), cfg.path_down_ptos as nat)
}

impl Default for LivenessConfig {
    fn default() -> (c: Self)
        ensures
            c.min_pto.spec_nanos() == 200_000_000,
            c.path_down_ptos == 5,
            c.idle_timeout.spec_nanos() == 30_000_000_000,
            c.keepalive_interval matches Some(iv) && iv.spec_nanos() == 15_000_000_000,
    {
        LivenessConfig {
            min_pto: Duration::from_millis(200),
            path_down_ptos: 5,
            idle_timeout: Duration::from_secs(30),
            keepalive_interval: Some(Duration::from_secs(15)),
        }
    }
}

impl LivenessConfig {
    /// Thresholds in milliseconds, for tests.
    pub fn for_test() -> (c: Self)
        ensures
            c.min_pto.spec_nanos() == 10_000_000,
            c.path_down_ptos == 3,
            c.idle_timeout.spec_nanos() == 300_000_000,
            c.keepalive_interval matches Some(iv) && iv.spec_nanos() == 40_000_000,
    {
        LivenessConfig {
            min_pto: Duration::from_millis(10),
            path_down_ptos: 3,
            idle_timeout: Duration::from_millis(300),
            keepalive_interval: Some(Duration::from_millis(40)),
        }
    }

    fn pto(&self, min_rtt: Duration) -> (d: Duration)
        ensures
            d.spec_nanos() == probe_timeout(*self, min_rtt),
    {
        let scaled: Duration = min_rtt.saturating_mul(3);
        if scaled.as_nanos() > self.min_pto.as_nanos() {
            scaled
        } else {
            self.min_pto
        }
    }

    fn path_down_after(&self, min_rtt: Duration) -> (d: Duration)
        ensures
            d.spec_nanos() == path_down_threshold(*self, min_rtt),
    {
        self.pto(min_rtt).saturating_mul(self.path_down_ptos)
    }
}

/// What one evaluation implies for the session state.
#[derive(Debug, Clone, Copy, PartialEq, Eq, Structural)]
pub enum LivenessVerdict {
    /// Keep the state.
    Unchanged,
    /// The path is down.
    PathDown,
    /// Inbound packets resumed while migrating.
    Recovered,
    /// No recovery within the idle timeout.
    Dead,
}

/// The verdict that the signals call for.
pub open spec fn verdict(
    silence: Duration,
    inflight: u64,
    min_rtt: Duration,
    in_migrating: bool,
    migrating_for: Duration,
    cfg: LivenessConfig,
) -> LivenessVerdict {
    if in_migrating {
        if silence.spec_nanos() <= probe_timeout(cfg, min_rtt) {
            LivenessVerdict::Recovered
        } else if migrating_for.spec_nanos() > cfg.idle_timeout.spec_nanos() {
            LivenessVerdict::Dead
        } else {
            LivenessVerdict::Unchanged
        }
    } else if inflight > 0 && silence.spec_nanos() > path_down_threshold(cfg, min_rtt) {
        LivenessVerdict::PathDown
    } else {
        LivenessVerdict::Unchanged
    }
}

/// Decide the transition: `silence` since the last authenticated packet, `inflight`
/// outstanding bytes, the estimate `min_rtt`, and whether and how long the session has been
/// migrating.
pub fn liveness_verdict(
    silence: Duration,
    inflight: u64,
    min_rtt: Duration,
    in_migrating: bool,
    migrating_for: Duration,
    cfg: &LivenessConfig,
) -> (v: LivenessVerdict)
    ensures
        v == verdict(silence, inflight, min_rtt, in_migrating, migrating_for, *cfg),
{
    if in_migrating {
        if silence.as_nanos() <= cfg.pto(min_rtt).as_nanos() {
            return LivenessVerdict::Recovered;
        }
        if migrating_for.as_nanos() > cfg.idle_timeout.as_nanos() {
            return LivenessVerdict::Dead;
        }
        return LivenessVerdict::Unchanged;
    }
    if inflight > 0 && silence.as_nanos() > cfg.path_down_after(min_rtt).as_nanos() {
        LivenessVerdict::PathDown
    } else {
        LivenessVerdict::Unchanged
    }
}

/// Whether a keep-alive is due: the session is connected and idle, and both the inbound silence
/// and the time since the last keep-alive reach the interval.
pub open spec fn keepalive_due(
    connected: bool,
    inflight: u64,
    inbound_silence: Duration,
    since_last_keepalive: Duration,
    cfg: LivenessConfig,
) -> bool {
    cfg.keepalive_interval matches Some(iv) && connected && inflight == 0
        && inbound_silence.spec_nanos() >= iv.spec_nanos() && since_last_keepalive.spec_nanos()
        >= iv.spec_nanos()
}

/// Whether an idle session sends a keep-alive now: it is connected, nothing is in flight,
/// and both the inbound silence and the time since the last keep-alive reach the interval.
pub fn should_send_keepalive(
    connected: bool,
    inflight: u64,
    inbound_silence: Duration,
    since_last_keepalive: Duration,
    cfg: &LivenessConfig,
) -> (b: bool)
    ensures
        b == (cfg.keepalive_interval matches Some(iv) && connected && inflight == 0
            && inbound_silence.spec_nanos() >= iv.spec_nanos() && since_last_keepalive.spec_nanos()
            >= iv.spec_nanos()),
        b == keepalive_due(connected, inflight, inbound_silence, since_last_keepalive, *cfg),
{
    match cfg.keepalive_interval {
        None => false,
        Some(iv) => connected && inflight == 0 && inbound_silence.as_nanos() >= iv.as_nanos()
            && since_last_keepalive.as_nanos() >= iv.as_nanos(),
    }
}

/// Without outstanding data a path is never declared down, a session that heard from its
/// peer within a probe timeout is never declared dead, and only a migrating session
/// recovers or dies.
pub proof fn law_verdicts(
    silence: Duration,
    inflight: u64,
    min_rtt: Duration,
    in_migrating: bool,
    migrating_for: Duration,
    cfg: LivenessConfig,
)
    ensures
        ({
            let v = verdict(silence, inflight, min_rtt, in_migrating, migrating_for, cfg);
            &&& v == LivenessVerdict::PathDown ==> inflight > 0 && !in_migrating
            &&& silence.spec_nanos() <= probe_timeout(cfg, min_rtt) ==> v != LivenessVerdict::Dead
            &&& v == LivenessVerdict::Recovered || v == LivenessVerdict::Dead ==> in_migrating
        }),
{
}

/// When a session is given up, recovers or goes down. A migrating session has recovered when it
/// heard from its peer within a probe timeout, which is three round trips and at least the
/// floor; else it is dead once it has migrated for longer than the idle timeout, and waits until
/// then. Another session's path is down once the silence exceeds the configured number of probe
/// timeouts with data outstanding.
pub proof fn law_verdict_is_exact(
    silence: Duration,
    inflight: u64,
    min_rtt: Duration,
    in_migrating: bool,
    migrating_for: Duration,
    cfg: LivenessConfig,
)
    requires
        silence.spec_nanos() <= 18446744073709551615999999999,
        cfg.min_pto.spec_nanos() <= 18446744073709551615999999999,
    ensures
        ({
            let v = verdict(silence, inflight, min_rtt, in_migrating, migrating_for, cfg);
            let quiet = silence.spec_nanos() as int;
            let rtts = 3 * min_rtt.spec_nanos() as int;
            let floor = cfg.min_pto.spec_nanos() as int;
            let heard = quiet <= rtts || quiet <= floor;
            &&& v == LivenessVerdict::Recovered <==> in_migrating && heard
            &&& v == LivenessVerdict::Dead <==> in_migrating && !heard
                && migrating_for.spec_nanos() > cfg.idle_timeout.spec_nanos()
            &&& v == LivenessVerdict::PathDown <==> !in_migrating && inflight > 0 && quiet
                > cfg.path_down_ptos * rtts && quiet > cfg.path_down_ptos * floor
        }),
{
    let quiet = silence.spec_nanos() as int;
    let r = min_rtt.spec_nanos() as int;
    let floor = cfg.min_pto.spec_nanos() as int;
    let k = cfg.path_down_ptos as int;
    let max = 18446744073709551615999999999int;
    let pto = probe_timeout(cfg, min_rtt) as int;
    let capped = if 3 * r <= max {
        3 * r
    } else {
        max
    };
    let best = if capped > floor {
        capped
    } else {
        floor
    };
    assert(r * 3 == 3 * r);
    assert(pto == best);
    assert(pto * k == k * pto) by (nonlinear_arith);
    assert(k * capped <= k * (3 * r)) by (nonlinear_arith)
        requires
            capped <= 3 * r,
            k >= 0,
    ;
    assert(k * capped <= k * best && k * floor <= k * best) by (nonlinear_arith)
        requires
            capped <= best,
            floor <= best,
            k >= 0,
    ;
    if k == 0 {
        assert(k * capped == 0 && k * floor == 0 && k * best == 0 && k * (3 * r) == 0)
            by (nonlinear_arith)
            requires
                k == 0,
        ;
    } else {
        assert(k * (3 * r) >= 3 * r && k * best >= best && k * floor >= floor)
            by (nonlinear_arith)
            requires
                k >= 1,
                r >= 0,
                best >= 0,
                floor >= 0,
        ;
    }
}

/// A session that hears from its peer, or that has just begun to migrate, is never given up, and
/// longer silence or longer migration never makes a verdict milder.
pub proof fn law_death_is_monotone(
    silence: Duration,
    longer_silence: Duration,
    inflight: u64,
    min_rtt: Duration,
    migrating_for: Duration,
    longer: Duration,
    cfg: LivenessConfig,
)
    requires
        silence.spec_nanos() <= longer_silence.spec_nanos(),
        migrating_for.spec_nanos() <= longer.spec_nanos(),
    ensures
        migrating_for.spec_nanos() <= cfg.idle_timeout.spec_nanos() ==> verdict(
            silence,
            inflight,
            min_rtt,
            true,
            migrating_for,
            cfg,
        ) != LivenessVerdict::Dead,
        verdict(silence, inflight, min_rtt, true, migrating_for, cfg) == LivenessVerdict::Dead
            ==> verdict(longer_silence, inflight, min_rtt, true, longer, cfg)
            == LivenessVerdict::Dead,
        verdict(silence, inflight, min_rtt, false, migrating_for, cfg) == LivenessVerdict::PathDown
            ==> verdict(longer_silence, inflight, min_rtt, false, longer, cfg)
            == LivenessVerdict::PathDown,
{
}

/// At most one keep-alive goes out per interval, none while data is outstanding, none without an
/// interval; and a connected idle session that has been silent for the interval sends one.
pub proof fn law_keepalives_are_spaced(
    connected: bool,
    inflight: u64,
    inbound_silence: Duration,
    since_last_keepalive: Duration,
    cfg: LivenessConfig,
)
    ensures
        ({
            let due = keepalive_due(
                connected,
                inflight,
                inbound_silence,
                since_last_keepalive,
                cfg,
            );
            &&& due ==> connected && inflight == 0 && cfg.keepalive_interval is Some
            &&& due ==> since_last_keepalive.spec_nanos() >= cfg.keepalive_interval->0.spec_nanos()
            &&& due ==> inbound_silence.spec_nanos() >= cfg.keepalive_interval->0.spec_nanos()
            &&& connected && inflight == 0 && cfg.keepalive_interval is Some
                && since_last_keepalive.spec_nanos() >= cfg.keepalive_interval->0.spec_nanos()
                && inbound_silence.spec_nanos() >= cfg.keepalive_interval->0.spec_nanos() ==> due
        }),
{
}

} // verus!
