//! Fallback between transport modes: repeated failures degrade the mode step by step,
//! and healing leads straight back to the best one. Times are milliseconds on a clock
//! of the caller.

use vstd::prelude::*;

verus! {

/// A transport mode.
#[derive(Debug, Clone, Copy, PartialEq, Eq, Structural)]
pub enum TransportMode {
    /// Reliable UDP.
    Turbo,
    /// TCP.
    Reliable,
    /// TCP dressed as TLS.
    Stealth,
}

/// The mode one step down; the lowest stays.
pub open spec fn step_down(mode: TransportMode) -> TransportMode {
    match mode {
        TransportMode::Turbo => TransportMode::Reliable,
        TransportMode::Reliable => TransportMode::Stealth,
        TransportMode::Stealth => TransportMode::Stealth,
    }
}

/// When to fall back.
#[derive(Debug, Clone, Copy, PartialEq, Eq, Structural)]
pub struct FallbackTrigger {
    pub max_rtt: u32,
    pub max_loss: u8,
    pub failure_threshold: u32,
}

impl FallbackTrigger {
    /// The default trigger.
    pub open spec fn standard() -> FallbackTrigger {
        FallbackTrigger { max_rtt: 500, max_loss: 10, failure_threshold: 3 }
    }
}

impl Default for FallbackTrigger {
    fn default() -> (t: Self)
        ensures
            t == FallbackTrigger::standard(),
    {
        FallbackTrigger { max_rtt: 500, max_loss: 10, failure_threshold: 3 }
    }
}

/// What fallback decisions go by. The counters wrap at their limit.
#[derive(Debug, Clone, Copy, PartialEq, Eq, Structural)]
pub struct FallbackMetrics {
    pub packets_sent: u64,
    pub packets_acked: u64,
    /// Failures since the last success.
    pub connection_failures: u32,
    /// When the last success came, in milliseconds of Unix time.
    pub last_success_ms: u64,
}

impl FallbackMetrics {
    /// Nothing recorded.
    pub open spec fn nothing() -> FallbackMetrics {
        FallbackMetrics {
            packets_sent: 0,
            packets_acked: 0,
            connection_failures: 0,
            last_success_ms: 0,
        }
    }

    /// The metrics after one more failure.
    pub open spec fn failed(self) -> FallbackMetrics {
        FallbackMetrics { connection_failures: self.connection_failures.wrapping_add(1), ..self }
    }

    /// Count a packet that was sent.
    pub fn record_sent(&mut self)
        ensures
            *final(self) == (FallbackMetrics {
                packets_sent: old(self).packets_sent.wrapping_add(1),
                ..*old(self)
            }),
    {
        self.packets_sent = self.packets_sent.wrapping_add(1);
    }

    /// Count a success at `now_ms`. The failures so far are forgiven.
    pub fn record_success(&mut self, now_ms: u64)
        ensures
            *final(self) == (FallbackMetrics {
                packets_acked: old(self).packets_acked.wrapping_add(1),
                connection_failures: 0,
                last_success_ms: now_ms,
                ..*old(self)
            }),
    {
        self.packets_acked = self.packets_acked.wrapping_add(1);
        self.connection_failures = 0;
        self.last_success_ms = now_ms;
    }

    /// Count a failure.
    pub fn record_failure(&mut self)
        ensures
            *final(self) == old(self).failed(),
    {
        self.connection_failures = self.connection_failures.wrapping_add(1);
    }
}

impl Default for FallbackMetrics {
    fn default() -> (m: Self)
        ensures
            m == FallbackMetrics::nothing(),
    {
        FallbackMetrics {
            packets_sent: 0,
            packets_acked: 0,
            connection_failures: 0,
            last_success_ms: 0,
        }
    }
}

/// How long a probe of the best mode waits after the last one and after the last
/// change of mode.
pub const PROBE_INTERVAL_MS: u64 = 30_000;

/// The state of the fallback machine.
#[derive(Debug, Clone, Copy, PartialEq, Eq, Structural)]
pub struct FallbackState {
    pub current_mode: TransportMode,
    /// The mode to return to.
    pub best_mode: TransportMode,
    pub trigger: FallbackTrigger,
    pub metrics: FallbackMetrics,
    /// When the mode changed last.
    pub last_change: u64,
    /// When the best mode was probed last.
    pub last_probe: u64,
}

impl FallbackState {
    /// The state at the start.
    pub open spec fn fresh(trigger: FallbackTrigger, now: u64) -> FallbackState {
        FallbackState {
            current_mode: TransportMode::Turbo,
            best_mode: TransportMode::Turbo,
            trigger,
            metrics: FallbackMetrics::nothing(),
            last_change: now,
            last_probe: now,
        }
    }

    /// The state after a step down.
    pub open spec fn degraded(self, now: u64) -> FallbackState {
        if step_down(self.current_mode) == self.current_mode {
            self
        } else {
            FallbackState {
                current_mode: step_down(self.current_mode),
                last_change: now,
                ..self
            }
        }
    }

    /// Whether the failures call for a step down.
    pub open spec fn too_many_failures(self) -> bool {
        self.metrics.connection_failures >= self.trigger.failure_threshold
    }

    /// The state after the failures were looked at.
    pub open spec fn checked(self, now: u64) -> FallbackState {
        if self.too_many_failures() {
            self.degraded(now)
        } else {
            self
        }
    }

    /// The state after a failure.
    pub open spec fn failed(self, now: u64) -> FallbackState {
        FallbackState { metrics: self.metrics.failed(), ..self }.checked(now)
    }

    /// The state after healing.
    pub open spec fn upgraded(self, now: u64) -> FallbackState {
        if self.current_mode == self.best_mode {
            self
        } else {
            FallbackState {
                current_mode: self.best_mode,
                last_change: now,
                metrics: FallbackMetrics { connection_failures: 0, ..self.metrics },
                ..self
            }
        }
    }

    /// Whether the best mode is due for a probe.
    pub open spec fn probe_due(self, now: u64) -> bool {
        &&& self.current_mode != self.best_mode
        &&& now - self.last_probe > PROBE_INTERVAL_MS
        &&& now - self.last_change > PROBE_INTERVAL_MS
    }
}

/// The fallback machine.
pub struct FallbackStateMachine {
    state: FallbackState,
}

impl View for FallbackStateMachine {
    type V = FallbackState;

    closed spec fn view(&self) -> FallbackState {
        self.state
    }
}

impl FallbackStateMachine {
    /// A machine with the default trigger.
    pub fn with_defaults(now_ms: u64) -> (m: Self)
        ensures
            m@ == FallbackState::fresh(FallbackTrigger::standard(), now_ms),
    {
        FallbackStateMachine::new(
            FallbackTrigger { max_rtt: 500, max_loss: 10, failure_threshold: 3 },
            now_ms,
        )
    }

    /// A machine in the best mode.
    pub fn new(trigger: FallbackTrigger, now_ms: u64) -> (m: Self)
        ensures
            m@ == FallbackState::fresh(trigger, now_ms),
    {
        FallbackStateMachine {
            state: FallbackState {
                current_mode: TransportMode::Turbo,
                best_mode: TransportMode::Turbo,
                trigger,
                metrics: FallbackMetrics {
                    packets_sent: 0,
                    packets_acked: 0,
                    connection_failures: 0,
                    last_success_ms: 0,
                },
                last_change: now_ms,
                last_probe: now_ms,
            },
        }
    }

    /// The metrics.
    pub fn metrics(&self) -> (m: &FallbackMetrics)
        ensures
            *m == self@.metrics,
    {
        &self.state.metrics
    }

    /// The metrics, to record in.
    pub fn metrics_mut(&mut self) -> (m: &mut FallbackMetrics)
        ensures
            *m == old(self)@.metrics,
            final(self)@ == (FallbackState { metrics: *final(m), ..old(self)@ }),
    {
        &mut self.state.metrics
    }

    /// The mode in use.
    pub fn current_mode(&self) -> (mode: TransportMode)
        ensures
            mode == self@.current_mode,
    {
        self.state.current_mode
    }

    /// Step down if there were too many failures. Returns whether there were.
    pub fn check_and_fallback(&mut self, now_ms: u64) -> (b: bool)
        ensures
            final(self)@ == old(self)@.checked(now_ms),
            b == old(self)@.too_many_failures(),
    {
        if self.state.metrics.connection_failures >= self.state.trigger.failure_threshold {
            self.degrade(now_ms);
            return true;
        }
        false
    }

    /// Count a failure, and step down if there were too many.
    pub fn record_failure(&mut self, now_ms: u64)
        ensures
            final(self)@ == old(self)@.failed(now_ms),
    {
        self.state.metrics.record_failure();
        self.check_and_fallback(now_ms);
    }

    /// Step down.
    pub fn degrade(&mut self, now_ms: u64)
        ensures
            final(self)@ == old(self)@.degraded(now_ms),
    {
        let new_mode = match self.state.current_mode {
            TransportMode::Turbo => TransportMode::Reliable,
            TransportMode::Reliable => TransportMode::Stealth,
            TransportMode::Stealth => TransportMode::Stealth,
        };
        if new_mode != self.state.current_mode {
            self.state.current_mode = new_mode;
            self.state.last_change = now_ms;
        }
    }

    /// Return to the best mode, and forgive the failures.
    pub fn upgrade(&mut self, now_ms: u64)
        ensures
            final(self)@ == old(self)@.upgraded(now_ms),
    {
        if self.state.current_mode != self.state.best_mode {
            self.state.current_mode = self.state.best_mode;
            self.state.last_change = now_ms;
            self.state.metrics.connection_failures = 0;
        }
    }

    /// Whether the best mode is due for a probe: it is not in use, and both the last
    /// probe and the last change are more than thirty seconds ago.
    pub fn should_probe(&self, now_ms: u64) -> (b: bool)
        ensures
            b == self@.probe_due(now_ms),
    {
        if self.state.current_mode == self.state.best_mode {
            return false;
        }
        now_ms > self.state.last_probe && now_ms - self.state.last_probe > PROBE_INTERVAL_MS
            && now_ms > self.state.last_change && now_ms - self.state.last_change
            > PROBE_INTERVAL_MS
    }

    /// Note a probe.
    pub fn record_probe(&mut self, now_ms: u64)
        ensures
            final(self)@ == (FallbackState { last_probe: now_ms, ..old(self)@ }),
    {
        self.state.last_probe = now_ms;
    }
}

/// Two steps down reach the lowest mode from any other, further steps change nothing, and
/// healing leads back to the best mode with the failures forgiven.
pub proof fn law_degradation_is_undone(s: FallbackState, t1: u64, t2: u64, t3: u64)
    ensures
        s.degraded(t1).degraded(t2).current_mode == TransportMode::Stealth,
        s.degraded(t1).degraded(t2).degraded(t3) == s.degraded(t1).degraded(t2),
        s.upgraded(t1).current_mode == s.best_mode,
        s.current_mode != s.best_mode ==> s.upgraded(t1).metrics.connection_failures == 0,
{
}

/// Right after a change of mode or a probe, and in the best mode, no probe is due.
pub proof fn law_probes_are_spaced(s: FallbackState, at: u64, now: u64)
    requires
        now - at <= PROBE_INTERVAL_MS,
    ensures
        step_down(s.current_mode) != s.current_mode ==> !s.degraded(at).probe_due(now),
        !(FallbackState { last_probe: at, ..s }).probe_due(now),
        !s.upgraded(at).probe_due(now),
{
}

/// When a failure leads a step down: exactly when it makes the failures since the last success reach
/// the threshold, three by default. The step is from Turbo to Reliable and from there to Stealth, and a
/// success in between starts the count anew.
pub proof fn law_failures_step_down(s: FallbackState, now: u64)
    requires
        s.metrics.connection_failures < u32::MAX,
    ensures
        ({
            let next = s.failed(now);
            let reached = s.metrics.connection_failures + 1 >= s.trigger.failure_threshold;
            &&& next.metrics.connection_failures == s.metrics.connection_failures + 1
            &&& !reached ==> next.current_mode == s.current_mode && next.last_change
                == s.last_change
            &&& reached && s.current_mode == TransportMode::Turbo ==> next.current_mode
                == TransportMode::Reliable && next.last_change == now
            &&& reached && s.current_mode == TransportMode::Reliable ==> next.current_mode
                == TransportMode::Stealth && next.last_change == now
            &&& reached && s.current_mode == TransportMode::Stealth ==> next.current_mode
                == TransportMode::Stealth && next.last_change == s.last_change
            &&& next.best_mode == s.best_mode && next.last_probe == s.last_probe && next.trigger
                == s.trigger
        }),
        FallbackTrigger::standard() == (FallbackTrigger {
            max_rtt: 500,
            max_loss: 10,
            failure_threshold: 3,
        }),
{
}

/// Three failures in a row take a fresh machine from Turbo to Reliable, and not two; the fourth takes it
/// to Stealth, where it stays.
pub proof fn law_fresh_machine_degrades(start: u64, t: u64)
    ensures
        ({
            let s0 = FallbackState::fresh(FallbackTrigger::standard(), start);
            let s2 = s0.failed(t).failed(t);
            &&& s0.current_mode == TransportMode::Turbo && s0.best_mode == TransportMode::Turbo
            &&& s2.current_mode == TransportMode::Turbo
            &&& s2.failed(t).current_mode == TransportMode::Reliable
            &&& s2.failed(t).failed(t).current_mode == TransportMode::Stealth
            &&& s2.failed(t).upgraded(t).current_mode == TransportMode::Turbo
        }),
{
}

/// When the best mode is probed: exactly when another mode is in use and both the last probe and the
/// last change of mode are more than thirty seconds ago. Healing to the best mode forgives the failures
/// and notes the time; in the best mode it changes nothing.
pub proof fn law_probe_comes_after_thirty_seconds(s: FallbackState, now: u64)
    ensures
        s.probe_due(now) <==> s.current_mode != s.best_mode && now > s.last_probe + 30_000 && now
            > s.last_change + 30_000,
        s.current_mode != s.best_mode ==> s.upgraded(now) == (FallbackState {
            current_mode: s.best_mode,
            last_change: now,
            metrics: FallbackMetrics { connection_failures: 0, ..s.metrics },
            ..s
        }),
        s.current_mode == s.best_mode ==> s.upgraded(now) == s,
        s.too_many_failures() <==> s.metrics.connection_failures >= s.trigger.failure_threshold,
{
}

} // verus!
