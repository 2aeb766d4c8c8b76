//! Bandwidth estimation in the manner of BBR.
//!
//! Startup doubles the rate until the bandwidth stops growing, Drain empties the queue that
//! this built, ProbeBW cycles through gains, and every ten seconds ProbeRTT shrinks the
//! window for 200 ms; a loss leads to FastRecovery, which ends when the path has drained or a
//! round trip has passed without another loss. Times are nanoseconds on a clock of the
//! caller, round trips are microseconds, and gains are hundredths.

use crate::bandwidth_estimator::window::{
    in_order, law_front_outlives, law_newest_sample_counts, updated, Samples, WindowFilter,
};
use crate::clock::Duration;
use vstd::prelude::*;

pub mod window;

verus! {

/// Where the estimator is.
#[derive(Debug, Clone, Copy, PartialEq, Eq, Structural)]
pub enum BbrState {
    Startup,
    ProbeBW,
    Drain,
    ProbeRTT,
    FastRecovery,
}

/// What an acknowledged packet tells.
#[derive(Debug, Clone, Copy)]
pub struct DeliverySample {
    /// Bytes delivered when the packet was sent.
    pub delivered_bytes: u64,
    pub sent_at: u64,
    pub acked_at: u64,
    pub packet_bytes: u64,
    /// Whether the sender had nothing more to send.
    pub is_app_limited: bool,
    /// How long the receiver held the acknowledgement back, in microseconds.
    pub ack_delay_us: u64,
}

/// Rounds without growth after which Startup ends.
pub const STARTUP_ROUNDS_LIMIT: u32 = 3;

/// Nanoseconds between two looks at the round trip.
pub const PROBE_RTT_INTERVAL_NS: u64 = 10_000_000_000;

/// Nanoseconds that a look at the round trip takes.
pub const PROBE_RTT_DURATION_NS: u64 = 200_000_000;

/// Nanoseconds in the windows.
pub const WINDOW_NS: u64 = 10_000_000_000;

/// Smallest congestion window: four packets of 1400 bytes.
pub const MIN_CWND: u64 = 5600;

/// The gain of a round of ProbeBW.
pub open spec fn probe_bw_gain(round: u32) -> u64 {
    let i = round % 4;
    if i == 0 {
        125
    } else if i == 1 {
        75
    } else {
        100
    }
}

/// What an estimator holds.
#[verifier::ext_equal]
pub struct Estimate {
    pub state: BbrState,
    /// Bytes per second.
    pub btl_bw: u64,
    pub min_rtt_us: u64,
    pub bw_window: Samples,
    pub rtt_window: Samples,
    pub delivered_bytes: u64,
    pub last_delivery: u64,
    pub pacing_gain: u64,
    pub cwnd_gain: u64,
    pub round_count: u32,
    pub filled_pipe: bool,
    pub prev_bw: u64,
    pub rounds_without_growth: u32,
    pub inflight_bytes: u64,
    pub last_probe_rtt: u64,
    pub probe_rtt_entered: Option<u64>,
    pub prior_state: BbrState,
    pub app_limited: bool,
    pub app_limited_at_delivered: u64,
    /// When FastRecovery was entered; a further loss enters it anew.
    pub fast_recovery_entered: Option<u64>,
    pub recovery_lost_bytes: u64,
}

/// `n`, or the largest 64-bit number.
pub open spec fn capped(n: int) -> u64 {
    if n <= u64::MAX {
        n as u64
    } else {
        u64::MAX
    }
}

/// The bandwidth-delay product: bytes that fill the path. The quotient is exact and rounded
/// down once; a computation in floating point may come out one byte less, 56 in place of 57
/// for 100 bytes per second and 570 ms.
pub open spec fn bdp_of(e: Estimate) -> u64 {
    capped(e.btl_bw * e.min_rtt_us / 1_000_000)
}

/// The recommended rate: the bandwidth, at least one byte per second, times the gain.
pub open spec fn rate_of(e: Estimate) -> u64 {
    let base = if e.btl_bw > 0 {
        e.btl_bw
    } else {
        1
    };
    capped(base * e.pacing_gain / 100)
}

/// The recommended congestion window.
pub open spec fn cwnd_of(e: Estimate) -> u64 {
    let scaled = capped(bdp_of(e) * e.cwnd_gain / 100);
    if e.state == BbrState::ProbeRTT || scaled < MIN_CWND {
        MIN_CWND
    } else {
        scaled
    }
}

/// The estimate moved to another state, with the gains of that state.
pub open spec fn moved(e: Estimate, to: BbrState) -> Estimate {
    let (pacing_gain, cwnd_gain) = match to {
        BbrState::Startup => (200u64, 200u64),
        BbrState::Drain => (75, 200),
        BbrState::ProbeBW => (100, 200),
        BbrState::ProbeRTT => (100, 100),
        BbrState::FastRecovery => (50, 100),
    };
    Estimate { state: to, pacing_gain, cwnd_gain, ..e }
}

/// Whether the bandwidth grew by less than a quarter since the last round.
pub open spec fn growth_stalled(e: Estimate) -> bool {
    (e.btl_bw - e.prev_bw) * 4 < e.prev_bw
}

/// The estimate after a round of Startup.
pub open spec fn startup_round(e: Estimate) -> Estimate {
    let counted = Estimate { round_count: e.round_count.wrapping_add(1), ..e };
    let next = if e.prev_bw == 0 {
        counted
    } else {
        let rounds = if growth_stalled(e) {
            (e.rounds_without_growth + 1) as u32
        } else {
            0
        };
        let judged = Estimate { rounds_without_growth: rounds, ..counted };
        if rounds >= STARTUP_ROUNDS_LIMIT {
            moved(Estimate { filled_pipe: true, ..judged }, BbrState::Drain)
        } else {
            judged
        }
    };
    Estimate { prev_bw: e.btl_bw, ..next }
}

/// Whether FastRecovery may end at `now`: no more is in flight than fills the path, or one
/// shortest round trip has passed since the last loss.
pub open spec fn recovered(e: Estimate, now: u64) -> bool {
    ||| e.inflight_bytes <= bdp_of(e)
    ||| bdp_of(e) == 0
    ||| e.fast_recovery_entered matches Some(entered) && entered <= now && now - entered
        >= e.min_rtt_us * 1000
}

/// The estimate after one step of the state machine at `now`.
pub open spec fn stepped(e: Estimate, now: u64) -> Estimate {
    let probes = e.state == BbrState::Drain || e.state == BbrState::ProbeBW;
    if probes && now - e.last_probe_rtt >= PROBE_RTT_INTERVAL_NS {
        Estimate {
            probe_rtt_entered: Some(now),
            ..moved(Estimate { prior_state: e.state, ..e }, BbrState::ProbeRTT)
        }
    } else {
        match e.state {
            BbrState::Startup => startup_round(e),
            BbrState::Drain => if e.inflight_bytes <= bdp_of(e) || bdp_of(e) == 0 {
                moved(e, BbrState::ProbeBW)
            } else {
                e
            },
            BbrState::ProbeBW => Estimate {
                pacing_gain: probe_bw_gain(e.round_count),
                cwnd_gain: 200,
                round_count: e.round_count.wrapping_add(1),
                ..e
            },
            BbrState::ProbeRTT => match e.probe_rtt_entered {
                Some(entered) => if now - entered >= PROBE_RTT_DURATION_NS {
                    moved(
                        Estimate { last_probe_rtt: now, probe_rtt_entered: None, ..e },
                        e.prior_state,
                    )
                } else {
                    e
                },
                None => moved(e, BbrState::ProbeBW),
            },
            BbrState::FastRecovery => if recovered(e, now) {
                moved(
                    Estimate { recovery_lost_bytes: 0, fast_recovery_entered: None, ..e },
                    e.prior_state,
                )
            } else {
                e
            },
        }
    }
}

/// How long a packet was under way, in nanoseconds.
pub open spec fn elapsed_ns(s: DeliverySample) -> int {
    if s.acked_at >= s.sent_at {
        s.acked_at - s.sent_at
    } else {
        0
    }
}

/// The round trip without the receiver's delay, in microseconds.
pub open spec fn propagation_us(s: DeliverySample) -> int {
    let d = elapsed_ns(s) - s.ack_delay_us * 1000;
    if d >= 0 {
        d / 1000
    } else {
        0
    }
}

/// The rate at which a packet was delivered, in bytes per second. The quotient is exact and
/// rounded down once, where one of floating-point numbers may differ in its last digits.
pub open spec fn delivery_rate(s: DeliverySample) -> u64 {
    if elapsed_ns(s) > 0 {
        capped(s.packet_bytes * 1_000_000_000 / elapsed_ns(s))
    } else {
        0
    }
}

/// The estimate after the measurements of a sample.
pub open spec fn measured(e: Estimate, s: DeliverySample) -> Estimate {
    let now = s.acked_at;
    let rtt = propagation_us(s);
    let rate = delivery_rate(s);
    let delivered = (e.delivered_bytes + s.packet_bytes) as u64;
    let rtt_window = if rtt > 0 {
        updated(false, e.rtt_window, now, rtt as u64, WINDOW_NS)
    } else {
        e.rtt_window
    };
    let counts = rate > 0 && !s.is_app_limited;
    let bw_window = if counts {
        updated(true, e.bw_window, now, rate, WINDOW_NS)
    } else {
        e.bw_window
    };
    Estimate {
        inflight_bytes: if e.inflight_bytes >= s.packet_bytes {
            (e.inflight_bytes - s.packet_bytes) as u64
        } else {
            0
        },
        delivered_bytes: delivered,
        last_delivery: now,
        rtt_window,
        min_rtt_us: if rtt > 0 {
            rtt_window[0].1
        } else {
            e.min_rtt_us
        },
        bw_window,
        btl_bw: if counts {
            bw_window[0].1
        } else {
            e.btl_bw
        },
        app_limited: e.app_limited && delivered <= e.app_limited_at_delivered,
        ..e
    }
}

/// The estimate after a loss of `bytes` at `now`.
pub open spec fn after_loss(e: Estimate, bytes: u64, now: u64) -> Estimate {
    let less = Estimate {
        inflight_bytes: if e.inflight_bytes >= bytes {
            (e.inflight_bytes - bytes) as u64
        } else {
            0
        },
        recovery_lost_bytes: capped(e.recovery_lost_bytes + bytes),
        ..e
    };
    if e.state != BbrState::FastRecovery && e.state != BbrState::ProbeRTT {
        moved(
            Estimate { prior_state: e.state, fast_recovery_entered: Some(now), ..less },
            BbrState::FastRecovery,
        )
    } else if e.state == BbrState::FastRecovery {
        Estimate { fast_recovery_entered: Some(now), ..less }
    } else {
        less
    }
}

/// What every operation keeps: Startup has rounds left, also when it is only interrupted,
/// the states that interrupt another one remember a state that they can return to, and
/// FastRecovery knows when it was entered.
pub open spec fn consistent(e: Estimate) -> bool {
    &&& e.rounds_without_growth <= STARTUP_ROUNDS_LIMIT
    &&& e.state == BbrState::Startup ==> e.rounds_without_growth < STARTUP_ROUNDS_LIMIT
    &&& e.state == BbrState::FastRecovery ==> {
        &&& e.prior_state != BbrState::FastRecovery
        &&& e.prior_state != BbrState::ProbeRTT
        &&& e.prior_state == BbrState::Startup ==> e.rounds_without_growth < STARTUP_ROUNDS_LIMIT
    }
    &&& e.state == BbrState::ProbeRTT ==> e.prior_state == BbrState::Drain || e.prior_state
        == BbrState::ProbeBW
    &&& e.state == BbrState::FastRecovery <==> e.fast_recovery_entered is Some
    &&& e.pacing_gain <= 200
    &&& e.cwnd_gain <= 200
}

/// The estimator.
#[derive(Debug)]
pub struct BandwidthEstimator {
    state: BbrState,
    btl_bw: u64,
    min_rtt_us: u64,
    bw_filter: WindowFilter,
    rtt_filter: WindowFilter,
    delivered_bytes: u64,
    last_delivery: u64,
    pacing_gain: u64,
    cwnd_gain: u64,
    round_count: u32,
    filled_pipe: bool,
    prev_bw: u64,
    rounds_without_growth: u32,
    inflight_bytes: u64,
    last_probe_rtt: u64,
    probe_rtt_entered: Option<u64>,
    prior_state: BbrState,
    app_limited: bool,
    app_limited_at_delivered: u64,
    fast_recovery_entered: Option<u64>,
    recovery_lost_bytes: u64,
}

impl View for BandwidthEstimator {
    type V = Estimate;

    closed spec fn view(&self) -> Estimate {
        Estimate {
            state: self.state,
            btl_bw: self.btl_bw,
            min_rtt_us: self.min_rtt_us,
            bw_window: self.bw_filter@,
            rtt_window: self.rtt_filter@,
            delivered_bytes: self.delivered_bytes,
            last_delivery: self.last_delivery,
            pacing_gain: self.pacing_gain,
            cwnd_gain: self.cwnd_gain,
            round_count: self.round_count,
            filled_pipe: self.filled_pipe,
            prev_bw: self.prev_bw,
            rounds_without_growth: self.rounds_without_growth,
            inflight_bytes: self.inflight_bytes,
            last_probe_rtt: self.last_probe_rtt,
            probe_rtt_entered: self.probe_rtt_entered,
            prior_state: self.prior_state,
            app_limited: self.app_limited,
            app_limited_at_delivered: self.app_limited_at_delivered,
            fast_recovery_entered: self.fast_recovery_entered,
            recovery_lost_bytes: self.recovery_lost_bytes,
        }
    }
}

fn cap(n: u128) -> (v: u64)
    ensures
        v == capped(n as int),
{
    if n <= 0xffff_ffff_ffff_ffff {
        n as u64
    } else {
        u64::MAX
    }
}

proof fn lemma_product(a: u64, b: u64)
    ensures
        0 <= a * b <= 18446744073709551615 * 18446744073709551615,
{
    assert(0 <= a * b <= 18446744073709551615 * 18446744073709551615) by (nonlinear_arith)
        requires
            0 <= a <= 18446744073709551615,
            0 <= b <= 18446744073709551615,
    ;
}

impl BandwidthEstimator {
    /// Whether the estimator is consistent and its windows are of the right kinds.
    pub closed spec fn wf(&self) -> bool {
        &&& consistent(self@)
        &&& self.bw_filter.for_largest()
        &&& !self.rtt_filter.for_largest()
        &&& self.bw_filter.size() == WINDOW_NS
        &&& self.rtt_filter.size() == WINDOW_NS
    }

    /// An estimator in Startup at `now`, with a round trip of 100 ms.
    pub fn new(now: u64) -> (e: Self)
        ensures
            e.wf(),
            e@ == (Estimate {
                state: BbrState::Startup,
                btl_bw: 0,
                min_rtt_us: 100_000,
                bw_window: Samples::empty(),
                rtt_window: Samples::empty(),
                delivered_bytes: 0,
                last_delivery: now,
                pacing_gain: 200,
                cwnd_gain: 200,
                round_count: 0,
                filled_pipe: false,
                prev_bw: 0,
                rounds_without_growth: 0,
                inflight_bytes: 0,
                last_probe_rtt: now,
                probe_rtt_entered: None,
                prior_state: BbrState::ProbeBW,
                app_limited: false,
                app_limited_at_delivered: 0,
                fast_recovery_entered: None,
                recovery_lost_bytes: 0,
            }),
    {
        BandwidthEstimator {
            state: BbrState::Startup,
            btl_bw: 0,
            min_rtt_us: 100_000,
            bw_filter: WindowFilter::new(WINDOW_NS, true),
            rtt_filter: WindowFilter::new(WINDOW_NS, false),
            delivered_bytes: 0,
            last_delivery: now,
            pacing_gain: 200,
            cwnd_gain: 200,
            round_count: 0,
            filled_pipe: false,
            prev_bw: 0,
            rounds_without_growth: 0,
            inflight_bytes: 0,
            last_probe_rtt: now,
            probe_rtt_entered: None,
            prior_state: BbrState::ProbeBW,
            app_limited: false,
            app_limited_at_delivered: 0,
            fast_recovery_entered: None,
            recovery_lost_bytes: 0,
        }
    }

    /// Note that `bytes` were sent.
    pub fn on_send(&mut self, bytes: u64)
        requires
            old(self).wf(),
        ensures
            final(self).wf(),
            final(self)@ == (Estimate {
                inflight_bytes: capped(old(self)@.inflight_bytes + bytes),
                ..old(self)@
            }),
    {
        self.inflight_bytes = self.inflight_bytes.saturating_add(bytes);
    }

    /// Take in a sample, and return the recommended rate. The delivered bytes have to fit
    /// their counter.
    pub fn on_ack(&mut self, sample: DeliverySample) -> (rate: u64)
        requires
            old(self).wf(),
            old(self)@.delivered_bytes + sample.packet_bytes <= u64::MAX,
        ensures
            final(self).wf(),
            final(self)@ == stepped(measured(old(self)@, sample), sample.acked_at),
            rate == rate_of(final(self)@),
    {
        let now: u64 = sample.acked_at;
        self.inflight_bytes = self.inflight_bytes.saturating_sub(sample.packet_bytes);
        self.delivered_bytes = self.delivered_bytes + sample.packet_bytes;
        self.last_delivery = now;
        let elapsed: u64 = sample.acked_at.saturating_sub(sample.sent_at);
        let delay: u128 = sample.ack_delay_us as u128 * 1000;
        let propagation: u64 = if elapsed as u128 >= delay {
            ((elapsed as u128 - delay) / 1000) as u64
        } else {
            0
        };
        if propagation > 0 {
            self.min_rtt_us = self.rtt_filter.update(now, propagation);
        }
        let rate: u64 = if elapsed > 0 {
            let n: u128 = sample.packet_bytes as u128 * 1_000_000_000 / elapsed as u128;
            cap(n)
        } else {
            0
        };
        if rate > 0 && !sample.is_app_limited {
            self.btl_bw = self.bw_filter.update(now, rate);
        }
        if self.app_limited && self.delivered_bytes > self.app_limited_at_delivered {
            self.app_limited = false;
        }
        assert(self@ == measured(old(self)@, sample));
        self.update_state(now);
        self.pacing_rate()
    }

    /// Note a loss of `bytes` at `now`.
    pub fn on_loss(&mut self, bytes: u64, now: u64)
        requires
            old(self).wf(),
        ensures
            final(self).wf(),
            final(self)@ == after_loss(old(self)@, bytes, now),
    {
        self.inflight_bytes = self.inflight_bytes.saturating_sub(bytes);
        self.recovery_lost_bytes = self.recovery_lost_bytes.saturating_add(bytes);
        if self.state != BbrState::FastRecovery && self.state != BbrState::ProbeRTT {
            self.prior_state = self.state;
            self.fast_recovery_entered = Some(now);
            self.transition_to(BbrState::FastRecovery);
        } else if self.state == BbrState::FastRecovery {
            self.fast_recovery_entered = Some(now);
        }
    }

    /// Note that the sender has nothing more to send.
    pub fn set_app_limited(&mut self)
        requires
            old(self).wf(),
        ensures
            final(self).wf(),
            final(self)@ == (Estimate {
                app_limited: true,
                app_limited_at_delivered: old(self)@.delivered_bytes,
                ..old(self)@
            }),
    {
        self.app_limited = true;
        self.app_limited_at_delivered = self.delivered_bytes;
    }

    /// Whether the sender had nothing more to send.
    pub fn is_app_limited(&self) -> (b: bool)
        ensures
            b == self@.app_limited,
    {
        self.app_limited
    }

    /// The recommended rate, in bytes per second.
    pub fn pacing_rate(&self) -> (rate: u64)
        ensures
            rate == rate_of(self@),
    {
        let base: u64 = if self.btl_bw > 0 {
            self.btl_bw
        } else {
            1
        };
        proof {
            lemma_product(base, self.pacing_gain);
        }
        cap(base as u128 * self.pacing_gain as u128 / 100)
    }

    /// The recommended congestion window, in bytes.
    pub fn cwnd(&self) -> (n: u64)
        ensures
            n == cwnd_of(self@),
    {
        if self.state == BbrState::ProbeRTT {
            return MIN_CWND;
        }
        let bdp: u64 = self.bdp();
        proof {
            lemma_product(bdp, self.cwnd_gain);
        }
        let scaled: u64 = cap(bdp as u128 * self.cwnd_gain as u128 / 100);
        if scaled < MIN_CWND {
            MIN_CWND
        } else {
            scaled
        }
    }

    /// The bandwidth-delay product, in bytes.
    pub fn bdp(&self) -> (n: u64)
        ensures
            n == bdp_of(self@),
    {
        proof {
            lemma_product(self.btl_bw, self.min_rtt_us);
        }
        cap(self.btl_bw as u128 * self.min_rtt_us as u128 / 1_000_000)
    }

    /// The bytes in flight.
    pub fn inflight_bytes(&self) -> (n: u64)
        ensures
            n == self@.inflight_bytes,
    {
        self.inflight_bytes
    }

    /// The bandwidth, in bytes per second.
    pub fn bottleneck_bandwidth(&self) -> (n: u64)
        ensures
            n == self@.btl_bw,
    {
        self.btl_bw
    }

    /// The shortest round trip.
    pub fn min_rtt(&self) -> (d: Duration)
        ensures
            d.spec_nanos() == self@.min_rtt_us * 1000,
    {
        Duration::from_micros(self.min_rtt_us)
    }

    /// The state.
    pub fn state(&self) -> (s: BbrState)
        ensures
            s == self@.state,
    {
        self.state
    }

    /// The bytes delivered so far.
    pub fn delivered_bytes(&self) -> (n: u64)
        ensures
            n == self@.delivered_bytes,
    {
        self.delivered_bytes
    }

    /// The rounds so far.
    pub fn round_count(&self) -> (n: u32)
        ensures
            n == self@.round_count,
    {
        self.round_count
    }

    /// One step of the state machine.
    fn update_state(&mut self, now: u64)
        requires
            old(self).wf(),
        ensures
            final(self).wf(),
            final(self)@ == stepped(old(self)@, now),
    {
        if self.state != BbrState::ProbeRTT && self.state != BbrState::Startup && self.state
            != BbrState::FastRecovery && now.saturating_sub(self.last_probe_rtt)
            >= PROBE_RTT_INTERVAL_NS {
            self.prior_state = self.state;
            self.transition_to(BbrState::ProbeRTT);
            self.probe_rtt_entered = Some(now);
            return;
        }
        match self.state {
            BbrState::Startup => {
                self.round_count = self.round_count.wrapping_add(1);
                if self.prev_bw > 0 {
                    let stalled: bool = (self.btl_bw as i128 - self.prev_bw as i128) * 4
                        < self.prev_bw as i128;
                    if stalled {
                        self.rounds_without_growth = self.rounds_without_growth + 1;
                    } else {
                        self.rounds_without_growth = 0;
                    }
                    if self.rounds_without_growth >= STARTUP_ROUNDS_LIMIT {
                        self.filled_pipe = true;
                        self.transition_to(BbrState::Drain);
                    }
                }
                self.prev_bw = self.btl_bw;
            },
            BbrState::Drain => {
                let bdp: u64 = self.bdp();
                if self.inflight_bytes <= bdp || bdp == 0 {
                    self.transition_to(BbrState::ProbeBW);
                }
            },
            BbrState::ProbeBW => {
                let i: u32 = self.round_count % 4;
                self.pacing_gain = if i == 0 {
                    125
                } else if i == 1 {
                    75
                } else {
                    100
                };
                self.cwnd_gain = 200;
                self.round_count = self.round_count.wrapping_add(1);
            },
            BbrState::ProbeRTT => {
                if let Some(entered) = self.probe_rtt_entered {
                    if now.saturating_sub(entered) >= PROBE_RTT_DURATION_NS {
                        self.last_probe_rtt = now;
                        self.probe_rtt_entered = None;
                        self.transition_to(self.prior_state);
                    }
                } else {
                    self.transition_to(BbrState::ProbeBW);
                }
            },
            BbrState::FastRecovery => {
                let bdp: u64 = self.bdp();
                let quiet: bool = match self.fast_recovery_entered {
                    Some(entered) => entered <= now && (now - entered) as u128
                        >= self.min_rtt_us as u128 * 1000,
                    None => false,
                };
                if self.inflight_bytes <= bdp || bdp == 0 || quiet {
                    self.recovery_lost_bytes = 0;
                    self.fast_recovery_entered = None;
                    self.transition_to(self.prior_state);
                }
            },
        }
    }

    /// Move to another state.
    fn transition_to(&mut self, new_state: BbrState)
        ensures
            final(self)@ == moved(old(self)@, new_state),
            final(self).bw_filter == old(self).bw_filter,
            final(self).rtt_filter == old(self).rtt_filter,
    {
        match new_state {
            BbrState::Startup => {
                self.pacing_gain = 200;
                self.cwnd_gain = 200;
            },
            BbrState::Drain => {
                self.pacing_gain = 75;
                self.cwnd_gain = 200;
            },
            BbrState::ProbeBW => {
                self.pacing_gain = 100;
                self.cwnd_gain = 200;
            },
            BbrState::ProbeRTT => {
                self.pacing_gain = 100;
                self.cwnd_gain = 100;
            },
            BbrState::FastRecovery => {
                self.pacing_gain = 50;
                self.cwnd_gain = 100;
            },
        }
        self.state = new_state;
    }
}

/// Every operation keeps the estimate consistent.
pub proof fn law_estimate_stays_consistent(e: Estimate, s: DeliverySample, bytes: u64, now: u64)
    requires
        consistent(e),
    ensures
        consistent(measured(e, s)),
        consistent(stepped(e, now)),
        consistent(after_loss(e, bytes, now)),
{
}

/// The congestion window is never below four packets, and a loss never raises the rate
/// above half the bandwidth.
pub proof fn law_recommendations(e: Estimate, bytes: u64, now: u64)
    ensures
        cwnd_of(e) >= MIN_CWND,
        e.state == BbrState::ProbeRTT ==> cwnd_of(e) == MIN_CWND,
        e.state != BbrState::ProbeRTT && e.state != BbrState::FastRecovery ==> after_loss(
            e,
            bytes,
            now,
        ).state == BbrState::FastRecovery && rate_of(after_loss(e, bytes, now)) == (if e.btl_bw
            > 0 {
            e.btl_bw / 2
        } else {
            0
        }),
{
    let b = e.btl_bw as int;
    assert(b * 50 / 100 == b / 2);
    assert(1int * 50 / 100 == 0);
}

/// Samples of a sender that had nothing more to send never change the bandwidth.
pub proof fn law_app_limited_samples_do_not_count(e: Estimate, s: DeliverySample)
    requires
        s.is_app_limited,
    ensures
        stepped(measured(e, s), s.acked_at).btl_bw == e.btl_bw,
{
}

/// Drain and FastRecovery last while more is in flight than fills the path: Drain ends only
/// when it does not, or for a look at the round trip, and FastRecovery only when it does not,
/// or one shortest round trip after the last loss.
pub proof fn law_queue_is_drained(e: Estimate, now: u64)
    requires
        e.inflight_bytes > bdp_of(e),
        bdp_of(e) > 0,
    ensures
        e.state == BbrState::Drain ==> stepped(e, now).state == BbrState::Drain || stepped(
            e,
            now,
        ).state == BbrState::ProbeRTT,
        e.state == BbrState::FastRecovery && !recovered(e, now) ==> stepped(e, now) == e,
{
}

/// FastRecovery gives way to the state that it interrupted one shortest round trip after the
/// last loss, whatever is in flight; a further loss starts that time anew.
pub proof fn law_recovery_ends_after_a_quiet_round_trip(
    e: Estimate,
    bytes: u64,
    lost_at: u64,
    now: u64,
)
    requires
        e.state == BbrState::FastRecovery,
        lost_at <= now,
        now - lost_at >= e.min_rtt_us * 1000,
    ensures
        stepped(after_loss(e, bytes, lost_at), now).state == e.prior_state,
        stepped(after_loss(e, bytes, lost_at), now).fast_recovery_entered is None,
        stepped(after_loss(e, bytes, lost_at), now).recovery_lost_bytes == 0,
{
}

/// A look at the round trip lasts 200 ms. Until then nothing changes; from then on the
/// estimator is back in the state that it came from, with the gains of that state, and the
/// next look is ten seconds away.
pub proof fn law_look_at_the_round_trip_ends(e: Estimate, entered: u64, now: u64)
    requires
        e.state == BbrState::ProbeRTT,
        e.probe_rtt_entered == Some(entered),
    ensures
        now < entered + 200_000_000 ==> stepped(e, now) == e,
        now >= entered + 200_000_000 ==> {
            let next = stepped(e, now);
            &&& next.state == e.prior_state
            &&& next.probe_rtt_entered is None
            &&& next.last_probe_rtt == now
            &&& e.prior_state == BbrState::Drain ==> next.pacing_gain == 75 && next.cwnd_gain
                == 200
            &&& e.prior_state == BbrState::ProbeBW ==> next.pacing_gain == 100 && next.cwnd_gain
                == 200
            &&& next == (Estimate {
                state: next.state,
                probe_rtt_entered: next.probe_rtt_entered,
                last_probe_rtt: next.last_probe_rtt,
                pacing_gain: next.pacing_gain,
                cwnd_gain: next.cwnd_gain,
                ..e
            })
        },
{
}

/// Drain and ProbeBW make room for a look at the round trip ten seconds after the last one and
/// no sooner, Startup and FastRecovery never do. A look shrinks the window to four packets, and
/// the first step 200 ms later or more takes the estimator back to where it was.
pub proof fn law_looks_come_every_ten_seconds(e: Estimate, now: u64, later: u64)
    requires
        consistent(e),
        e.state != BbrState::ProbeRTT,
    ensures
        stepped(e, now).state == BbrState::ProbeRTT <==> (e.state == BbrState::Drain || e.state
            == BbrState::ProbeBW) && now >= e.last_probe_rtt + 10_000_000_000,
        (e.state == BbrState::Drain || e.state == BbrState::ProbeBW) && now >= e.last_probe_rtt
            + 10_000_000_000 ==> {
            let look = stepped(e, now);
            &&& look.probe_rtt_entered == Some(now)
            &&& cwnd_of(look) == 5600
            &&& look.btl_bw == e.btl_bw && look.min_rtt_us == e.min_rtt_us
            &&& look.inflight_bytes == e.inflight_bytes && look.round_count == e.round_count
            &&& later >= now + 200_000_000 ==> stepped(look, later).state == e.state && stepped(
                look,
                later,
            ).last_probe_rtt == later
            &&& now <= later < now + 200_000_000 ==> stepped(look, later).state
                == BbrState::ProbeRTT
        },
{
}

/// Startup ends at the third round in a row in which the bandwidth grew by less than a quarter,
/// and not before; the rate is twice the bandwidth until then and three quarters of it after.
pub proof fn law_startup_ends_when_the_path_is_full(e: Estimate, now: u64)
    requires
        consistent(e),
        e.state == BbrState::Startup,
    ensures
        ({
            let next = stepped(e, now);
            let stalled = e.prev_bw > 0 && e.btl_bw * 4 < e.prev_bw * 5;
            &&& next.state == BbrState::Startup || next.state == BbrState::Drain
            &&& next.state == BbrState::Drain <==> stalled && e.rounds_without_growth == 2
            &&& next.state == BbrState::Drain ==> next.filled_pipe && next.pacing_gain == 75
                && next.cwnd_gain == 200
            &&& next.state == BbrState::Startup ==> next.filled_pipe == e.filled_pipe
                && next.pacing_gain == e.pacing_gain && next.cwnd_gain == e.cwnd_gain
            &&& stalled ==> next.rounds_without_growth == e.rounds_without_growth + 1
            &&& e.prev_bw > 0 && !stalled ==> next.rounds_without_growth == 0
            &&& e.prev_bw == 0 ==> next.rounds_without_growth == e.rounds_without_growth
            &&& next.prev_bw == e.btl_bw
            &&& e.round_count < u32::MAX ==> next.round_count == e.round_count + 1
            &&& next.btl_bw == e.btl_bw && next.min_rtt_us == e.min_rtt_us
            &&& next.inflight_bytes == e.inflight_bytes && next.last_probe_rtt == e.last_probe_rtt
        }),
{
}

/// A bandwidth that does not grow any more ends Startup after three rounds.
pub proof fn law_flat_bandwidth_ends_startup(e: Estimate, t1: u64, t2: u64, t3: u64)
    requires
        e.state == BbrState::Startup,
        e.rounds_without_growth == 0,
        e.prev_bw == e.btl_bw,
        e.btl_bw > 0,
    ensures
        stepped(e, t1).state == BbrState::Startup,
        stepped(stepped(e, t1), t2).state == BbrState::Startup,
        stepped(stepped(stepped(e, t1), t2), t3).state == BbrState::Drain,
{
}

/// Drain gives way to ProbeBW exactly when no more is in flight than fills the path, or when
/// nothing is known of the path; until then nothing changes. A look at the round trip comes
/// first when it is due.
pub proof fn law_drain_ends_when_drained(e: Estimate, now: u64)
    requires
        e.state == BbrState::Drain,
        now < e.last_probe_rtt + 10_000_000_000,
        e.btl_bw * e.min_rtt_us / 1_000_000 <= u64::MAX,
    ensures
        ({
            let next = stepped(e, now);
            let fills = e.btl_bw * e.min_rtt_us / 1_000_000;
            &&& e.inflight_bytes <= fills || fills == 0 ==> next.state == BbrState::ProbeBW
                && next.pacing_gain == 100 && next.cwnd_gain == 200
            &&& e.inflight_bytes > fills && fills > 0 ==> next == e
            &&& next.inflight_bytes == e.inflight_bytes && next.btl_bw == e.btl_bw
                && next.round_count == e.round_count
        }),
{
}

/// ProbeBW runs through the gains 1.25, 0.75, 1 and 1, one for each round: four rounds in a row
/// pace at the bandwidth on average, and the state stays.
pub proof fn law_bandwidth_is_probed_in_cycles(e: Estimate, now: u64)
    requires
        e.state == BbrState::ProbeBW,
        now < e.last_probe_rtt + 10_000_000_000,
    ensures
        ({
            let a = stepped(e, now);
            let b = stepped(a, now);
            let c = stepped(b, now);
            let d = stepped(c, now);
            &&& a.pacing_gain + b.pacing_gain + c.pacing_gain + d.pacing_gain == 400
            &&& a.pacing_gain == 125 ==> b.pacing_gain == 75 && c.pacing_gain == 100
                && d.pacing_gain == 100
            &&& a.pacing_gain == 125 <==> e.round_count % 4 == 0
            &&& a.pacing_gain == 75 <==> e.round_count % 4 == 1
            &&& stepped(d, now).pacing_gain == a.pacing_gain
            &&& a.state == BbrState::ProbeBW
            &&& a.cwnd_gain == 200
            &&& e.round_count < u32::MAX ==> a.round_count == e.round_count + 1
            &&& e.round_count == u32::MAX ==> a.round_count == 0
            &&& a.btl_bw == e.btl_bw && a.inflight_bytes == e.inflight_bytes && a.last_probe_rtt
                == e.last_probe_rtt
        }),
{
}

/// FastRecovery gives way to the state that it interrupted exactly when no more is in flight
/// than fills the path, when nothing is known of the path, or one shortest round trip after the
/// last loss; until then nothing changes.
pub proof fn law_recovery_ends(e: Estimate, entered: u64, now: u64)
    requires
        e.state == BbrState::FastRecovery,
        e.fast_recovery_entered == Some(entered),
        e.btl_bw * e.min_rtt_us / 1_000_000 <= u64::MAX,
    ensures
        ({
            let next = stepped(e, now);
            let fills = e.btl_bw * e.min_rtt_us / 1_000_000;
            let ends = e.inflight_bytes <= fills || fills == 0 || (now >= entered && now - entered
                >= e.min_rtt_us * 1000);
            &&& ends ==> next.state == e.prior_state && next.recovery_lost_bytes == 0
                && next.fast_recovery_entered is None
            &&& !ends ==> next == e
            &&& e.prior_state == BbrState::Startup && ends ==> next.pacing_gain == 200
                && next.cwnd_gain == 200
            &&& e.prior_state == BbrState::ProbeBW && ends ==> next.pacing_gain == 100
                && next.cwnd_gain == 200
            &&& e.prior_state == BbrState::Drain && ends ==> next.pacing_gain == 75
                && next.cwnd_gain == 200
            &&& next.inflight_bytes == e.inflight_bytes && next.btl_bw == e.btl_bw
        }),
{
}

/// A loss takes its bytes out of flight, adds them to the losses of the recovery, and halves the
/// rate; it changes neither the bandwidth nor the round trip. During a look at the round trip
/// the state stays.
pub proof fn law_loss_backs_off(e: Estimate, bytes: u64, now: u64)
    ensures
        ({
            let next = after_loss(e, bytes, now);
            &&& e.inflight_bytes >= bytes ==> next.inflight_bytes == e.inflight_bytes - bytes
            &&& e.inflight_bytes < bytes ==> next.inflight_bytes == 0
            &&& e.recovery_lost_bytes + bytes <= u64::MAX ==> next.recovery_lost_bytes
                == e.recovery_lost_bytes + bytes
            &&& next.btl_bw == e.btl_bw && next.min_rtt_us == e.min_rtt_us
                && next.delivered_bytes == e.delivered_bytes
            &&& e.state != BbrState::ProbeRTT ==> next.state == BbrState::FastRecovery
                && next.fast_recovery_entered == Some(now)
            &&& e.state != BbrState::ProbeRTT && e.state != BbrState::FastRecovery
                ==> next.prior_state == e.state && next.pacing_gain == 50 && next.cwnd_gain == 100
            &&& e.state == BbrState::FastRecovery ==> next.prior_state == e.prior_state
                && next.pacing_gain == e.pacing_gain && next.cwnd_gain == e.cwnd_gain
            &&& e.state == BbrState::ProbeRTT ==> next.state == e.state && next.prior_state
                == e.prior_state && next.pacing_gain == e.pacing_gain && next.cwnd_gain
                == e.cwnd_gain && next.probe_rtt_entered == e.probe_rtt_entered
        }),
{
}

/// What is recommended: the rate is the bandwidth times the gain, rounded down, and the window
/// is what fills the path times the gain, at least four packets of 1400 bytes.
pub proof fn law_recommendations_follow_the_path(e: Estimate)
    requires
        e.btl_bw * e.min_rtt_us <= u64::MAX,
        e.pacing_gain <= 200,
        e.cwnd_gain <= 200,
        e.btl_bw <= u64::MAX / 200,
    ensures
        e.btl_bw > 0 ==> rate_of(e) * 100 <= e.btl_bw * e.pacing_gain < (rate_of(e) + 1) * 100,
        e.btl_bw == 0 ==> rate_of(e) == e.pacing_gain as int / 100,
        bdp_of(e) * 1_000_000 <= e.btl_bw * e.min_rtt_us < (bdp_of(e) + 1) * 1_000_000,
        e.state == BbrState::ProbeRTT ==> cwnd_of(e) == 5600,
        e.state != BbrState::ProbeRTT ==> {
            let scaled = e.btl_bw * e.min_rtt_us / 1_000_000 * e.cwnd_gain / 100;
            &&& scaled >= 5600 ==> cwnd_of(e) == scaled
            &&& scaled < 5600 ==> cwnd_of(e) == 5600
        },
{
    let b = e.btl_bw as int;
    let g = e.pacing_gain as int;
    assert(0 <= b * g <= b * 200) by (nonlinear_arith)
        requires
            0 <= g <= 200,
            0 <= b,
    ;
    let p = bdp_of(e) as int;
    let c = e.cwnd_gain as int;
    assert(0 <= e.btl_bw * e.min_rtt_us) by (nonlinear_arith);
    assert(0 <= p * c <= p * 200) by (nonlinear_arith)
        requires
            0 <= c <= 200,
            0 <= p,
    ;
    assert(p <= u64::MAX / 1_000_000);
}

/// What a sample tells. Its bytes were delivered and are no longer in flight. The rate is its
/// bytes over its time, and the round trip its time without the receiver's delay, both rounded
/// down. The bandwidth is then at least the rate of a sample that counts, and the shortest round
/// trip at most that of the sample.
pub proof fn law_sample_is_taken_in(e: Estimate, s: DeliverySample)
    requires
        e.delivered_bytes + s.packet_bytes <= u64::MAX,
        s.packet_bytes * 1_000_000_000 <= u64::MAX,
        in_order(true, e.bw_window),
        in_order(false, e.rtt_window),
    ensures
        ({
            let next = measured(e, s);
            let time = s.acked_at - s.sent_at;
            &&& next.delivered_bytes == e.delivered_bytes + s.packet_bytes
            &&& e.inflight_bytes >= s.packet_bytes ==> next.inflight_bytes == e.inflight_bytes
                - s.packet_bytes
            &&& e.inflight_bytes < s.packet_bytes ==> next.inflight_bytes == 0
            &&& next.last_delivery == s.acked_at
            &&& next.state == e.state && next.pacing_gain == e.pacing_gain && next.cwnd_gain
                == e.cwnd_gain
            &&& time > 0 ==> delivery_rate(s) * time <= s.packet_bytes * 1_000_000_000 < (
            delivery_rate(s) + 1) * time
            &&& time <= 0 ==> delivery_rate(s) == 0
            &&& time >= s.ack_delay_us * 1000 ==> propagation_us(s) * 1000 <= time
                - s.ack_delay_us * 1000 < (propagation_us(s) + 1) * 1000
            &&& time < s.ack_delay_us * 1000 ==> propagation_us(s) == 0
            &&& delivery_rate(s) > 0 && !s.is_app_limited ==> next.btl_bw >= delivery_rate(s)
            &&& delivery_rate(s) == 0 || s.is_app_limited ==> next.btl_bw == e.btl_bw
            &&& propagation_us(s) > 0 ==> next.min_rtt_us <= propagation_us(s)
            &&& propagation_us(s) == 0 ==> next.min_rtt_us == e.min_rtt_us
            &&& next.app_limited <==> e.app_limited && e.delivered_bytes + s.packet_bytes
                <= e.app_limited_at_delivered
        }),
{
    let time = s.acked_at - s.sent_at;
    let bits = (s.packet_bytes * 1_000_000_000) as int;
    if time > 0 {
        let q = bits / time;
        vstd::arithmetic::div_mod::lemma_fundamental_div_mod(bits, time);
        vstd::arithmetic::div_mod::lemma_mod_bound(bits, time);
        assert(time * q == q * time) by (nonlinear_arith);
        assert((q + 1) * time == q * time + time) by (nonlinear_arith);
        assert(0 <= q <= bits) by (nonlinear_arith)
            requires
                q == bits / time,
                bits >= 0,
                time >= 1,
        ;
    }
    law_newest_sample_counts(true, e.bw_window, s.acked_at, delivery_rate(s), 10_000_000_000);
    law_newest_sample_counts(false, e.rtt_window, s.acked_at, propagation_us(s) as u64, 10_000_000_000);
}

/// The bandwidth remembers the best sample of the last ten seconds and the round trip the
/// shortest: a sample in front of its window counts on for ten seconds, and is forgotten after
/// that.
pub proof fn law_samples_count_for_ten_seconds(e: Estimate, s: DeliverySample)
    requires
        s.packet_bytes * 1_000_000_000 <= u64::MAX,
        s.acked_at > s.sent_at,
        in_order(true, e.bw_window),
        in_order(false, e.rtt_window),
        delivery_rate(s) > 0,
        !s.is_app_limited,
        propagation_us(s) > 0,
    ensures
        e.bw_window.len() > 0 && s.acked_at <= e.bw_window[0].0 + 10_000_000_000 && delivery_rate(s)
            < e.bw_window[0].1 ==> measured(e, s).btl_bw == e.bw_window[0].1,
        (forall|i: int| 0 <= i < e.bw_window.len() ==> s.acked_at > (#[trigger] e.bw_window[i]).0
            + 10_000_000_000) ==> measured(e, s).btl_bw == delivery_rate(s),
        e.rtt_window.len() > 0 && s.acked_at <= e.rtt_window[0].0 + 10_000_000_000
            && propagation_us(s) > e.rtt_window[0].1 ==> measured(e, s).min_rtt_us
            == e.rtt_window[0].1,
        (forall|i: int| 0 <= i < e.rtt_window.len() ==> s.acked_at > (#[trigger] e.rtt_window[i]).0
            + 10_000_000_000) ==> measured(e, s).min_rtt_us == propagation_us(s),
{
    law_front_outlives(true, e.bw_window, s.acked_at, delivery_rate(s), 10_000_000_000);
    law_front_outlives(false, e.rtt_window, s.acked_at, propagation_us(s) as u64, 10_000_000_000);
}

/// Bytes that are sent are in flight until they are acknowledged: a sample of as many bytes takes
/// them out again.
pub proof fn law_sent_bytes_come_home(e: Estimate, s: DeliverySample)
    requires
        e.inflight_bytes + s.packet_bytes <= u64::MAX,
    ensures
        ({
            let sent = Estimate {
                inflight_bytes: capped(e.inflight_bytes + s.packet_bytes),
                ..e
            };
            &&& sent.inflight_bytes == e.inflight_bytes + s.packet_bytes
            &&& measured(sent, s).inflight_bytes == e.inflight_bytes
        }),
{
}

/// What does not fit is held at the largest number: the rate of a delivery, the bytes that fill the path, the
/// recommended rate, and the bytes lost in a recovery.
pub proof fn law_large_numbers_are_held(e: Estimate, s: DeliverySample, bytes: u64, now: u64)
    ensures
        s.acked_at > s.sent_at && s.packet_bytes * 1_000_000_000 / (s.acked_at - s.sent_at)
            > u64::MAX ==> delivery_rate(s) == u64::MAX,
        s.acked_at > s.sent_at && s.packet_bytes * 1_000_000_000 / (s.acked_at - s.sent_at)
            <= u64::MAX ==> delivery_rate(s) == s.packet_bytes * 1_000_000_000 / (s.acked_at
            - s.sent_at),
        e.btl_bw * e.min_rtt_us / 1_000_000 > u64::MAX ==> bdp_of(e) == u64::MAX,
        e.btl_bw * e.min_rtt_us / 1_000_000 <= u64::MAX ==> bdp_of(e) == e.btl_bw * e.min_rtt_us
            / 1_000_000,
        e.btl_bw > 0 && e.btl_bw * e.pacing_gain / 100 > u64::MAX ==> rate_of(e) == u64::MAX,
        e.btl_bw > 0 && e.btl_bw * e.pacing_gain / 100 <= u64::MAX ==> rate_of(e) == e.btl_bw
            * e.pacing_gain / 100,
        e.state != BbrState::ProbeRTT && bdp_of(e) * e.cwnd_gain / 100 > u64::MAX ==> cwnd_of(e)
            == u64::MAX,
        e.recovery_lost_bytes + bytes > u64::MAX ==> after_loss(e, bytes, now).recovery_lost_bytes
            == u64::MAX,
{
}

/// What a sample and a loss leave alone: a sample changes only what it measures, and a loss only the state, its
/// gains and its counts.
pub proof fn law_what_stays(e: Estimate, s: DeliverySample, bytes: u64, now: u64)
    ensures
        ({
            let next = measured(e, s);
            next == (Estimate {
                btl_bw: next.btl_bw,
                min_rtt_us: next.min_rtt_us,
                bw_window: next.bw_window,
                rtt_window: next.rtt_window,
                delivered_bytes: next.delivered_bytes,
                last_delivery: next.last_delivery,
                inflight_bytes: next.inflight_bytes,
                app_limited: next.app_limited,
                ..e
            })
        }),
        ({
            let next = after_loss(e, bytes, now);
            next == (Estimate {
                state: next.state,
                prior_state: next.prior_state,
                pacing_gain: next.pacing_gain,
                cwnd_gain: next.cwnd_gain,
                inflight_bytes: next.inflight_bytes,
                recovery_lost_bytes: next.recovery_lost_bytes,
                fast_recovery_entered: next.fast_recovery_entered,
                ..e
            })
        }),
{
}

} // verus!
