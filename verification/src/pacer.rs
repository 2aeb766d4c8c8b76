//! Token-bucket pacing of outbound bytes.
//!
//! Tokens come at the pacing rate up to a burst allowance; each byte sent costs one. Times
//! are nanoseconds on a clock of the caller that starts with the pacer.

use crate::clock::Duration;
use vstd::prelude::*;

verus! {

/// Lowest pacing rate, in bytes per second.
pub const MIN_PACING_RATE: u64 = 1024;

/// Most tokens that can accumulate.
pub const MAX_BURST_BYTES: u64 = 65536;

/// A token-bucket pacer.
#[derive(Debug, Clone, Copy)]
pub struct Pacer {
    tokens: u64,
    rate_bps: u64,
    last_refill_ns: u64,
    enabled: bool,
}

/// What a pacer holds.
#[verifier::ext_equal]
pub struct Bucket {
    pub tokens: nat,
    /// Bytes per second.
    pub rate: nat,
    /// When tokens were last added.
    pub last_ns: nat,
    pub enabled: bool,
}

/// The tokens that come in `elapsed_ns`.
pub open spec fn earned(rate: nat, elapsed_ns: int) -> nat {
    if elapsed_ns <= 0 {
        0
    } else {
        (rate * elapsed_ns) as nat / 1_000_000_000
    }
}

/// A bucket refilled at `now_ns`. The time stays where it is until it is worth a token.
pub open spec fn refilled(b: Bucket, now_ns: nat) -> Bucket {
    let got = earned(b.rate, now_ns - b.last_ns);
    if got == 0 {
        b
    } else {
        Bucket {
            tokens: if b.tokens + got <= MAX_BURST_BYTES {
                b.tokens + got
            } else {
                MAX_BURST_BYTES as nat
            },
            last_ns: now_ns,
            ..b
        }
    }
}

/// A rate, at least the lowest.
pub open spec fn at_least_min(rate: u64) -> nat {
    if rate >= MIN_PACING_RATE {
        rate as nat
    } else {
        MIN_PACING_RATE as nat
    }
}

impl View for Pacer {
    type V = Bucket;

    closed spec fn view(&self) -> Bucket {
        Bucket {
            tokens: self.tokens as nat,
            rate: self.rate_bps as nat,
            last_ns: self.last_refill_ns as nat,
            enabled: self.enabled,
        }
    }
}

impl Pacer {
    /// The rate is not below the lowest, and the tokens are within the burst allowance.
    #[verifier::type_invariant]
    spec fn inv(&self) -> bool {
        self.rate_bps >= MIN_PACING_RATE && self.tokens <= MAX_BURST_BYTES
    }

    /// A pacer with a full burst allowance and the given rate, in bytes per second.
    pub fn new(initial_rate_bps: u64) -> (p: Self)
        ensures
            p@ == (Bucket {
                tokens: MAX_BURST_BYTES as nat,
                rate: at_least_min(initial_rate_bps),
                last_ns: 0,
                enabled: true,
            }),
    {
        let rate: u64 = if initial_rate_bps >= MIN_PACING_RATE {
            initial_rate_bps
        } else {
            MIN_PACING_RATE
        };
        Pacer { tokens: MAX_BURST_BYTES, rate_bps: rate, last_refill_ns: 0, enabled: true }
    }

    /// A pacer that always allows sends.
    pub fn unlimited() -> (p: Self)
        ensures
            p@ == (Bucket {
                tokens: MAX_BURST_BYTES as nat,
                rate: u64::MAX as nat,
                last_ns: 0,
                enabled: false,
            }),
    {
        let mut p: Pacer = Pacer::new(u64::MAX);
        p.enabled = false;
        p
    }

    /// Add the tokens that came since the last refill.
    fn refill_tokens(&mut self, now_ns: u64)
        ensures
            final(self)@ == refilled(old(self)@, now_ns as nat),
    {
        proof {
            use_type_invariant(&*self);
        }
        let elapsed_ns: u64 = now_ns.saturating_sub(self.last_refill_ns);
        if elapsed_ns == 0 {
            return;
        }
        proof {
            let r = self.rate_bps as int;
            let e = elapsed_ns as int;
            assert(0 <= r * e <= 18446744073709551615 * 18446744073709551615) by (nonlinear_arith)
                requires
                    0 <= r <= 18446744073709551615,
                    0 <= e <= 18446744073709551615,
            ;
        }
        let got: u128 = self.rate_bps as u128 * elapsed_ns as u128 / 1_000_000_000;
        if got > 0 {
            let sum: u128 = self.tokens as u128 + got;
            let updated: u64 = if sum <= MAX_BURST_BYTES as u128 {
                sum as u64
            } else {
                MAX_BURST_BYTES
            };
            self.tokens = updated;
            self.last_refill_ns = now_ns;
        }
    }

    /// Consume `bytes` tokens at `now_ns`. `false` when there are not enough.
    pub fn try_consume(&mut self, bytes: u64, now_ns: u64) -> (granted: bool)
        ensures
            !old(self)@.enabled ==> granted && final(self)@ == old(self)@,
            old(self)@.enabled ==> {
                let b = refilled(old(self)@, now_ns as nat);
                &&& granted <==> b.tokens >= bytes
                &&& final(self)@ == (Bucket {
                    tokens: if granted {
                        (b.tokens - bytes) as nat
                    } else {
                        b.tokens
                    },
                    ..b
                })
            },
    {
        if !self.enabled {
            return true;
        }
        self.refill_tokens(now_ns);
        proof {
            use_type_invariant(&*self);
        }
        if self.tokens >= bytes {
            self.tokens = self.tokens - bytes;
            true
        } else {
            false
        }
    }

    /// How long it takes from `now_ns` until `bytes` tokens are there.
    pub fn time_until_available(&mut self, bytes: u64, now_ns: u64) -> (d: Duration)
        ensures
            !old(self)@.enabled ==> d.spec_nanos() == 0 && final(self)@ == old(self)@,
            old(self)@.enabled ==> {
                let b = refilled(old(self)@, now_ns as nat);
                &&& final(self)@ == b
                &&& b.tokens >= bytes ==> d.spec_nanos() == 0
                &&& b.tokens < bytes ==> d.spec_nanos() == ((bytes - b.tokens) * 1_000_000_000)
                    as nat / b.rate
            },
    {
        if !self.enabled {
            return Duration::zero();
        }
        self.refill_tokens(now_ns);
        proof {
            use_type_invariant(&*self);
        }
        if self.tokens >= bytes {
            return Duration::zero();
        }
        let deficit: u64 = bytes - self.tokens;
        let nanos: u128 = deficit as u128 * 1_000_000_000 / self.rate_bps as u128;
        proof {
            let n = (deficit * 1_000_000_000) as int;
            let r = self.rate_bps as int;
            assert(n / r <= n) by (nonlinear_arith)
                requires
                    n >= 0,
                    r >= 1,
            ;
        }
        Duration::from_nanos_saturating(nanos)
    }

    /// Set the pacing rate, in bytes per second.
    pub fn set_rate(&mut self, rate_bps: u64)
        ensures
            final(self)@ == (Bucket { rate: at_least_min(rate_bps), ..old(self)@ }),
    {
        proof {
            use_type_invariant(&*self);
        }
        self.rate_bps = if rate_bps >= MIN_PACING_RATE {
            rate_bps
        } else {
            MIN_PACING_RATE
        };
    }

    /// The pacing rate, in bytes per second.
    pub fn rate(&self) -> (r: u64)
        ensures
            r == self@.rate,
    {
        self.rate_bps
    }

    /// Switch pacing on or off.
    pub fn set_enabled(&mut self, enabled: bool)
        ensures
            final(self)@ == (Bucket { enabled, ..old(self)@ }),
    {
        proof {
            use_type_invariant(&*self);
        }
        self.enabled = enabled;
    }

    /// Whether pacing is on.
    pub fn is_enabled(&self) -> (b: bool)
        ensures
            b == self@.enabled,
    {
        self.enabled
    }

    /// The tokens there are at `now_ns`.
    pub fn available_tokens(&mut self, now_ns: u64) -> (n: u64)
        ensures
            final(self)@ == refilled(old(self)@, now_ns as nat),
            n == final(self)@.tokens,
            n <= MAX_BURST_BYTES,
    {
        self.refill_tokens(now_ns);
        proof {
            use_type_invariant(&*self);
        }
        self.tokens
    }
}

/// The bucket after a request for `bytes` at `now_ns`.
pub open spec fn after_request(b: Bucket, bytes: nat, now_ns: nat) -> Bucket {
    let r = refilled(b, now_ns);
    if r.tokens >= bytes {
        Bucket { tokens: (r.tokens - bytes) as nat, ..r }
    } else {
        r
    }
}

/// The bytes granted to a run of requests, each `(bytes, now_ns)`.
pub open spec fn granted(b: Bucket, requests: Seq<(nat, nat)>) -> nat
    decreases requests.len(),
{
    if requests.len() == 0 {
        0
    } else {
        let (bytes, now_ns) = requests[0];
        (if refilled(b, now_ns).tokens >= bytes {
            bytes
        } else {
            0
        }) + granted(after_request(b, bytes, now_ns), requests.skip(1))
    }
}

proof fn lemma_request_costs(b: Bucket, bytes: nat, now_ns: nat, end_ns: nat)
    requires
        b.last_ns <= end_ns,
        now_ns <= end_ns,
    ensures
        ({
            let a = after_request(b, bytes, now_ns);
            let cost = if refilled(b, now_ns).tokens >= bytes {
                bytes
            } else {
                0
            };
            &&& cost * 1_000_000_000 + a.tokens * 1_000_000_000 + a.rate * (end_ns - a.last_ns)
                <= b.tokens * 1_000_000_000 + b.rate * (end_ns - b.last_ns)
            &&& a.rate == b.rate
            &&& a.last_ns <= end_ns
        }),
{
    let got = earned(b.rate, now_ns - b.last_ns);
    if got > 0 {
        let r = b.rate as int;
        let x = now_ns - b.last_ns;
        let y = end_ns - now_ns;
        assert((r * x) / 1_000_000_000 * 1_000_000_000 <= r * x);
        assert(r * (x + y) == r * x + r * y) by (nonlinear_arith);
        assert(end_ns - b.last_ns == x + y);
    }
}

/// The pacer enforces its rate: whatever is asked for and when, the bytes granted up to
/// `end_ns` are at most the tokens at the start and what the rate earns until then.
pub proof fn law_rate_is_enforced(b: Bucket, requests: Seq<(nat, nat)>, end_ns: nat)
    requires
        b.last_ns <= end_ns,
        forall|i: int| 0 <= i < requests.len() ==> (#[trigger] requests[i]).1 <= end_ns,
    ensures
        granted(b, requests) * 1_000_000_000 <= b.tokens * 1_000_000_000 + b.rate * (end_ns
            - b.last_ns),
    decreases requests.len(),
{
    if requests.len() == 0 {
        let r = b.rate as int;
        let d = end_ns - b.last_ns;
        assert(r * d >= 0) by (nonlinear_arith)
            requires
                r >= 0,
                d >= 0,
        ;
    } else {
        let (bytes, now_ns) = requests[0];
        let rest = requests.skip(1);
        assert(requests[0].1 <= end_ns);
        lemma_request_costs(b, bytes, now_ns, end_ns);
        assert forall|i: int| 0 <= i < rest.len() implies (#[trigger] rest[i]).1 <= end_ns by {
            assert(rest[i] == requests[i + 1]);
        }
        law_rate_is_enforced(after_request(b, bytes, now_ns), rest, end_ns);
    }
}

/// Tokens come at the rate, up to a burst of 64 KiB, and never get lost: at least what the rate earns
/// since the last refill is added, but for less than one token. The rate is at least 1024 bytes per
/// second.
pub proof fn law_tokens_come_at_the_rate(b: Bucket, now_ns: nat, rate: u64)
    requires
        b.tokens <= 65_536,
    ensures
        ({
            let r = refilled(b, now_ns);
            &&& r.rate == b.rate && r.enabled == b.enabled
            &&& b.tokens <= r.tokens <= 65_536
            &&& now_ns <= b.last_ns ==> r == b
            &&& now_ns > b.last_ns && b.rate * (now_ns - b.last_ns) >= 1_000_000_000 ==> r.last_ns
                == now_ns && (r.tokens == 65_536 || (r.tokens - b.tokens) * 1_000_000_000 <= b.rate
                * (now_ns - b.last_ns) < (r.tokens - b.tokens + 1) * 1_000_000_000)
            &&& now_ns > b.last_ns && b.rate * (now_ns - b.last_ns) < 1_000_000_000 ==> r == b
        }),
        rate >= 1024 ==> at_least_min(rate) == rate,
        rate < 1024 ==> at_least_min(rate) == 1024,
{
    if now_ns > b.last_ns {
        let r = b.rate as int;
        let x = now_ns - b.last_ns;
        assert(0 <= r * x) by (nonlinear_arith)
            requires
                r >= 0,
                x >= 0,
        ;
    }
}

/// A pacer that waits long enough is granted what it asks for: when as much time has passed as the
/// bytes that are missing take at the rate, rounded up, a request within the burst is granted, and the
/// bytes are taken.
pub proof fn law_patience_is_rewarded(b: Bucket, bytes: nat, now_ns: nat)
    requires
        b.tokens <= 65_536,
        bytes <= 65_536,
        b.last_ns <= now_ns,
        b.tokens * 1_000_000_000 + b.rate * (now_ns - b.last_ns) >= bytes * 1_000_000_000,
    ensures
        refilled(b, now_ns).tokens >= bytes,
        after_request(b, bytes, now_ns).tokens == refilled(b, now_ns).tokens - bytes,
        granted(b, seq![(bytes, now_ns)]) == bytes,
{
    let r = b.rate as int;
    let x = now_ns - b.last_ns;
    assert(0 <= r * x) by (nonlinear_arith)
        requires
            r >= 0,
            x >= 0,
    ;
    if x == 0 {
        assert(r * x == 0) by (nonlinear_arith)
            requires
                x == 0,
        ;
    }
    let one = seq![(bytes, now_ns)];
    assert(one.skip(1) =~= Seq::<(nat, nat)>::empty());
    reveal_with_fuel(granted, 2);
}

} // verus!
