//! Spans of time.

use vstd::prelude::*;

verus! {

/// The longest span: `u64::MAX` seconds and 999 999 999 nanoseconds.
pub const MAX_NANOS: u128 = 18446744073709551615999999999;

/// A span of time with nanosecond resolution.
#[derive(Debug, Clone, Copy, PartialEq, Eq, PartialOrd, Ord)]
pub struct Duration {
    nanos: u128,
}

impl Duration {
    #[verifier::type_invariant]
    spec fn within_range(self) -> bool {
        self.nanos <= MAX_NANOS
    }

    /// The span in nanoseconds.
    pub closed spec fn spec_nanos(self) -> nat {
        self.nanos as nat
    }

    /// A span of `n` nanoseconds; a longer one than the longest is cut to it.
    pub fn from_nanos_saturating(n: u128) -> (d: Self)
        ensures
            d.spec_nanos() == (if n <= MAX_NANOS {
                n
            } else {
                MAX_NANOS
            }),
    {
        if n <= MAX_NANOS {
            Duration { nanos: n }
        } else {
            Duration { nanos: MAX_NANOS }
        }
    }

    /// A span of `n` microseconds.
    pub fn from_micros(n: u64) -> (d: Self)
        ensures
            d.spec_nanos() == n * 1_000,
    {
        Duration { nanos: n as u128 * 1_000 }
    }

    /// A span of `n` milliseconds.
    pub fn from_millis(n: u64) -> (d: Self)
        ensures
            d.spec_nanos() == n * 1_000_000,
    {
        Duration { nanos: n as u128 * 1_000_000 }
    }

    /// A span of `n` seconds.
    pub fn from_secs(n: u64) -> (d: Self)
        ensures
            d.spec_nanos() == n * 1_000_000_000,
    {
        Duration { nanos: n as u128 * 1_000_000_000 }
    }

    /// No time at all.
    pub fn zero() -> (d: Self)
        ensures
            d.spec_nanos() == 0,
    {
        Duration { nanos: 0 }
    }

    /// The span in nanoseconds.
    pub fn as_nanos(&self) -> (n: u128)
        ensures
            n == self.spec_nanos(),
            n <= MAX_NANOS,
    {
        proof {
            use_type_invariant(self);
        }
        self.nanos
    }

    /// `k` times the span, cut to the longest span.
    pub fn saturating_mul(&self, k: u32) -> (d: Self)
        ensures
            d.spec_nanos() == saturating_times(self.spec_nanos(), k as nat),
    {
        proof {
            use_type_invariant(self);
            let a = self.nanos as int;
            assert(a * k <= 18446744073709551615999999999 * 4294967295) by (nonlinear_arith)
                requires
                    0 <= a <= 18446744073709551615999999999,
                    0 <= k <= 4294967295,
            ;
        }
        Duration::from_nanos_saturating(self.nanos * k as u128)
    }
}

/// `k` times `nanos`, cut to the longest span.
pub open spec fn saturating_times(nanos: nat, k: nat) -> nat {
    if nanos * k <= MAX_NANOS {
        nanos * k
    } else {
        MAX_NANOS as nat
    }
}

/// A multiple of a span is exact up to the longest span, and never longer than that.
pub proof fn law_multiples_of_a_span(nanos: nat, k: nat)
    ensures
        saturating_times(nanos, k) <= 18446744073709551615999999999,
        nanos * k <= 18446744073709551615999999999 ==> saturating_times(nanos, k) == nanos * k,
        nanos * k > 18446744073709551615999999999 ==> saturating_times(nanos, k)
            == 18446744073709551615999999999,
{
}

} // verus!
