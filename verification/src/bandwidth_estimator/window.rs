//! The best value of a sliding time window.
//!
//! Of the samples `(time, value)` only those are kept that no later one beats. Times are
//! nanoseconds on a clock of the caller.

use std::collections::VecDeque;
use vstd::prelude::*;

verus! {

/// Samples of a window, oldest first.
pub type Samples = Seq<(u64, u64)>;

/// Whether `v` makes `w` superfluous: it is at least as large in a window for the largest
/// value, at most as large in one for the smallest.
pub open spec fn beats(largest: bool, v: u64, w: u64) -> bool {
    if largest {
        v >= w
    } else {
        v <= w
    }
}

/// Whether a sample of time `t` has left a window of `size` at `now`.
pub open spec fn expired(t: u64, now: u64, size: u64) -> bool {
    now - t > size
}

/// The samples behind the expired ones in front.
pub open spec fn fresh(s: Samples, now: u64, size: u64) -> Samples
    decreases s.len(),
{
    if s.len() > 0 && expired(s[0].0, now, size) {
        fresh(s.skip(1), now, size)
    } else {
        s
    }
}

/// The samples before those at the end that `value` beats.
pub open spec fn unbeaten(largest: bool, s: Samples, value: u64) -> Samples
    decreases s.len(),
{
    if s.len() > 0 && beats(largest, value, s.last().1) {
        unbeaten(largest, s.drop_last(), value)
    } else {
        s
    }
}

/// The samples after a new one.
pub open spec fn updated(largest: bool, s: Samples, now: u64, value: u64, size: u64) -> Samples {
    unbeaten(largest, fresh(s, now, size), value).push((now, value))
}

/// A sliding window.
#[derive(Debug)]
pub struct WindowFilter {
    window: VecDeque<(u64, u64)>,
    window_size: u64,
    largest: bool,
}

impl View for WindowFilter {
    type V = Samples;

    closed spec fn view(&self) -> Samples {
        self.window@
    }
}

impl WindowFilter {
    /// The length of the window.
    pub closed spec fn size(self) -> u64 {
        self.window_size
    }

    /// Whether the window is for the largest value, not the smallest.
    pub closed spec fn for_largest(self) -> bool {
        self.largest
    }

    /// An empty window of `window_size`, for the largest or the smallest value.
    pub fn new(window_size: u64, largest: bool) -> (w: Self)
        ensures
            w@ == Samples::empty(),
            w.size() == window_size,
            w.for_largest() == largest,
    {
        WindowFilter { window: VecDeque::new(), window_size, largest }
    }

    /// Add a sample; the result is the best value of the window.
    pub fn update(&mut self, now: u64, value: u64) -> (best: u64)
        ensures
            final(self)@ == updated(
                old(self).for_largest(),
                old(self)@,
                now,
                value,
                old(self).size(),
            ),
            best == final(self)@[0].1,
            final(self).size() == old(self).size(),
            final(self).for_largest() == old(self).for_largest(),
    {
        let largest: bool = self.largest;
        let size: u64 = self.window_size;
        let ghost before = self.window@;
        while self.window.len() > 0 && now.saturating_sub(self.window[0].0) > size
            invariant
                self.largest == largest,
                self.window_size == size,
                fresh(before, now, size) == fresh(self.window@, now, size),
            decreases self.window@.len(),
        {
            let ghost w = self.window@;
            self.window.pop_front();
            assert(self.window@ =~= w.skip(1));
        }
        let ghost kept = self.window@;
        while self.window.len() > 0 && Self::is_beaten(
            largest,
            value,
            self.window[self.window.len() - 1].1,
        )
            invariant
                self.largest == largest,
                self.window_size == size,
                unbeaten(largest, kept, value) == unbeaten(largest, self.window@, value),
            decreases self.window@.len(),
        {
            let ghost w = self.window@;
            self.window.pop_back();
            assert(self.window@ =~= w.drop_last());
        }
        self.window.push_back((now, value));
        self.window[0].1
    }

    fn is_beaten(largest: bool, v: u64, w: u64) -> (b: bool)
        ensures
            b == beats(largest, v, w),
    {
        if largest {
            v >= w
        } else {
            v <= w
        }
    }
}

/// Whether a window holds what matters of a history of samples at `now`: its samples are of
/// the history and in its order, none beats an earlier one, and every sample of the history
/// that has not expired is in the window or beaten by one that is at least as recent.
pub open spec fn holds(largest: bool, w: Samples, h: Samples, now: u64, size: u64) -> bool {
    &&& forall|i: int| 0 <= i < w.len() ==> h.contains(#[trigger] w[i])
    &&& in_order(largest, w)
    &&& forall|i: int|
        0 <= i < h.len() && !expired((#[trigger] h[i]).0, now, size) ==> stands_for(
            largest,
            w,
            h[i],
        )
    &&& forall|i: int| 0 <= i < h.len() ==> (#[trigger] h[i]).0 <= now
}

/// Whether the samples are in the order of time and none beats an earlier one.
pub open spec fn in_order(largest: bool, w: Samples) -> bool {
    forall|i: int, j: int|
        0 <= i < j < w.len() ==> (#[trigger] w[i]).0 <= (#[trigger] w[j]).0 && !beats(
            largest,
            w[j].1,
            w[i].1,
        )
}

/// Whether a sample of the window is at least as good and as recent as `x`.
#[verifier::opaque]
pub open spec fn stands_for(largest: bool, w: Samples, x: (u64, u64)) -> bool {
    exists|k: int|
        0 <= k < w.len() && beats(largest, (#[trigger] w[k]).1, x.1) && w[k].0 >= x.0
}

proof fn lemma_fresh_is_suffix(s: Samples, now: u64, size: u64) -> (n: int)
    ensures
        0 <= n <= s.len(),
        fresh(s, now, size) == s.skip(n),
        forall|i: int| 0 <= i < n ==> expired((#[trigger] s[i]).0, now, size),
        n < s.len() ==> !expired(s[n].0, now, size),
    decreases s.len(),
{
    if s.len() > 0 && expired(s[0].0, now, size) {
        let m = lemma_fresh_is_suffix(s.skip(1), now, size);
        assert(s.skip(1).skip(m) =~= s.skip(m + 1));
        assert forall|i: int| 0 <= i < m + 1 implies expired((#[trigger] s[i]).0, now, size) by {
            if i > 0 {
                assert(s[i] == s.skip(1)[i - 1]);
            }
        }
        if m + 1 < s.len() {
            assert(s[m + 1] == s.skip(1)[m]);
        }
        m + 1
    } else {
        assert(s.skip(0) =~= s);
        0
    }
}

proof fn lemma_unbeaten_is_prefix(largest: bool, s: Samples, value: u64) -> (n: int)
    ensures
        0 <= n <= s.len(),
        unbeaten(largest, s, value) == s.take(n),
        forall|i: int| n <= i < s.len() ==> beats(largest, value, (#[trigger] s[i]).1),
        n > 0 ==> !beats(largest, value, s[n - 1].1),
    decreases s.len(),
{
    if s.len() > 0 && beats(largest, value, s.last().1) {
        let m = lemma_unbeaten_is_prefix(largest, s.drop_last(), value);
        assert(s.drop_last().take(m) =~= s.take(m));
        assert forall|i: int| m <= i < s.len() implies beats(largest, value, (#[trigger] s[i]).1) by {
            if i < s.len() - 1 {
                assert(s[i] == s.drop_last()[i]);
            }
        }
        if m > 0 {
            assert(s[m - 1] == s.drop_last()[m - 1]);
        }
        m
    } else {
        assert(s.take(s.len() as int) =~= s);
        s.len() as int
    }
}

proof fn lemma_kept(
    w: Samples,
    n: int,
    m: int,
    now: u64,
    value: u64,
)
    requires
        0 <= n <= w.len(),
        0 <= m <= w.len() - n,
    ensures
        ({
            let w2 = w.skip(n).take(m).push((now, value));
            &&& w2.len() == m + 1
            &&& w2[m] == (now, value)
            &&& forall|i: int| 0 <= i < m ==> #[trigger] w2[i] == w[n + i]
        }),
{
}

proof fn lemma_still_from_history(w: Samples, h: Samples, w2: Samples, n: int, m: int, x: (u64, u64))
    requires
        forall|i: int| 0 <= i < w.len() ==> h.contains(#[trigger] w[i]),
        0 <= n,
        0 <= m,
        n + m <= w.len(),
        w2.len() == m + 1,
        w2[m] == x,
        forall|i: int| 0 <= i < m ==> #[trigger] w2[i] == w[n + i],
    ensures
        forall|i: int| 0 <= i < w2.len() ==> h.push(x).contains(#[trigger] w2[i]),
{
    assert forall|i: int| 0 <= i < w2.len() implies h.push(x).contains(#[trigger] w2[i]) by {
        if i < m {
            assert(h.contains(w[n + i]));
            let k = choose|k: int| 0 <= k < h.len() && h[k] == w[n + i];
            assert(h.push(x)[k] == w2[i]);
        } else {
            assert(h.push(x)[h.len() as int] == w2[i]);
        }
    }
}

proof fn lemma_still_in_order(
    largest: bool,
    w: Samples,
    w2: Samples,
    n: int,
    m: int,
    now: u64,
    value: u64,
)
    requires
        in_order(largest, w),
        forall|i: int| 0 <= i < w.len() ==> (#[trigger] w[i]).0 <= now,
        0 <= n,
        0 <= m,
        n + m <= w.len(),
        w2.len() == m + 1,
        w2[m] == (now, value),
        forall|i: int| 0 <= i < m ==> #[trigger] w2[i] == w[n + i],
        m > 0 ==> !beats(largest, value, w[n + m - 1].1),
    ensures
        in_order(largest, w2),
{
    assert forall|i: int, j: int| 0 <= i < j < w2.len() implies (#[trigger] w2[i]).0 <= (
    #[trigger] w2[j]).0 && !beats(largest, w2[j].1, w2[i].1) by {
        assert(w2[i] == w[n + i]);
        if j < m {
            assert(w2[j] == w[n + j]);
        } else if i < m - 1 {
            assert(!beats(largest, w[n + m - 1].1, w[n + i].1));
        }
    }
}

proof fn lemma_still_stands(
    largest: bool,
    w: Samples,
    w2: Samples,
    n: int,
    m: int,
    now: u64,
    value: u64,
    size: u64,
    x: (u64, u64),
)
    requires
        stands_for(largest, w, x),
        x.0 <= now,
        !expired(x.0, now, size),
        0 <= n,
        0 <= m,
        n + m <= w.len(),
        forall|i: int| 0 <= i < n ==> expired((#[trigger] w[i]).0, now, size),
        forall|i: int| n + m <= i < w.len() ==> beats(largest, value, (#[trigger] w[i]).1),
        w2.len() == m + 1,
        w2[m] == (now, value),
        forall|i: int| 0 <= i < m ==> #[trigger] w2[i] == w[n + i],
    ensures
        stands_for(largest, w2, x),
{
    reveal(stands_for);
    let k = choose|k: int|
        0 <= k < w.len() && beats(largest, (#[trigger] w[k]).1, x.1) && w[k].0 >= x.0;
    assert(k >= n);
    if k < n + m {
        assert(w2[k - n] == w[k]);
    } else {
        assert(beats(largest, value, w[k].1));
        assert(w2[m].1 == value);
    }
}

proof fn lemma_front_beats(largest: bool, w: Samples, x: (u64, u64))
    requires
        in_order(largest, w),
        stands_for(largest, w, x),
    ensures
        beats(largest, w[0].1, x.1),
{
    reveal(stands_for);
    let k = choose|k: int|
        0 <= k < w.len() && beats(largest, (#[trigger] w[k]).1, x.1) && w[k].0 >= x.0;
    if k > 0 {
        assert(!beats(largest, w[k].1, w[0].1));
    }
}

/// With times that never go back, the window always holds what matters of its history, and
/// its front is the best value among the samples of the history that have not expired.
pub proof fn law_front_is_the_best(
    largest: bool,
    w: Samples,
    h: Samples,
    before: u64,
    now: u64,
    value: u64,
    size: u64,
)
    requires
        holds(largest, w, h, before, size),
        before <= now,
    ensures
        ({
            let w2 = updated(largest, w, now, value, size);
            let h2 = h.push((now, value));
            &&& holds(largest, w2, h2, now, size)
            &&& h2.contains(w2[0])
            &&& forall|i: int|
                0 <= i < h2.len() && !expired((#[trigger] h2[i]).0, now, size) ==> beats(
                    largest,
                    w2[0].1,
                    h2[i].1,
                )
        }),
{
    let n = lemma_fresh_is_suffix(w, now, size);
    let f = w.skip(n);
    let m = lemma_unbeaten_is_prefix(largest, f, value);
    let w2 = updated(largest, w, now, value, size);
    let h2 = h.push((now, value));
    lemma_kept(w, n, m, now, value);
    assert forall|i: int| 0 <= i < w.len() implies (#[trigger] w[i]).0 <= now by {
        assert(h.contains(w[i]));
    }
    assert forall|i: int| n + m <= i < w.len() implies beats(largest, value, (#[trigger] w[i]).1) by {
        assert(f[i - n] == w[i]);
    }
    if m > 0 {
        assert(f[m - 1] == w[n + m - 1]);
    }
    lemma_still_from_history(w, h, w2, n, m, (now, value));
    lemma_still_in_order(largest, w, w2, n, m, now, value);
    assert forall|i: int| 0 <= i < h2.len() && !expired((#[trigger] h2[i]).0, now, size) implies
        stands_for(largest, w2, h2[i]) by {
        if i < h.len() {
            assert(h2[i] == h[i]);
            lemma_still_stands(largest, w, w2, n, m, now, value, size, h[i]);
        } else {
            reveal(stands_for);
            assert(w2[m] == h2[i]);
        }
    }
    assert(w2.len() > 0);
    assert(h2.contains(w2[0]));
    assert forall|i: int| 0 <= i < h2.len() && !expired((#[trigger] h2[i]).0, now, size) implies beats(
        largest,
        w2[0].1,
        h2[i].1,
    ) by {
        assert(stands_for(largest, w2, h2[i]));
        lemma_front_beats(largest, w2, h2[i]);
    }
}

/// The front of a window never falls behind the newest sample: in a window for the largest value
/// it is at least as large, in one for the smallest at most.
pub proof fn law_newest_sample_counts(largest: bool, w: Samples, now: u64, value: u64, size: u64)
    requires
        in_order(largest, w),
    ensures
        ({
            let w2 = updated(largest, w, now, value, size);
            &&& w2.len() > 0
            &&& w2.last() == (now, value)
            &&& largest ==> w2[0].1 >= value
            &&& !largest ==> w2[0].1 <= value
        }),
{
    let n = lemma_fresh_is_suffix(w, now, size);
    let f = w.skip(n);
    let m = lemma_unbeaten_is_prefix(largest, f, value);
    lemma_kept(w, n, m, now, value);
    let w2 = updated(largest, w, now, value, size);
    if m > 0 {
        assert(w2[0] == w[n]);
        assert(f[m - 1] == w[n + m - 1]);
        if m > 1 {
            assert(!beats(largest, w[n + m - 1].1, w[n].1));
        }
    }
}

/// The front of a window stays in front until the window has passed it by, unless the newest
/// sample is as good; and of samples that the window has passed by nothing is left.
pub proof fn law_front_outlives(largest: bool, w: Samples, now: u64, value: u64, size: u64)
    requires
        in_order(largest, w),
    ensures
        ({
            let w2 = updated(largest, w, now, value, size);
            &&& w.len() > 0 && now <= w[0].0 + size && (if largest {
                value < w[0].1
            } else {
                value > w[0].1
            }) ==> w2[0] == w[0]
            &&& (forall|i: int| 0 <= i < w.len() ==> now > (#[trigger] w[i]).0 + size) ==> w2
                == seq![(now, value)]
        }),
{
    let n = lemma_fresh_is_suffix(w, now, size);
    let f = w.skip(n);
    let m = lemma_unbeaten_is_prefix(largest, f, value);
    lemma_kept(w, n, m, now, value);
    let w2 = updated(largest, w, now, value, size);
    if w.len() > 0 && now <= w[0].0 + size && (if largest {
        value < w[0].1
    } else {
        value > w[0].1
    }) {
        if n > 0 {
            assert(expired(w[0].0, now, size));
        }
        if m == 0 {
            assert(beats(largest, value, f[0].1));
            assert(f[0] == w[0]);
        }
        assert(w2[0] == w[0]);
    }
    if forall|i: int| 0 <= i < w.len() ==> now > (#[trigger] w[i]).0 + size {
        if n < w.len() {
            assert(now > w[n].0 + size);
        }
        assert(w2 =~= seq![(now, value)]);
    }
}

} // verus!
