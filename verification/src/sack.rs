//! Selective-acknowledgement ranges and their wire form.
//!
//! ```text
//! off  0  largest_acked  u32 be
//! off  4  ack_delay_us   u32 be
//! off  8  range_count    u16 be   1 to MAX_SACK_RANGES
//! off 10  first_len      u32 be   length minus one of the highest range
//! off 14  [gap u32 be, len u32 be] for every further range
//! ```
//!
//! Ranges run from the highest to the lowest. `gap` counts the sequences that are not
//! acknowledged between two ranges and is at least one; `len` is a length minus one.

use crate::wire::{be16, be16_at, be32, be32_at, push_u16, push_u32, read_u16, read_u32};
use vstd::prelude::*;

verus! {

/// Largest number of ranges in one acknowledgement.
pub const MAX_SACK_RANGES: usize = 32;

/// A selective acknowledgement over a sequence space of 32 bits.
#[derive(Clone, Debug, PartialEq, Eq)]
pub struct Sack {
    /// The highest sequence number acknowledged.
    pub largest_acked: u32,
    /// Delay between receiving and acknowledging, in microseconds.
    pub ack_delay_us: u32,
    ranges: Vec<(u32, u32)>,
}

/// Why a buffer does not decode.
#[derive(Clone, Copy, PartialEq, Eq, Debug, Structural)]
pub enum SackError {
    /// Shorter than what it declares.
    Truncated,
    /// More ranges than `MAX_SACK_RANGES`.
    TooManyRanges,
    /// No range, adjacent ranges, or a range below zero.
    Malformed,
}

impl SackError {
    /// A description of the error.
    pub fn to_text(&self) -> (text: String)
        ensures
            text@ == match *self {
                SackError::Truncated => "SACK payload too short for the declared range count"@,
                SackError::TooManyRanges
                    => "SACK range_count exceeds the anti-DoS limit of 32"@,
                SackError::Malformed
                    => "SACK encoding is malformed (zero ranges, adjacent ranges, underflow, or overlapping ranges)"@,
            },
    {
        match self {
            SackError::Truncated => "SACK payload too short for the declared range count".to_owned(),
            SackError::TooManyRanges
                => "SACK range_count exceeds the anti-DoS limit of 32".to_owned(),
            SackError::Malformed
                => "SACK encoding is malformed (zero ranges, adjacent ranges, underflow, or overlapping ranges)".to_owned(),
        }
    }
}

/// Whether one of the inclusive ranges holds `x`.
pub open spec fn covers(ranges: Seq<(u32, u32)>, x: int) -> bool {
    exists|i: int| 0 <= i < ranges.len() && (#[trigger] ranges[i]).0 <= x <= ranges[i].1
}

/// Ranges from the highest to the lowest, none empty, with a gap between any two.
pub open spec fn descending(ranges: Seq<(u32, u32)>) -> bool {
    &&& forall|i: int| 0 <= i < ranges.len() ==> (#[trigger] ranges[i]).0 <= ranges[i].1
    &&& forall|i: int, j: int|
        0 <= i < j < ranges.len() ==> (#[trigger] ranges[j]).1 + 1 < (#[trigger] ranges[i]).0
}

/// Ranges from the lowest to the highest, none empty, with a gap between any two.
pub open spec fn ascending(ranges: Seq<(u32, u32)>) -> bool {
    &&& forall|i: int| 0 <= i < ranges.len() ==> (#[trigger] ranges[i]).0 <= ranges[i].1
    &&& forall|i: int, j: int|
        0 <= i < j < ranges.len() ==> (#[trigger] ranges[i]).1 + 1 < (#[trigger] ranges[j]).0
}

/// Whether `ranges` are the highest runs of the numbers that `input` covers: each number
/// from just below the lowest range on is covered exactly when `input` covers it, and
/// nothing is left out unless the limit was reached.
pub open spec fn highest_runs_of(ranges: Seq<(u32, u32)>, input: Seq<(u32, u32)>) -> bool {
    &&& forall|x: int|
        x >= ranges.last().0 - 1 ==> (#[trigger] covers(ranges, x) <==> covers(input, x))
    &&& ranges.len() < MAX_SACK_RANGES ==> forall|x: int| #[trigger]
        covers(input, x) ==> covers(ranges, x)
}

/// One range for each number.
pub open spec fn singletons(s: Seq<u32>) -> Seq<(u32, u32)> {
    Seq::new(s.len(), |i: int| (s[i], s[i]))
}

/// The wire form of the ranges after the first: the gap above each, and its length minus
/// one.
pub open spec fn tail_bytes(ranges: Seq<(u32, u32)>) -> Seq<u8>
    decreases ranges.len(),
{
    if ranges.len() <= 1 {
        Seq::empty()
    } else {
        let above = ranges[ranges.len() - 2];
        let this = ranges.last();
        tail_bytes(ranges.drop_last()) + be32(above.0 - 1 - this.1) + be32(this.1 - this.0)
    }
}

/// The wire form of an acknowledgement.
pub open spec fn wire_form(largest: u32, delay: u32, ranges: Seq<(u32, u32)>) -> Seq<u8> {
    be32(largest as int) + be32(delay as int) + be16(ranges.len() as int) + be32(
        ranges[0].1 - ranges[0].0,
    ) + tail_bytes(ranges)
}

/// The first `n` ranges that a buffer holds, where none runs below zero and no two touch.
pub open spec fn decoded_ranges(buf: Seq<u8>, n: nat) -> Option<Seq<(u32, u32)>>
    decreases n,
{
    let largest = be32_at(buf, 0);
    if n <= 1 {
        if be32_at(buf, 10) > largest {
            None
        } else {
            Some(seq![((largest - be32_at(buf, 10)) as u32, largest as u32)])
        }
    } else {
        match decoded_ranges(buf, (n - 1) as nat) {
            None => None,
            Some(rs) => {
                let gap = be32_at(buf, 14 + 8 * (n - 2));
                let len = be32_at(buf, 18 + 8 * (n - 2));
                let high = rs.last().0 - 1 - gap;
                if gap == 0 || high - len < 0 {
                    None
                } else {
                    Some(rs.push(((high - len) as u32, high as u32)))
                }
            },
        }
    }
}

/// What a buffer decodes to.
pub open spec fn decoded(buf: Seq<u8>) -> Result<Seq<(u32, u32)>, SackError> {
    let n = be16_at(buf, 8);
    if buf.len() < 14 {
        Err(SackError::Truncated)
    } else if n == 0 {
        Err(SackError::Malformed)
    } else if n > MAX_SACK_RANGES {
        Err(SackError::TooManyRanges)
    } else if buf.len() < 14 + 8 * (n - 1) {
        Err(SackError::Truncated)
    } else {
        match decoded_ranges(buf, n as nat) {
            None => Err(SackError::Malformed),
            Some(rs) => Ok(rs),
        }
    }
}

/// Calls `slice::sort_unstable_by_key` with the low end of each range as the key: the same
/// ranges, ordered by their low ends.
#[verifier::external_body]
fn sort_by_low(v: &mut Vec<(u32, u32)>)
    ensures
        final(v)@.to_multiset() == old(v)@.to_multiset(),
        forall|i: int, j: int|
            0 <= i <= j < final(v)@.len() ==> (#[trigger] final(v)@[i]).0 <= (
            #[trigger] final(v)@[j]).0,
{
    v.sort_unstable_by_key(|r| r.0);
}

proof fn lemma_same_cover(a: Seq<(u32, u32)>, b: Seq<(u32, u32)>, x: int)
    requires
        a.to_multiset() == b.to_multiset(),
        covers(a, x),
    ensures
        covers(b, x),
{
    let i = choose|i: int| 0 <= i < a.len() && (#[trigger] a[i]).0 <= x <= a[i].1;
    a.to_multiset_ensures();
    b.to_multiset_ensures();
    assert(a.contains(a[i]));
    assert(b.to_multiset().count(a[i]) > 0);
    assert(b.contains(a[i]));
    let j = choose|j: int| 0 <= j < b.len() && b[j] == a[i];
    assert(b[j].0 <= x <= b[j].1);
}

proof fn lemma_same_ends(a: Seq<(u32, u32)>, b: Seq<(u32, u32)>)
    requires
        a.to_multiset() == b.to_multiset(),
        forall|i: int| 0 <= i < a.len() ==> (#[trigger] a[i]).0 <= a[i].1,
    ensures
        a.len() == b.len(),
        forall|i: int| 0 <= i < b.len() ==> (#[trigger] b[i]).0 <= b[i].1,
{
    a.to_multiset_ensures();
    b.to_multiset_ensures();
    assert forall|i: int| 0 <= i < b.len() implies (#[trigger] b[i]).0 <= b[i].1 by {
        assert(b.contains(b[i]));
        assert(a.to_multiset().count(b[i]) > 0);
        assert(a.contains(b[i]));
    }
}

/// Merge ranges that are ordered by their low ends into ascending runs.
fn coalesce(sorted: &Vec<(u32, u32)>) -> (asc: Vec<(u32, u32)>)
    requires
        sorted@.len() > 0,
        forall|i: int| 0 <= i < sorted@.len() ==> (#[trigger] sorted@[i]).0 <= sorted@[i].1,
        forall|i: int, j: int|
            0 <= i <= j < sorted@.len() ==> (#[trigger] sorted@[i]).0 <= (#[trigger] sorted@[j]).0,
    ensures
        asc@.len() > 0,
        ascending(asc@),
        forall|x: int| #[trigger] covers(asc@, x) <==> covers(sorted@, x),
{
    let mut asc: Vec<(u32, u32)> = Vec::new();
    asc.push(sorted[0]);
    proof {
        assert forall|x: int| #[trigger] covers(asc@, x) <==> covers(sorted@.take(1), x) by {
            assert(asc@ =~= sorted@.take(1));
        }
    }
    let mut i: usize = 1;
    while i < sorted.len()
        invariant
            1 <= i <= sorted@.len(),
            asc@.len() > 0,
            ascending(asc@),
            asc@.last().0 <= sorted@[i - 1].0,
            forall|k: int| 0 <= k < sorted@.len() ==> (#[trigger] sorted@[k]).0 <= sorted@[k].1,
            forall|k: int, j: int|
                0 <= k <= j < sorted@.len() ==> (#[trigger] sorted@[k]).0 <= (
                #[trigger] sorted@[j]).0,
            forall|x: int| #[trigger] covers(asc@, x) <==> covers(sorted@.take(i as int), x),
        decreases sorted@.len() - i,
    {
        let (lo, hi) = sorted[i];
        let n: usize = asc.len();
        let (a, b) = asc[n - 1];
        let ghost before = asc@;
        let ghost seen = sorted@.take(i as int);
        let ghost next = sorted@.take(i + 1);
        proof {
            assert(sorted@[i - 1].0 <= sorted@[i as int].0);
            assert forall|x: int| #[trigger] covers(next, x) <==> covers(seen, x) || lo <= x
                <= hi by {
                if covers(next, x) {
                    let k = choose|k: int| 0 <= k < next.len() && (#[trigger] next[k]).0 <= x
                        <= next[k].1;
                    if k < i {
                        assert(seen[k] == next[k]);
                    }
                }
                if covers(seen, x) {
                    let k = choose|k: int| 0 <= k < seen.len() && (#[trigger] seen[k]).0 <= x
                        <= seen[k].1;
                    assert(next[k] == seen[k]);
                }
                if lo <= x <= hi {
                    assert(next[i as int] == (lo, hi));
                }
            }
        }
        if lo as u64 <= b as u64 + 1 {
            if hi > b {
                asc[n - 1] = (a, hi);
            }
            proof {
                let top = if hi > b {
                    hi
                } else {
                    b
                };
                assert(asc@ =~= before.update(n - 1, (a, top)));
                assert forall|x: int| #[trigger] covers(asc@, x) <==> covers(before, x) || lo <= x
                    <= hi by {
                    if covers(asc@, x) {
                        let k = choose|k: int| 0 <= k < asc@.len() && (#[trigger] asc@[k]).0 <= x
                            <= asc@[k].1;
                        if k < n - 1 {
                            assert(before[k] == asc@[k]);
                        } else if x <= b {
                            assert(before[n - 1] == (a, b));
                        }
                    }
                    if covers(before, x) {
                        let k = choose|k: int| 0 <= k < before.len() && (#[trigger] before[k]).0
                            <= x <= before[k].1;
                        if k < n - 1 {
                            assert(asc@[k] == before[k]);
                        } else {
                            assert(asc@[n - 1] == (a, top));
                        }
                    }
                    if lo <= x <= hi {
                        assert(asc@[n - 1] == (a, top));
                    }
                }
            }
        } else {
            asc.push((lo, hi));
            proof {
                assert(asc@ =~= before.push((lo, hi)));
                assert forall|p: int, q: int| 0 <= p < q < asc@.len() implies (#[trigger] asc@[p]).1
                    + 1 < (#[trigger] asc@[q]).0 by {
                    if q == n {
                        assert(p == n - 1 || before[p].1 + 1 < before[n - 1].0);
                    }
                }
                assert forall|x: int| #[trigger] covers(asc@, x) <==> covers(before, x) || lo <= x
                    <= hi by {
                    if covers(asc@, x) {
                        let k = choose|k: int| 0 <= k < asc@.len() && (#[trigger] asc@[k]).0 <= x
                            <= asc@[k].1;
                        if k < n {
                            assert(before[k] == asc@[k]);
                        }
                    }
                    if covers(before, x) {
                        let k = choose|k: int| 0 <= k < before.len() && (#[trigger] before[k]).0
                            <= x <= before[k].1;
                        assert(asc@[k] == before[k]);
                    }
                    if lo <= x <= hi {
                        assert(asc@[n as int] == (lo, hi));
                    }
                }
            }
        }
        i += 1;
    }
    proof {
        assert(sorted@.take(i as int) =~= sorted@);
    }
    asc
}

/// The highest ranges of an ascending list, highest first, at most `MAX_SACK_RANGES`.
fn highest_first(asc: &Vec<(u32, u32)>) -> (desc: Vec<(u32, u32)>)
    requires
        asc@.len() > 0,
        ascending(asc@),
    ensures
        descending(desc@),
        desc@.len() == (if asc@.len() < MAX_SACK_RANGES {
            asc@.len() as int
        } else {
            MAX_SACK_RANGES as int
        }),
        forall|i: int| 0 <= i < desc@.len() ==> #[trigger] desc@[i] == asc@[asc@.len() - 1 - i],
{
    let n: usize = asc.len();
    let mut desc: Vec<(u32, u32)> = Vec::new();
    while desc.len() < n && desc.len() < MAX_SACK_RANGES
        invariant
            n == asc@.len(),
            desc@.len() <= n,
            desc@.len() <= MAX_SACK_RANGES,
            forall|i: int| 0 <= i < desc@.len() ==> #[trigger] desc@[i] == asc@[n - 1 - i],
        decreases n - desc@.len(),
    {
        let k: usize = desc.len();
        desc.push(asc[n - 1 - k]);
    }
    desc
}

proof fn lemma_highest_cover(asc: Seq<(u32, u32)>, desc: Seq<(u32, u32)>, x: int)
    requires
        ascending(asc),
        0 < desc.len() <= asc.len(),
        forall|i: int| 0 <= i < desc.len() ==> #[trigger] desc[i] == asc[asc.len() - 1 - i],
    ensures
        covers(desc, x) ==> covers(asc, x),
        x >= desc.last().0 - 1 || desc.len() == asc.len() ==> (covers(asc, x) ==> covers(desc, x)),
{
    let n = asc.len();
    if covers(desc, x) {
        let i = choose|i: int| 0 <= i < desc.len() && (#[trigger] desc[i]).0 <= x <= desc[i].1;
        assert(asc[n - 1 - i] == desc[i]);
    }
    if covers(asc, x) && (x >= desc.last().0 - 1 || desc.len() == asc.len()) {
        let k = choose|k: int| 0 <= k < asc.len() && (#[trigger] asc[k]).0 <= x <= asc[k].1;
        let low = n - desc.len();
        assert(desc[desc.len() - 1] == asc[low]);
        if k < low {
            assert(asc[k].1 + 1 < asc[low].0);
        } else {
            assert(desc[n - 1 - k] == asc[k]);
        }
    }
}

/// Whether `ranges` are an acknowledgement of the numbers that `input` covers: at least one
/// run and at most `MAX_SACK_RANGES`, highest first.
pub open spec fn acknowledges(ranges: Seq<(u32, u32)>, input: Seq<(u32, u32)>) -> bool {
    &&& 0 < ranges.len() <= MAX_SACK_RANGES
    &&& descending(ranges)
    &&& highest_runs_of(ranges, input)
}

/// Whether two lists of ranges cover the same numbers.
pub open spec fn same_numbers(a: Seq<(u32, u32)>, b: Seq<(u32, u32)>) -> bool {
    forall|x: int| #[trigger] covers(a, x) <==> covers(b, x)
}

/// What the first `i` ranges leave, the next range of both cannot differ at its top, nor can
/// one list end before the other.
proof fn lemma_next_top(
    a: Seq<(u32, u32)>,
    in_a: Seq<(u32, u32)>,
    b: Seq<(u32, u32)>,
    in_b: Seq<(u32, u32)>,
    i: int,
)
    requires
        acknowledges(a, in_a),
        acknowledges(b, in_b),
        same_numbers(in_a, in_b),
        0 <= i < b.len(),
        i <= a.len(),
        forall|k: int| 0 <= k < i ==> #[trigger] a[k] == b[k],
    ensures
        i < a.len(),
        b[i].1 <= a[i].1,
{
    let y = b[i].1 as int;
    assert(b[i].0 <= y <= b[i].1);
    assert(covers(b, y));
    assert(b[b.len() - 1].0 <= b[i].0);
    assert(covers(in_b, y));
    assert(covers(in_a, y));
    if i == a.len() || y > a[i].1 {
        if i < a.len() {
            assert(a[a.len() - 1].0 <= a[i].0);
        }
        assert(covers(a, y));
        let k = choose|k: int| 0 <= k < a.len() && (#[trigger] a[k]).0 <= y <= a[k].1;
        if k < i {
            assert(a[k] == b[k]);
            assert(b[i].1 + 1 < b[k].0);
        } else if k > i {
            assert(a[k].1 + 1 < a[i].0);
        }
    }
}

/// Ranges with the same tops have the same bottoms.
proof fn lemma_next_bottom(
    a: Seq<(u32, u32)>,
    in_a: Seq<(u32, u32)>,
    b: Seq<(u32, u32)>,
    in_b: Seq<(u32, u32)>,
    i: int,
)
    requires
        acknowledges(a, in_a),
        acknowledges(b, in_b),
        same_numbers(in_a, in_b),
        0 <= i < b.len(),
        i < a.len(),
        a[i].1 == b[i].1,
    ensures
        a[i].0 <= b[i].0,
{
    if a[i].0 > b[i].0 {
        let y = a[i].0 - 1;
        assert(b[i].0 <= y <= b[i].1);
        assert(covers(b, y));
        assert(b[b.len() - 1].0 <= b[i].0);
        assert(covers(in_b, y));
        assert(covers(in_a, y));
        assert(a[a.len() - 1].0 <= a[i].0);
        assert(covers(a, y));
        let k = choose|k: int| 0 <= k < a.len() && (#[trigger] a[k]).0 <= y <= a[k].1;
        if k < i {
            assert(a[i].1 + 1 < a[k].0);
        } else if k > i {
            assert(a[k].1 + 1 < a[i].0);
        }
    }
}

proof fn lemma_same_prefix(
    a: Seq<(u32, u32)>,
    in_a: Seq<(u32, u32)>,
    b: Seq<(u32, u32)>,
    in_b: Seq<(u32, u32)>,
    n: int,
)
    requires
        acknowledges(a, in_a),
        acknowledges(b, in_b),
        same_numbers(in_a, in_b),
        0 <= n <= b.len(),
    ensures
        n <= a.len(),
        forall|k: int| 0 <= k < n ==> #[trigger] a[k] == b[k],
    decreases n,
{
    if n > 0 {
        let i = n - 1;
        lemma_same_prefix(a, in_a, b, in_b, i);
        lemma_next_top(a, in_a, b, in_b, i);
        lemma_next_top(b, in_b, a, in_a, i);
        lemma_next_bottom(a, in_a, b, in_b, i);
        lemma_next_bottom(b, in_b, a, in_a, i);
    }
}

/// The numbers alone decide what is acknowledged: numbers and ranges that cover the same set,
/// however they are listed, give the same ranges.
pub proof fn law_ranges_depend_on_the_numbers_alone(
    a: Seq<(u32, u32)>,
    in_a: Seq<(u32, u32)>,
    b: Seq<(u32, u32)>,
    in_b: Seq<(u32, u32)>,
)
    requires
        acknowledges(a, in_a),
        acknowledges(b, in_b),
        same_numbers(in_a, in_b),
    ensures
        a == b,
{
    lemma_same_prefix(a, in_a, b, in_b, b.len() as int);
    lemma_same_prefix(b, in_b, a, in_a, a.len() as int);
    assert(a =~= b);
}

/// What an acknowledgement says.
#[verifier::ext_equal]
pub struct SackContent {
    /// The highest sequence number acknowledged.
    pub largest: u32,
    /// The delay in microseconds.
    pub delay: u32,
    /// The ranges, highest first.
    pub ranges: Seq<(u32, u32)>,
}

impl View for Sack {
    type V = SackContent;

    closed spec fn view(&self) -> SackContent {
        SackContent {
            largest: self.largest_acked,
            delay: self.ack_delay_us,
            ranges: self.ranges@,
        }
    }
}

impl Sack {
    /// At least one range and at most `MAX_SACK_RANGES`, highest first, none empty and no
    /// two adjacent.
    pub open spec fn wf(&self) -> bool {
        &&& 0 < self@.ranges.len() <= MAX_SACK_RANGES
        &&& descending(self@.ranges)
    }

    /// Acknowledge the sequence numbers `received`, in any order and with repeats. `None`
    /// where there is none.
    pub fn from_received(received: &[u32], ack_delay_us: u32) -> (r: Option<Sack>)
        ensures
            received@.len() == 0 <==> r is None,
            r matches Some(s) ==> {
                &&& s.wf()
                &&& s@.delay == ack_delay_us
                &&& s@.largest == s@.ranges[0].1
                &&& acknowledges(s@.ranges, singletons(received@))
            },
    {
        let mut ranges: Vec<(u32, u32)> = Vec::with_capacity(received.len());
        let mut i: usize = 0;
        while i < received.len()
            invariant
                i <= received@.len(),
                ranges@ == singletons(received@.take(i as int)),
            decreases received@.len() - i,
        {
            ranges.push((received[i], received[i]));
            i += 1;
            assert(ranges@ =~= singletons(received@.take(i as int)));
        }
        assert(received@.take(i as int) =~= received@);
        Self::from_inclusive_ranges(ranges, ack_delay_us)
    }

    /// Acknowledge inclusive `(low, high)` ranges, in any order. Touching ranges are merged
    /// and the lowest beyond the limit dropped. `None` where there is none.
    pub fn from_inclusive_ranges(ranges: Vec<(u32, u32)>, ack_delay_us: u32) -> (r: Option<Sack>)
        requires
            forall|i: int| 0 <= i < ranges@.len() ==> (#[trigger] ranges@[i]).0 <= ranges@[i].1,
        ensures
            ranges@.len() == 0 <==> r is None,
            r matches Some(s) ==> {
                &&& s.wf()
                &&& s@.delay == ack_delay_us
                &&& s@.largest == s@.ranges[0].1
                &&& acknowledges(s@.ranges, ranges@)
            },
    {
        if ranges.len() == 0 {
            return None;
        }
        let ghost input = ranges@;
        let mut sorted: Vec<(u32, u32)> = ranges;
        sort_by_low(&mut sorted);
        proof {
            lemma_same_ends(input, sorted@);
        }
        let asc: Vec<(u32, u32)> = coalesce(&sorted);
        let desc: Vec<(u32, u32)> = highest_first(&asc);
        let largest_acked: u32 = desc[0].1;
        proof {
            assert forall|x: int| covers(input, x) <==> #[trigger] covers(asc@, x) by {
                if covers(input, x) {
                    lemma_same_cover(input, sorted@, x);
                }
                if covers(asc@, x) {
                    lemma_same_cover(sorted@, input, x);
                }
            }
            assert forall|x: int| x >= desc@.last().0 - 1 implies (#[trigger] covers(desc@, x)
                <==> covers(input, x)) by {
                lemma_highest_cover(asc@, desc@, x);
                assert(covers(input, x) <==> covers(asc@, x));
            }
            if desc@.len() < MAX_SACK_RANGES {
                assert forall|x: int| #[trigger] covers(input, x) implies covers(desc@, x) by {
                    lemma_highest_cover(asc@, desc@, x);
                    assert(covers(input, x) <==> covers(asc@, x));
                }
            }
        }
        Some(Sack { largest_acked, ack_delay_us, ranges: desc })
    }

    /// The highest sequence number acknowledged.
    pub fn largest_acked(&self) -> (n: u32)
        ensures
            n == self@.largest,
    {
        self.largest_acked
    }

    /// The delay between receiving and acknowledging, in microseconds.
    pub fn ack_delay_us(&self) -> (n: u32)
        ensures
            n == self@.delay,
    {
        self.ack_delay_us
    }

    /// The inclusive `(low, high)` ranges, highest first.
    pub fn ranges(&self) -> (r: &[(u32, u32)])
        ensures
            r@ == self@.ranges,
    {
        self.ranges.as_slice()
    }

    /// The wire form.
    pub fn to_wire(&self) -> (buf: Vec<u8>)
        requires
            self.wf(),
        ensures
            buf@ == wire_form(self@.largest, self@.delay, self@.ranges),
    {
        let mut buf: Vec<u8> = Vec::new();
        push_u32(&mut buf, self.largest_acked);
        push_u32(&mut buf, self.ack_delay_us);
        push_u16(&mut buf, self.ranges.len() as u16);
        push_u32(&mut buf, self.ranges[0].1 - self.ranges[0].0);
        let ghost head = buf@;
        assert(head =~= be32(self.largest_acked as int) + be32(self.ack_delay_us as int) + be16(
            self.ranges@.len() as int,
        ) + be32(self.ranges@[0].1 - self.ranges@[0].0));
        let mut i: usize = 1;
        assert(buf@ =~= head + tail_bytes(self.ranges@.take(1)));
        while i < self.ranges.len()
            invariant
                1 <= i <= self.ranges@.len(),
                self.wf(),
                buf@ == head + tail_bytes(self.ranges@.take(i as int)),
            decreases self.ranges@.len() - i,
        {
            let (low, high) = self.ranges[i];
            let prev_low: u32 = self.ranges[i - 1].0;
            let ghost before = buf@;
            proof {
                assert(self@.ranges[i as int].1 + 1 < self@.ranges[i - 1].0);
                assert(self@.ranges[i as int].0 <= self@.ranges[i as int].1);
            }
            push_u32(&mut buf, prev_low - 1 - high);
            push_u32(&mut buf, high - low);
            proof {
                let next = self.ranges@.take(i + 1);
                assert(next.drop_last() =~= self.ranges@.take(i as int));
                assert(next[next.len() - 2] == self.ranges@[i - 1]);
                assert(buf@ =~= head + tail_bytes(next));
            }
            i += 1;
        }
        assert(self.ranges@.take(i as int) =~= self.ranges@);
        buf
    }

    /// Decode a wire form; bytes after it are ignored.
    pub fn from_wire(buf: &[u8]) -> (r: Result<Sack, SackError>)
        ensures
            match decoded(buf@) {
                Err(e) => r matches Err(f) && f == e,
                Ok(rs) => r matches Ok(s) && s.wf() && s@.ranges == rs && s@.largest == be32_at(
                    buf@,
                    0,
                ) && s@.delay == be32_at(buf@, 4) && s@.largest == rs[0].1,
            },
    {
        if buf.len() < 14 {
            return Err(SackError::Truncated);
        }
        let largest_acked: u32 = read_u32(buf, 0);
        let ack_delay_us: u32 = read_u32(buf, 4);
        let range_count: usize = read_u16(buf, 8) as usize;
        if range_count == 0 {
            return Err(SackError::Malformed);
        }
        if range_count > MAX_SACK_RANGES {
            return Err(SackError::TooManyRanges);
        }
        if buf.len() < 14 + 8 * (range_count - 1) {
            return Err(SackError::Truncated);
        }
        let first_len: u32 = read_u32(buf, 10);
        if first_len > largest_acked {
            proof {
                lemma_undecodable(buf@, 1, range_count as nat);
            }
            return Err(SackError::Malformed);
        }
        let mut ranges: Vec<(u32, u32)> = Vec::new();
        ranges.push((largest_acked - first_len, largest_acked));
        assert(ranges@ =~= decoded_ranges(buf@, 1)->0);
        let mut prev_low: u32 = largest_acked - first_len;
        let mut n: usize = 1;
        while n < range_count
            invariant
                1 <= n <= range_count <= MAX_SACK_RANGES,
                buf@.len() >= 14 + 8 * (range_count - 1),
                range_count == be16_at(buf@, 8),
                decoded_ranges(buf@, n as nat) == Some(ranges@),
                ranges@.len() == n,
                prev_low == ranges@.last().0,
                descending(ranges@),
                ranges@[0].1 == be32_at(buf@, 0),
            decreases range_count - n,
        {
            let pos: usize = 14 + 8 * (n - 1);
            let gap: u32 = read_u32(buf, pos);
            let len: u32 = read_u32(buf, pos + 4);
            if gap == 0 || (prev_low as u64) < 1 + gap as u64 + len as u64 {
                proof {
                    assert(decoded_ranges(buf@, (n + 1) as nat) is None);
                    lemma_undecodable(buf@, (n + 1) as nat, range_count as nat);
                }
                return Err(SackError::Malformed);
            }
            let high: u32 = prev_low - 1 - gap;
            let low: u32 = high - len;
            let ghost before = ranges@;
            ranges.push((low, high));
            proof {
                assert(decoded_ranges(buf@, (n + 1) as nat) == Some(ranges@));
                assert forall|i: int, j: int| 0 <= i < j < ranges@.len() implies (
                #[trigger] ranges@[j]).1 + 1 < (#[trigger] ranges@[i]).0 by {
                    if j == n {
                        assert(i == n - 1 || before[n - 1].1 + 1 < before[i].0);
                    }
                }
            }
            prev_low = low;
            n += 1;
        }
        Ok(Sack { largest_acked, ack_delay_us, ranges })
    }

    /// Whether `seq` is acknowledged.
    pub fn acks(&self, seq: u32) -> (b: bool)
        ensures
            b == covers(self@.ranges, seq as int),
    {
        let mut i: usize = 0;
        while i < self.ranges.len()
            invariant
                i <= self.ranges@.len(),
                forall|k: int|
                    0 <= k < i ==> !((#[trigger] self.ranges@[k]).0 <= seq <= self.ranges@[k].1),
            decreases self.ranges@.len() - i,
        {
            let (low, high) = self.ranges[i];
            if seq >= low && seq <= high {
                assert(self@.ranges[i as int].0 <= seq <= self@.ranges[i as int].1);
                return true;
            }
            i += 1;
        }
        false
    }
}

proof fn lemma_undecodable(buf: Seq<u8>, k: nat, n: nat)
    requires
        1 <= k <= n,
        decoded_ranges(buf, k) is None,
    ensures
        decoded_ranges(buf, n) is None,
    decreases n,
{
    if k < n {
        lemma_undecodable(buf, k, (n - 1) as nat);
    }
}

/// Where the gap and the length of range `k` stand in the wire form.
proof fn lemma_tail_at(ranges: Seq<(u32, u32)>, k: int)
    requires
        ranges.len() >= 1,
    ensures
        tail_bytes(ranges).len() == 8 * (ranges.len() - 1),
        1 <= k < ranges.len() ==> tail_bytes(ranges).subrange(8 * (k - 1), 8 * k) == be32(
            ranges[k - 1].0 - 1 - ranges[k].1,
        ) + be32(ranges[k].1 - ranges[k].0),
    decreases ranges.len(),
{
    if ranges.len() > 1 {
        let front = ranges.drop_last();
        lemma_tail_at(front, k);
        if 1 <= k < front.len() {
            assert(tail_bytes(ranges).subrange(8 * (k - 1), 8 * k) =~= tail_bytes(front).subrange(
                8 * (k - 1),
                8 * k,
            ));
        } else if k == front.len() {
            assert(tail_bytes(ranges).subrange(8 * (k - 1), 8 * k) =~= be32(
                ranges[k - 1].0 - 1 - ranges[k].1,
            ) + be32(ranges[k].1 - ranges[k].0));
        }
    }
}

/// What the fixed fields of a wire form read as.
proof fn lemma_head_at(largest: u32, delay: u32, ranges: Seq<(u32, u32)>, rest: Seq<u8>)
    requires
        1 <= ranges.len() <= MAX_SACK_RANGES,
        descending(ranges),
    ensures
        be32_at(wire_form(largest, delay, ranges) + rest, 0) == largest,
        be32_at(wire_form(largest, delay, ranges) + rest, 4) == delay,
        be16_at(wire_form(largest, delay, ranges) + rest, 8) == ranges.len(),
        be32_at(wire_form(largest, delay, ranges) + rest, 10) == ranges[0].1 - ranges[0].0,
{
    let buf = wire_form(largest, delay, ranges) + rest;
    let n = ranges.len() as int;
    let len = ranges[0].1 - ranges[0].0;
    assert(ranges[0].0 <= ranges[0].1);
    assert(buf.subrange(0, 4) =~= be32(largest as int));
    crate::wire::lemma_be32_inside(buf, 0, largest as int);
    assert(buf.subrange(4, 8) =~= be32(delay as int));
    crate::wire::lemma_be32_inside(buf, 4, delay as int);
    assert(buf.subrange(8, 10) =~= be16(n));
    crate::wire::lemma_be16_inside(buf, 8, n);
    assert(buf.subrange(10, 14) =~= be32(len));
    crate::wire::lemma_be32_inside(buf, 10, len);
}

proof fn lemma_part_behind(head: Seq<u8>, tail: Seq<u8>, rest: Seq<u8>, i: int, j: int)
    requires
        0 <= i <= j <= tail.len(),
    ensures
        (head + tail + rest).subrange(head.len() + i, head.len() + j) == tail.subrange(i, j),
{
    assert((head + tail + rest).subrange(head.len() + i, head.len() + j) =~= tail.subrange(i, j));
}

proof fn lemma_two_fields(buf: Seq<u8>, at: int, x: int, y: int)
    requires
        0 <= at,
        at + 8 <= buf.len(),
        buf.subrange(at, at + 8) == be32(x) + be32(y),
        0 <= x < 4294967296,
        0 <= y < 4294967296,
    ensures
        be32_at(buf, at) == x,
        be32_at(buf, at + 4) == y,
{
    let part = be32(x) + be32(y);
    assert(buf.subrange(at, at + 4) =~= part.subrange(0, 4));
    assert(part.subrange(0, 4) =~= be32(x));
    assert(buf.subrange(at + 4, at + 8) =~= part.subrange(4, 8));
    assert(part.subrange(4, 8) =~= be32(y));
    crate::wire::lemma_be32_inside(buf, at, x);
    crate::wire::lemma_be32_inside(buf, at + 4, y);
}

/// What the gap and the length of range `k` read as.
proof fn lemma_range_at(largest: u32, delay: u32, ranges: Seq<(u32, u32)>, rest: Seq<u8>, k: int)
    requires
        1 <= k < ranges.len() <= MAX_SACK_RANGES,
        descending(ranges),
    ensures
        be32_at(wire_form(largest, delay, ranges) + rest, 14 + 8 * (k - 1)) == ranges[k - 1].0 - 1
            - ranges[k].1,
        be32_at(wire_form(largest, delay, ranges) + rest, 18 + 8 * (k - 1)) == ranges[k].1
            - ranges[k].0,
{
    let head = be32(largest as int) + be32(delay as int) + be16(ranges.len() as int) + be32(
        ranges[0].1 - ranges[0].0,
    );
    let tail = tail_bytes(ranges);
    assert(head.len() == 14);
    assert(ranges[k].1 + 1 < ranges[k - 1].0);
    assert(ranges[k].0 <= ranges[k].1);
    lemma_tail_at(ranges, k);
    lemma_part_behind(head, tail, rest, 8 * (k - 1), 8 * k);
    lemma_two_fields(
        head + tail + rest,
        14 + 8 * (k - 1),
        ranges[k - 1].0 - 1 - ranges[k].1,
        ranges[k].1 - ranges[k].0,
    );
}

proof fn lemma_decode_prefix(
    largest: u32,
    delay: u32,
    ranges: Seq<(u32, u32)>,
    rest: Seq<u8>,
    n: nat,
)
    requires
        1 <= n <= ranges.len() <= MAX_SACK_RANGES,
        descending(ranges),
        largest == ranges[0].1,
    ensures
        decoded_ranges(wire_form(largest, delay, ranges) + rest, n) == Some(ranges.take(n as int)),
    decreases n,
{
    lemma_head_at(largest, delay, ranges, rest);
    if n == 1 {
        assert(ranges.take(1) =~= seq![ranges[0]]);
    } else {
        let k = n - 1;
        lemma_decode_prefix(largest, delay, ranges, rest, k as nat);
        lemma_range_at(largest, delay, ranges, rest, k);
        assert(ranges[k].1 + 1 < ranges[k - 1].0);
        assert(ranges[k].0 <= ranges[k].1);
        assert(ranges.take(k).last() == ranges[k - 1]);
        assert(ranges.take(n as int) =~= ranges.take(k).push(ranges[k]));
    }
}

proof fn lemma_wire_len(largest: u32, delay: u32, ranges: Seq<(u32, u32)>)
    requires
        ranges.len() >= 1,
    ensures
        wire_form(largest, delay, ranges).len() == 14 + 8 * (ranges.len() - 1),
{
    lemma_tail_at(ranges, 0);
}

/// What is encoded decodes to the same acknowledgement, whatever follows it.
pub proof fn law_encoded_sack_decodes(
    largest: u32,
    delay: u32,
    ranges: Seq<(u32, u32)>,
    rest: Seq<u8>,
)
    requires
        1 <= ranges.len() <= MAX_SACK_RANGES,
        descending(ranges),
        largest == ranges[0].1,
    ensures
        decoded(wire_form(largest, delay, ranges) + rest) == Ok::<Seq<(u32, u32)>, SackError>(
            ranges,
        ),
        be32_at(wire_form(largest, delay, ranges) + rest, 0) == largest,
        be32_at(wire_form(largest, delay, ranges) + rest, 4) == delay,
        wire_form(largest, delay, ranges).len() == 14 + 8 * (ranges.len() - 1),
{
    lemma_wire_len(largest, delay, ranges);
    lemma_head_at(largest, delay, ranges, rest);
    lemma_decode_prefix(largest, delay, ranges, rest, ranges.len());
    assert(ranges.take(ranges.len() as int) =~= ranges);
}

/// The highest received sequence is the largest acknowledged one.
pub proof fn law_largest_is_received(ranges: Seq<(u32, u32)>, input: Seq<(u32, u32)>, x: int)
    requires
        ranges.len() > 0,
        descending(ranges),
        highest_runs_of(ranges, input),
    ensures
        covers(input, ranges[0].1 as int),
        covers(input, x) ==> x <= ranges[0].1,
{
    assert(ranges[0].0 <= ranges[0].1);
    if ranges.len() > 1 {
        assert(ranges[ranges.len() - 1].1 + 1 < ranges[0].0);
        assert(ranges[ranges.len() - 1].0 <= ranges[ranges.len() - 1].1);
    }
    assert(covers(ranges, ranges[0].1 as int));
    if covers(input, x) && x > ranges[0].1 {
        assert(covers(ranges, x));
        let i = choose|i: int| 0 <= i < ranges.len() && (#[trigger] ranges[i]).0 <= x
            <= ranges[i].1;
        if i > 0 {
            assert(ranges[i].1 + 1 < ranges[0].0);
        }
    }
}

/// What does not decode, in numbers: less than 14 bytes or than the ranges take, no range, more than 32 ranges,
/// two ranges that touch, or one that runs below zero.
pub proof fn law_what_does_not_decode(buf: Seq<u8>)
    ensures
        buf.len() < 14 ==> decoded(buf) == Err::<Seq<(u32, u32)>, SackError>(SackError::Truncated),
        buf.len() >= 14 ==> {
            let n = buf[8] * 256 + buf[9];
            &&& n == 0 ==> decoded(buf) == Err::<Seq<(u32, u32)>, SackError>(SackError::Malformed)
            &&& n > 32 ==> decoded(buf) == Err::<Seq<(u32, u32)>, SackError>(
                SackError::TooManyRanges,
            )
            &&& 0 < n <= 32 && buf.len() < 14 + 8 * (n - 1) ==> decoded(buf) == Err::<
                Seq<(u32, u32)>,
                SackError,
            >(SackError::Truncated)
            &&& 0 < n <= 32 && buf.len() >= 14 + 8 * (n - 1) ==> decoded(buf) is Ok || decoded(buf)
                == Err::<Seq<(u32, u32)>, SackError>(SackError::Malformed)
            &&& n == 1 && be32_at(buf, 10) <= be32_at(buf, 0) ==> decoded(buf) == Ok::<
                Seq<(u32, u32)>,
                SackError,
            >(seq![((be32_at(buf, 0) - be32_at(buf, 10)) as u32, be32_at(buf, 0) as u32)])
            &&& n == 1 && be32_at(buf, 10) > be32_at(buf, 0) ==> decoded(buf) is Err
            &&& n >= 2 && be32_at(buf, 14) == 0 ==> decoded(buf) is Err
        },
{
    if buf.len() >= 14 {
        let n = buf[8] * 256 + buf[9];
        if 2 <= n <= 32 && be32_at(buf, 14) == 0 {
            assert(decoded_ranges(buf, 2) is None);
            lemma_undecodable(buf, 2, n as nat);
        }
    }
}

/// What is acknowledged: every number that is acknowledged was received, the largest received one always is, and
/// where fewer than 32 runs come out, every number that was received is.
pub proof fn law_only_what_was_received(ranges: Seq<(u32, u32)>, input: Seq<(u32, u32)>, x: int)
    requires
        acknowledges(ranges, input),
    ensures
        covers(ranges, x) ==> covers(input, x),
        ranges.len() < 32 && covers(input, x) ==> covers(ranges, x),
        covers(input, x) ==> x <= ranges[0].1,
        ranges.len() <= 32,
{
    if covers(ranges, x) {
        let i = choose|i: int| 0 <= i < ranges.len() && (#[trigger] ranges[i]).0 <= x <= ranges[i].1;
        if i < ranges.len() - 1 {
            assert(ranges[ranges.len() - 1].1 + 1 < ranges[i].0);
        }
        assert(ranges[ranges.len() - 1].0 <= ranges[ranges.len() - 1].1);
        assert(x >= ranges.last().0 - 1);
    }
    if covers(input, x) && x > ranges[0].1 {
        if ranges.len() > 1 {
            assert(ranges[ranges.len() - 1].1 + 1 < ranges[0].0);
        }
        assert(ranges[0].0 <= ranges[0].1);
        assert(covers(ranges, x));
        let i = choose|i: int| 0 <= i < ranges.len() && (#[trigger] ranges[i]).0 <= x <= ranges[i].1;
        if i > 0 {
            assert(ranges[i].1 + 1 < ranges[0].0);
        }
    }
}

/// How ranges are written down: the first ends at the largest number, each further one ends as far below the one
/// before it as its gap says, less one, and every range goes down by its length.
pub proof fn law_ranges_in_numbers(buf: Seq<u8>, k: int)
    requires
        decoded(buf) is Ok,
    ensures
        ({
            let rs = decoded(buf)->Ok_0;
            &&& rs.len() == buf[8] * 256 + buf[9]
            &&& 1 <= rs.len() <= 32
            &&& rs[0].1 == be32_at(buf, 0)
            &&& rs[0].0 == be32_at(buf, 0) - be32_at(buf, 10)
            &&& 1 <= k < rs.len() ==> {
                &&& be32_at(buf, 14 + 8 * (k - 1)) >= 1
                &&& rs[k].1 == rs[k - 1].0 - 1 - be32_at(buf, 14 + 8 * (k - 1))
                &&& rs[k].0 == rs[k].1 - be32_at(buf, 18 + 8 * (k - 1))
            }
        }),
{
    let n = (buf[8] * 256 + buf[9]) as nat;
    lemma_ranges_decoded(buf, n, k);
}

proof fn lemma_ranges_decoded(buf: Seq<u8>, n: nat, k: int)
    requires
        n >= 1,
        decoded_ranges(buf, n) is Some,
    ensures
        ({
            let rs = decoded_ranges(buf, n)->0;
            &&& rs.len() == n
            &&& rs[0].1 == be32_at(buf, 0)
            &&& rs[0].0 == be32_at(buf, 0) - be32_at(buf, 10)
            &&& 1 <= k < n ==> {
                &&& be32_at(buf, 14 + 8 * (k - 1)) >= 1
                &&& rs[k].1 == rs[k - 1].0 - 1 - be32_at(buf, 14 + 8 * (k - 1))
                &&& rs[k].0 == rs[k].1 - be32_at(buf, 18 + 8 * (k - 1))
            }
        }),
    decreases n,
{
    if n > 1 {
        lemma_ranges_decoded(buf, (n - 1) as nat, k);
        let front = decoded_ranges(buf, (n - 1) as nat)->0;
        lemma_ranges_decoded(buf, (n - 1) as nat, n - 2);
        assert(decoded_ranges(buf, n)->0.drop_last() =~= front);
    }
}

} // verus!
