//! Random bytes from the operating system.

use rand::seq::SliceRandom;
use rand::{Rng, SeedableRng};
use vstd::prelude::*;

verus! {

/// The operating system could not supply random bytes.
#[derive(Debug, Clone, Copy, PartialEq, Eq, Structural)]
pub struct RngError;

/// Calls `getrandom::getrandom` on a buffer of `n` bytes. A success fills the whole
/// buffer; which bytes come is left to the operating system, and so is whether it
/// succeeds. No allocation holds more than `isize::MAX` bytes.
#[verifier::external_body]
pub(crate) fn os_random(n: usize) -> (r: Result<Vec<u8>, RngError>)
    requires
        n <= isize::MAX,
    ensures
        r matches Ok(bytes) ==> bytes@.len() == n,
{
    let mut bytes = vec![0u8; n];
    match getrandom::getrandom(&mut bytes) {
        Ok(()) => Ok(bytes),
        Err(_) => Err(RngError),
    }
}

/// Calls `rand::seq::SliceRandom::shuffle` with a generator that is seeded by the operating
/// system. The result has the same items; their order is left to chance.
#[verifier::external_body]
pub(crate) fn shuffled(items: Vec<usize>) -> (r: Result<Vec<usize>, RngError>)
    ensures
        r matches Ok(mixed) ==> mixed@.to_multiset() == items@.to_multiset(),
{
    let mut rng = rand::rngs::StdRng::from_rng(rand::rngs::OsRng).map_err(|_| RngError)?;
    let mut mixed = items;
    mixed.shuffle(&mut rng);
    Ok(mixed)
}

/// Calls `rand::Rng::gen_range` on `low..=high` with a generator that is seeded by the
/// operating system. It panics on an empty range; which number of the range comes is left to
/// chance.
#[verifier::external_body]
pub(crate) fn random_in(low: usize, high: usize) -> (r: Result<usize, RngError>)
    requires
        low <= high,
    ensures
        r matches Ok(n) ==> low <= n <= high,
{
    let mut rng = rand::rngs::StdRng::from_rng(rand::rngs::OsRng).map_err(|_| RngError)?;
    Ok(rng.gen_range(low..=high))
}

/// Draw the numbers below `n` in a random order.
pub fn random_order(n: usize) -> (r: Result<Vec<usize>, RngError>)
    ensures
        r matches Ok(order) ==> is_order(order@, n as int),
{
    let mut all: Vec<usize> = Vec::new();
    let mut i: usize = 0;
    while i < n
        invariant
            i <= n,
            all@.len() == i,
            forall|k: int| 0 <= k < i ==> all@[k] == k,
        decreases n - i,
    {
        all.push(i);
        i += 1;
    }
    let ghost sorted = all@;
    match shuffled(all) {
        Ok(order) => {
            proof {
                lemma_shuffled_is_order(sorted, order@, n as int);
            }
            Ok(order)
        },
        Err(e) => Err(e),
    }
}

/// Whether `s` holds each number below `n` once.
pub open spec fn is_order(s: Seq<usize>, n: int) -> bool {
    &&& s.len() == n
    &&& s.no_duplicates()
    &&& forall|i: int| 0 <= i < s.len() ==> (#[trigger] s[i]) < n
}

proof fn lemma_shuffled_is_order(all: Seq<usize>, s: Seq<usize>, n: int)
    requires
        0 <= n,
        all.len() == n,
        forall|k: int| 0 <= k < n ==> all[k] == k,
        s.to_multiset() == all.to_multiset(),
    ensures
        is_order(s, n),
{
    all.to_multiset_ensures();
    s.to_multiset_ensures();
    assert(all.no_duplicates());
    all.lemma_multiset_has_no_duplicates();
    s.lemma_multiset_has_no_duplicates_conv();
    assert forall|i: int| 0 <= i < s.len() implies (#[trigger] s[i]) < n by {
        assert(s.contains(s[i]));
        assert(s.to_multiset().contains(s[i]));
        assert(all.contains(s[i]));
    }
}

/// Draw `N` random bytes.
pub(crate) fn random_array<const N: usize>() -> (r: Result<[u8; N], RngError>)
    requires
        N <= isize::MAX,
{
    match os_random(N) {
        Ok(bytes) => Ok(crate::wire::to_array::<N>(bytes.as_slice())),
        Err(e) => Err(e),
    }
}

/// Draw a random 64-bit number.
pub(crate) fn random_u64() -> (r: Result<u64, RngError>) {
    match os_random(8) {
        Ok(bytes) => Ok(crate::wire::read_u64_le(bytes.as_slice(), 0)),
        Err(e) => Err(e),
    }
}

} // verus!
