//! Comparison of secrets.

use vstd::prelude::*;

verus! {

/// Calls `subtle::ConstantTimeEq::ct_eq` on two byte slices: it is true exactly when they
/// have the same length and the same bytes. That the time taken does not depend on the
/// bytes is not part of the contract.
#[verifier::external_body]
pub(crate) fn ct_eq(a: &[u8], b: &[u8]) -> (eq: bool)
    ensures
        eq == (a@ == b@),
{
    subtle::ConstantTimeEq::ct_eq(a, b).into()
}

} // verus!
