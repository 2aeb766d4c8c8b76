//! Hybrid key material: a classical half of fixed length and a post-quantum half.

use crate::codec::{
    fits, lemma_regroup, lemma_take, lemma_take_prefixed, lemma_taken, lemma_taken_prefixed,
    prefixed, push_prefixed, take, take_prefixed, DecodeFault, Reader,
};
use crate::wire::{append, copy_bytes, same_bytes};
use vstd::prelude::*;

verus! {

/// Bytes in the classical half of a key package.
pub const CLASSICAL_PK_BYTES: usize = 32;

/// A classical half and a post-quantum half.
pub type Halves = (Seq<u8>, Seq<u8>);

/// The layout of two halves: the classical one as it is, the other behind its length.
#[verifier::opaque]
pub open spec fn halves_bytes(h: Halves) -> Seq<u8> {
    h.0 + prefixed(h.1)
}

/// Two halves, the first of `n` bytes, and the rest.
#[verifier::opaque]
pub open spec fn take_halves(s: Seq<u8>, n: int) -> Result<(Halves, Seq<u8>), DecodeFault> {
    match take(s, n) {
        Ok((a, rest)) => match take_prefixed(rest) {
            Ok((b, rest)) => Ok(((a, b), rest)),
            Err(e) => Err(e),
        },
        Err(e) => Err(e),
    }
}

/// Halves are read back.
pub proof fn lemma_take_halves(h: Halves, rest: Seq<u8>)
    requires
        fits(h.1),
    ensures
        take_halves(halves_bytes(h) + rest, h.0.len() as int) == Ok::<_, DecodeFault>((h, rest)),
{
    reveal(halves_bytes);
    reveal(take_halves);
    lemma_regroup(h.0, prefixed(h.1), rest);
    lemma_take(h.0, prefixed(h.1) + rest);
    lemma_take_prefixed(h.1, rest);
}

/// Halves that were read stood in front.
pub proof fn lemma_taken_halves(s: Seq<u8>, n: int)
    requires
        0 <= n,
    ensures
        take_halves(s, n) matches Ok((h, rest)) ==> s == halves_bytes(h) + rest && h.0.len() == n
            && fits(h.1),
{
    reveal(take_halves);
    reveal(halves_bytes);
    if let Ok((h, rest)) = take_halves(s, n) {
        lemma_taken(s, n);
        lemma_taken_prefixed(take(s, n)->Ok_0.1);
        lemma_regroup(h.0, prefixed(h.1), rest);
    }
}

/// A public key for key exchange.
#[derive(Debug, Clone, PartialEq, Eq)]
pub struct HybridKeyPackage {
    pub classical_pk: [u8; 32],
    pub ml_kem_pk: Vec<u8>,
}

impl View for HybridKeyPackage {
    type V = Halves;

    open spec fn view(&self) -> Halves {
        (self.classical_pk@, self.ml_kem_pk@)
    }
}

/// A public key for signatures.
#[derive(Debug, Clone, PartialEq, Eq)]
pub struct HybridVerifyingKey {
    pub ed25519_pk: [u8; 32],
    pub ml_dsa_pk: Vec<u8>,
}

impl View for HybridVerifyingKey {
    type V = Halves;

    open spec fn view(&self) -> Halves {
        (self.ed25519_pk@, self.ml_dsa_pk@)
    }
}

/// An encapsulated secret.
#[derive(Debug, Clone, PartialEq, Eq)]
pub struct HybridCiphertext {
    pub classical_pk: [u8; 32],
    pub ml_kem_ct: Vec<u8>,
}

impl View for HybridCiphertext {
    type V = Halves;

    open spec fn view(&self) -> Halves {
        (self.classical_pk@, self.ml_kem_ct@)
    }
}

/// A signature.
#[derive(Debug, Clone, PartialEq, Eq)]
pub struct HybridSignature {
    pub ed25519_sig: [u8; 64],
    pub ml_dsa_sig: Vec<u8>,
}

impl View for HybridSignature {
    type V = Halves;

    open spec fn view(&self) -> Halves {
        (self.ed25519_sig@, self.ml_dsa_sig@)
    }
}

/// A proof-of-work challenge.
#[derive(Debug, Clone, Copy, PartialEq, Eq)]
pub struct PoWChallenge {
    pub nonce: [u8; 32],
    pub difficulty: u8,
}

/// A solution of a proof-of-work challenge.
#[derive(Debug, Clone, Copy, PartialEq, Eq)]
pub struct PoWSolution {
    pub nonce: [u8; 32],
    pub solution: u64,
}

/// Append two halves in their layout.
pub fn push_halves(out: &mut Vec<u8>, a: &[u8], b: &[u8])
    requires
        fits(b@),
    ensures
        final(out)@ == old(out)@ + halves_bytes((a@, b@)),
{
    append(out, a);
    push_prefixed(out, b);
    proof {
        reveal(halves_bytes);
        lemma_regroup(old(out)@, a@, prefixed(b@));
    }
}

/// Read two halves, the first of `N` bytes.
pub fn read_halves<const N: usize>(r: &mut Reader) -> (h: Result<([u8; N], Vec<u8>), DecodeFault>)
    ensures
        match take_halves(old(r)@, N as int) {
            Ok((v, rest)) => (h matches Ok((a, b)) && a@ == v.0 && b@ == v.1) && final(r)@ == rest,
            Err(e) => h == Err::<([u8; N], Vec<u8>), DecodeFault>(e),
        },
{
    proof {
        reveal(take_halves);
    }
    match r.array::<N>() {
        Ok(a) => match r.prefixed() {
            Ok(b) => Ok((a, b)),
            Err(e) => Err(e),
        },
        Err(e) => Err(e),
    }
}

impl HybridKeyPackage {
    /// A copy.
    pub fn copy(&self) -> (k: Self)
        ensures
            k@ == self@,
    {
        HybridKeyPackage {
            classical_pk: self.classical_pk,
            ml_kem_pk: copy_bytes(self.ml_kem_pk.as_slice()),
        }
    }
}

impl HybridVerifyingKey {
    /// A copy.
    pub fn copy(&self) -> (k: Self)
        ensures
            k@ == self@,
    {
        HybridVerifyingKey {
            ed25519_pk: self.ed25519_pk,
            ml_dsa_pk: copy_bytes(self.ml_dsa_pk.as_slice()),
        }
    }

    /// Whether two keys are the same.
    pub fn same(&self, other: &HybridVerifyingKey) -> (b: bool)
        ensures
            b == (self@ == other@),
    {
        same_bytes(self.ed25519_pk.as_slice(), other.ed25519_pk.as_slice()) && same_bytes(
            self.ml_dsa_pk.as_slice(),
            other.ml_dsa_pk.as_slice(),
        )
    }
}

} // verus!
