//! Hashes, message authentication codes and key derivation.

use hmac::{Hmac, KeyInit, Mac};
use sha2::{Digest, Sha256};
use vstd::prelude::*;

verus! {

/// The SHA-256 digest of `data`.
pub uninterp spec fn sha256_of(data: Seq<u8>) -> Seq<u8>;

/// The HMAC-SHA-256 tag of `data` under `key`.
pub uninterp spec fn hmac_sha256_of(key: Seq<u8>, data: Seq<u8>) -> Seq<u8>;

/// The first 32 bytes that HKDF-SHA-256 without a salt derives from `ikm` for `info`.
pub uninterp spec fn hkdf_sha256_of(ikm: Seq<u8>, info: Seq<u8>) -> Seq<u8>;

/// The 32 bytes that BLAKE3 in its key-derivation mode derives from `ikm` for `context`.
pub uninterp spec fn blake3_key_of(context: Seq<char>, ikm: Seq<u8>) -> Seq<u8>;

/// Calls `sha2::Sha256::digest`. The digest depends on the data alone.
#[verifier::external_body]
pub(crate) fn sha256(data: &[u8]) -> (digest: [u8; 32])
    ensures
        digest@ == sha256_of(data@),
{
    Sha256::digest(data).into()
}

/// Calls `hmac::Hmac::<Sha256>` on one message. It takes keys of any length, so that making
/// it cannot fail; the tag depends on the key and the data alone.
#[verifier::external_body]
pub(crate) fn hmac_sha256(key: &[u8], data: &[u8]) -> (tag: [u8; 32])
    ensures
        tag@ == hmac_sha256_of(key@, data@),
{
    let mut mac = <Hmac<Sha256> as KeyInit>::new_from_slice(key).expect("any key length");
    mac.update(data);
    mac.finalize().into_bytes().into()
}

/// Calls `hkdf::Hkdf::<Sha256>::new` without a salt and `expand` into 32 bytes. `expand`
/// fails only beyond 255 times the digest length; the key depends on the arguments alone.
#[verifier::external_body]
pub(crate) fn hkdf_sha256(ikm: &[u8], info: &[u8]) -> (key: [u8; 32])
    ensures
        key@ == hkdf_sha256_of(ikm@, info@),
{
    let mut key = [0u8; 32];
    hkdf::Hkdf::<Sha256>::new(None, ikm).expand(info, &mut key).expect("32 bytes");
    key
}

/// Calls `blake3::derive_key`. The key depends on the arguments alone.
#[verifier::external_body]
pub(crate) fn blake3_key(context: &str, ikm: &[u8]) -> (key: [u8; 32])
    ensures
        key@ == blake3_key_of(context@, ikm@),
{
    blake3::derive_key(context, ikm)
}

} // verus!
