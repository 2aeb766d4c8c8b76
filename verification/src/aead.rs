//! Authenticated encryption.

use ring::aead::{Aad, LessSafeKey, Nonce, UnboundKey, AES_256_GCM};
use vstd::prelude::*;

verus! {

/// The longest text that one call seals.
pub const MAX_PLAINTEXT: u64 = 68719476704;

/// `plain` sealed with AES-256-GCM under `key` and `nonce`, without associated data; the tag
/// stands at the end.
pub uninterp spec fn aes256gcm_sealed(key: Seq<u8>, nonce: Seq<u8>, plain: Seq<u8>) -> Seq<u8>;

/// What opening `sealed` under `key` and `nonce` gives; `None` when the tag does not hold.
pub uninterp spec fn aes256gcm_opened(key: Seq<u8>, nonce: Seq<u8>, sealed: Seq<u8>) -> Option<
    Seq<u8>,
>;

/// Calls `ring::aead::LessSafeKey::seal_in_place_append_tag` with AES-256-GCM and no
/// associated data. It fails only beyond the longest text; the result depends on the
/// arguments alone, is 16 bytes longer than the text, and opens to the text again under the
/// same key and nonce.
#[verifier::external_body]
pub(crate) fn aes256gcm_seal(key: &[u8; 32], nonce: &[u8; 12], plain: &[u8]) -> (sealed: Vec<u8>)
    requires
        plain@.len() <= MAX_PLAINTEXT,
    ensures
        sealed@ == aes256gcm_sealed(key@, nonce@, plain@),
        sealed@.len() == plain@.len() + 16,
        aes256gcm_opened(key@, nonce@, sealed@) == Some(plain@),
{
    let key = LessSafeKey::new(UnboundKey::new(&AES_256_GCM, key).expect("a 32-byte key"));
    let mut text = plain.to_vec();
    key.seal_in_place_append_tag(Nonce::assume_unique_for_key(*nonce), Aad::empty(), &mut text)
        .expect("within the longest text");
    text
}

/// Calls `ring::aead::LessSafeKey::open_in_place` with AES-256-GCM and no associated data.
/// The result depends on the arguments alone, and an opened text is 16 bytes shorter than
/// the sealed one.
#[verifier::external_body]
pub(crate) fn aes256gcm_open(key: &[u8; 32], nonce: &[u8; 12], sealed: &[u8]) -> (plain: Option<
    Vec<u8>,
>)
    ensures
        match plain {
            Some(p) => aes256gcm_opened(key@, nonce@, sealed@) == Some(p@) && p@.len() + 16
                == sealed@.len(),
            None => aes256gcm_opened(key@, nonce@, sealed@) is None,
        },
{
    let key = LessSafeKey::new(UnboundKey::new(&AES_256_GCM, key).expect("a 32-byte key"));
    let mut text = sealed.to_vec();
    key.open_in_place(Nonce::assume_unique_for_key(*nonce), Aad::empty(), &mut text)
        .ok()
        .map(|plain| plain.to_vec())
}

} // verus!
