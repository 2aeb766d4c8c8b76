//! Secrets and proofs of resumed sessions.

use crate::handshake::messages::EARLY_DATA_MAX_LEN;
use crate::hash::{
    blake3_key, blake3_key_of, hkdf_sha256, hkdf_sha256_of, sha256, sha256_of,
};
use crate::wire::{append, copy_bytes, to_array};
use vstd::prelude::*;

verus! {

/// The label `phantom-session-id-v1`.
pub open spec fn session_id_label() -> Seq<u8> {
    seq![
        0x70u8, 0x68, 0x61, 0x6e, 0x74, 0x6f, 0x6d, 0x2d, 0x73, 0x65, 0x73, 0x73, 0x69, 0x6f, 0x6e,
        0x2d, 0x69, 0x64, 0x2d, 0x76, 0x31,
    ]
}

/// The label `phantom-resumption-secret-v1`.
pub open spec fn resumption_label() -> Seq<u8> {
    seq![
        0x70u8, 0x68, 0x61, 0x6e, 0x74, 0x6f, 0x6d, 0x2d, 0x72, 0x65, 0x73, 0x75, 0x6d, 0x70, 0x74,
        0x69, 0x6f, 0x6e, 0x2d, 0x73, 0x65, 0x63, 0x72, 0x65, 0x74, 0x2d, 0x76, 0x31,
    ]
}

/// The identifier of the session with this secret and this client nonce.
pub open spec fn session_id_of(shared_secret: Seq<u8>, nonce: Seq<u8>) -> Seq<u8> {
    sha256_of(session_id_label() + shared_secret + nonce)
}

/// The secret that the session with this secret is resumed with.
pub open spec fn resumption_secret_of(shared_secret: Seq<u8>) -> Seq<u8> {
    hkdf_sha256_of(shared_secret, resumption_label())
}

/// The proof that a client holds the secret of the session that it resumes.
pub open spec fn binder_of(secret: Seq<u8>, session_id: Seq<u8>, nonce: Seq<u8>) -> Seq<u8> {
    blake3_key_of("phantom-resume-binder-v1"@, secret + session_id + nonce)
}

/// Derive a session identifier.
pub fn derive_session_id(shared_secret: &[u8; 32], nonce: &[u8; 32]) -> (id: [u8; 32])
    ensures
        id@ == session_id_of(shared_secret@, nonce@),
{
    let mut data: Vec<u8> = vec![
        0x70u8, 0x68, 0x61, 0x6e, 0x74, 0x6f, 0x6d, 0x2d, 0x73, 0x65, 0x73, 0x73, 0x69, 0x6f, 0x6e,
        0x2d, 0x69, 0x64, 0x2d, 0x76, 0x31,
    ];
    assert(data@ =~= session_id_label());
    append(&mut data, shared_secret.as_slice());
    append(&mut data, nonce.as_slice());
    sha256(data.as_slice())
}

/// Derive the secret that a session is resumed with.
pub fn derive_resumption_secret(shared_secret: &[u8; 32]) -> (secret: [u8; 32])
    ensures
        secret@ == resumption_secret_of(shared_secret@),
{
    let label: Vec<u8> = vec![
        0x70u8, 0x68, 0x61, 0x6e, 0x74, 0x6f, 0x6d, 0x2d, 0x72, 0x65, 0x73, 0x75, 0x6d, 0x70, 0x74,
        0x69, 0x6f, 0x6e, 0x2d, 0x73, 0x65, 0x63, 0x72, 0x65, 0x74, 0x2d, 0x76, 0x31,
    ];
    assert(label@ =~= resumption_label());
    hkdf_sha256(shared_secret.as_slice(), label.as_slice())
}

/// Derive the proof that a client holds `secret`.
pub fn derive_resumption_binder(
    secret: &[u8; 32],
    session_id: &[u8; 32],
    nonce: &[u8; 32],
) -> (binder: [u8; 32])
    ensures
        binder@ == binder_of(secret@, session_id@, nonce@),
{
    let mut ikm: Vec<u8> = copy_bytes(secret.as_slice());
    append(&mut ikm, session_id.as_slice());
    append(&mut ikm, nonce.as_slice());
    blake3_key("phantom-resume-binder-v1", ikm.as_slice())
}

/// Early data to seal or to open. The key and the nonce come from `secret` and
/// `client_nonce`.
#[derive(Debug, Clone)]
pub struct EarlyDataJob {
    pub secret: [u8; 32],
    pub client_nonce: [u8; 32],
    /// What the seal is bound to: the resumed session and the client nonce.
    pub aad: [u8; 64],
    /// The plain text to seal, or the sealed text to open.
    pub text: Vec<u8>,
}

/// Whether a job is to seal or open `text` for this resumption.
pub open spec fn early_job(
    j: EarlyDataJob,
    secret: Seq<u8>,
    nonce: Seq<u8>,
    session_id: Seq<u8>,
    text: Seq<u8>,
) -> bool {
    &&& j.secret@ == secret
    &&& j.client_nonce@ == nonce
    &&& j.aad@ == session_id + nonce
    &&& j.text@ == text
}

/// Prepare early data to be sealed or opened.
pub fn early_data_job(
    secret: &[u8; 32],
    nonce: &[u8; 32],
    session_id: &[u8; 32],
    text: &[u8],
) -> (j: EarlyDataJob)
    ensures
        early_job(j, secret@, nonce@, session_id@, text@),
{
    let mut aad: Vec<u8> = copy_bytes(session_id.as_slice());
    append(&mut aad, nonce.as_slice());
    EarlyDataJob {
        secret: *secret,
        client_nonce: *nonce,
        aad: to_array::<64>(aad.as_slice()),
        text: copy_bytes(text),
    }
}

/// Whether sealed early data is short enough to be opened: the plain text and a 16-byte tag.
pub open spec fn may_open(sealed_len: nat) -> bool {
    sealed_len <= EARLY_DATA_MAX_LEN + 16
}

/// The labels are the texts that they are named after, so that no two derivations share one.
pub proof fn law_labels_are_texts()
    ensures
        session_id_label() == "phantom-session-id-v1"@.map_values(|c: char| c as u8),
        resumption_label() == "phantom-resumption-secret-v1"@.map_values(|c: char| c as u8),
{
    reveal_strlit("phantom-session-id-v1");
    reveal_strlit("phantom-resumption-secret-v1");
    assert(session_id_label() =~= "phantom-session-id-v1"@.map_values(|c: char| c as u8));
    assert(resumption_label() =~= "phantom-resumption-secret-v1"@.map_values(|c: char| c as u8));
}

/// What is derived from a secret: the identifier of a session from the shared secret and the client's
/// nonce, the secret of its resumption from the shared secret, and the proof of that secret from it, the
/// session and the nonce. Early data may be as long as 16 KiB and a tag of 16 bytes.
pub proof fn law_derivations(
    shared_secret: Seq<u8>,
    session_id: Seq<u8>,
    nonce: Seq<u8>,
    sealed_len: nat,
)
    ensures
        session_id_of(shared_secret, nonce) == sha256_of(
            "phantom-session-id-v1"@.map_values(|c: char| c as u8) + shared_secret + nonce,
        ),
        resumption_secret_of(shared_secret) == hkdf_sha256_of(
            shared_secret,
            "phantom-resumption-secret-v1"@.map_values(|c: char| c as u8),
        ),
        binder_of(shared_secret, session_id, nonce) == blake3_key_of(
            "phantom-resume-binder-v1"@,
            shared_secret + session_id + nonce,
        ),
        may_open(sealed_len) <==> sealed_len <= 16_400,
{
    law_labels_are_texts();
}

} // verus!
