//! The handshake transcript, which the server signs.

use crate::codec::{
    fits, flag_byte, lemma_regroup, lemma_take, lemma_take_flag, lemma_take_prefixed, prefixed,
    push_flag, push_prefixed,
};
use crate::handshake::error::HandshakeError;
use crate::handshake::messages::{
    client_hello_fits, law_hello_is_read_back, protocol_variant, push_client_hello,
    serialization_error, variant_tag, ClientHello, HelloView,
};
use crate::hash::{sha256, sha256_of};
use crate::hybrid::{
    halves_bytes, lemma_take_halves, push_halves, Halves, HybridCiphertext, HybridVerifyingKey,
};
use crate::wire::append;
use vstd::prelude::*;

verus! {

/// What the server signs: the whole hello of the client and its own answer, behind the
/// variant tag of the build.
#[verifier::ext_equal]
pub struct Transcript {
    pub hello: HelloView,
    pub server_nonce: Seq<u8>,
    pub ciphertext: Halves,
    pub server_key: Halves,
    pub session_id: Seq<u8>,
    pub early_data_accepted: bool,
}

impl Transcript {
    /// Whether the byte strings fit the layout.
    pub open spec fn fits(self) -> bool {
        self.hello.fits() && fits(self.ciphertext.1) && fits(self.server_key.1)
    }

    /// Whether the fixed fields have their lengths and the others fit the layout.
    pub open spec fn wf(self) -> bool {
        &&& self.hello.wf()
        &&& self.fits()
        &&& self.server_nonce.len() == 32
        &&& self.ciphertext.0.len() == 32
        &&& self.server_key.0.len() == 32
        &&& self.session_id.len() == 32
    }

    /// The layout of what stands behind the hello.
    pub open spec fn answer(self) -> Seq<u8> {
        self.server_nonce + (halves_bytes(self.ciphertext) + (halves_bytes(self.server_key) + (
        self.session_id + flag_byte(self.early_data_accepted))))
    }

    /// The layout of the transcript.
    pub open spec fn bytes(self) -> Seq<u8> {
        prefixed(variant_tag()) + (self.hello.bytes() + self.answer())
    }

    /// The digest that is signed.
    pub open spec fn digest(self) -> Seq<u8> {
        sha256_of(self.bytes())
    }
}

/// Digest a transcript. Fails when a byte string is too long for the layout.
pub fn compute_transcript_hash(
    hello: &ClientHello,
    server_nonce: &[u8; 32],
    ciphertext: &HybridCiphertext,
    server_key: &HybridVerifyingKey,
    session_id: &[u8; 32],
    early_data_accepted: bool,
) -> (r: Result<[u8; 32], HandshakeError>)
    ensures
        ({
            let t = Transcript {
                hello: hello@,
                server_nonce: server_nonce@,
                ciphertext: ciphertext@,
                server_key: server_key@,
                session_id: session_id@,
                early_data_accepted,
            };
            &&& t.fits() ==> (r matches Ok(d) && d@ == t.digest())
            &&& !t.fits() ==> (r matches Err(e) && serialization_error(e, "invalid data"@))
        }),
{
    if !client_hello_fits(hello) || ciphertext.ml_kem_ct.len() > 0xffff_ffff
        || server_key.ml_dsa_pk.len() > 0xffff_ffff {
        return Err(HandshakeError::SerializationError("invalid data".to_owned()));
    }
    let variant: Vec<u8> = protocol_variant();
    let mut out: Vec<u8> = Vec::new();
    let ghost p0 = out@;
    push_prefixed(&mut out, variant.as_slice());
    push_client_hello(&mut out, hello);
    append(&mut out, server_nonce.as_slice());
    push_halves(&mut out, ciphertext.classical_pk.as_slice(), ciphertext.ml_kem_ct.as_slice());
    push_halves(&mut out, server_key.ed25519_pk.as_slice(), server_key.ml_dsa_pk.as_slice());
    append(&mut out, session_id.as_slice());
    push_flag(&mut out, early_data_accepted);
    proof {
        let p1 = p0 + prefixed(variant_tag());
        assert(p1 =~= prefixed(variant_tag()));
        let p2 = p1 + hello@.bytes();
        let p3 = p2 + server_nonce@;
        let p4 = p3 + halves_bytes(ciphertext@);
        let p5 = p4 + halves_bytes(server_key@);
        let f = flag_byte(early_data_accepted);
        let t5 = session_id@ + f;
        let t4 = halves_bytes(server_key@) + t5;
        let t3 = halves_bytes(ciphertext@) + t4;
        lemma_regroup(p5, session_id@, f);
        lemma_regroup(p4, halves_bytes(server_key@), t5);
        lemma_regroup(p3, halves_bytes(ciphertext@), t4);
        lemma_regroup(p2, server_nonce@, t3);
        lemma_regroup(p1, hello@.bytes(), server_nonce@ + t3);
    }
    Ok(sha256(out.as_slice()))
}

proof fn lemma_answer_is_bound(a: Transcript, b: Transcript)
    requires
        a.wf(),
        b.wf(),
        a.answer() == b.answer(),
    ensures
        a.server_nonce == b.server_nonce,
        a.ciphertext == b.ciphertext,
        a.server_key == b.server_key,
        a.session_id == b.session_id,
        a.early_data_accepted == b.early_data_accepted,
{
    let e = Seq::<u8>::empty();
    let fa = flag_byte(a.early_data_accepted);
    let fb = flag_byte(b.early_data_accepted);
    lemma_take(
        a.server_nonce,
        halves_bytes(a.ciphertext) + (halves_bytes(a.server_key) + (a.session_id + fa)),
    );
    lemma_take(
        b.server_nonce,
        halves_bytes(b.ciphertext) + (halves_bytes(b.server_key) + (b.session_id + fb)),
    );
    lemma_take_halves(a.ciphertext, halves_bytes(a.server_key) + (a.session_id + fa));
    lemma_take_halves(b.ciphertext, halves_bytes(b.server_key) + (b.session_id + fb));
    lemma_take_halves(a.server_key, a.session_id + fa);
    lemma_take_halves(b.server_key, b.session_id + fb);
    lemma_take(a.session_id, fa);
    lemma_take(b.session_id, fb);
    lemma_take_flag(a.early_data_accepted, e);
    lemma_take_flag(b.early_data_accepted, e);
    assert(fa + e =~= fa);
    assert(fb + e =~= fb);
}

/// The transcript binds everything that it is made of: two transcripts with the same layout
/// agree in the whole hello, early data and version with it, and in every field of the
/// answer.
pub proof fn law_transcript_binds_everything(a: Transcript, b: Transcript)
    requires
        a.wf(),
        b.wf(),
        a.bytes() == b.bytes(),
    ensures
        a == b,
{
    lemma_take_prefixed(variant_tag(), a.hello.bytes() + a.answer());
    lemma_take_prefixed(variant_tag(), b.hello.bytes() + b.answer());
    law_hello_is_read_back(a.hello, a.answer());
    law_hello_is_read_back(b.hello, b.answer());
    lemma_answer_is_bound(a, b);
}

/// The order of what is signed: the tag `phantom-default-1` behind its length, the hello, the server's nonce, the
/// ciphertext, the server's key, the session, and whether early data was accepted.
pub proof fn law_order_of_a_transcript(t: Transcript)
    ensures
        ({
            let tag = "phantom-default-1"@.map_values(|c: char| c as u8);
            let n = t.ciphertext.1.len() as int;
            let m = t.server_key.1.len() as int;
            &&& t.digest() == sha256_of(t.bytes())
            &&& t.bytes() == (crate::wire::le32(17) + tag) + (t.hello.bytes() + (t.server_nonce + ((
            t.ciphertext.0 + (crate::wire::le32(n) + t.ciphertext.1)) + ((t.server_key.0 + (
            crate::wire::le32(m) + t.server_key.1)) + (t.session_id + seq![
                if t.early_data_accepted {
                    1u8
                } else {
                    0u8
                },
            ])))))
        }),
{
    reveal_strlit("phantom-default-1");
    assert(variant_tag() =~= "phantom-default-1"@.map_values(|c: char| c as u8));
    assert(variant_tag().len() == 17);
    reveal(halves_bytes);
    reveal(prefixed);
    reveal(flag_byte);
}

} // verus!
