//! The handshake messages and their layout.

use crate::codec::{
    fits, flag_byte, lemma_regroup, lemma_take, lemma_take_flag, lemma_take_optional,
    lemma_take_prefixed, lemma_taken, lemma_taken_optional, lemma_taken_prefixed, optional_bytes,
    prefixed, push_flag, push_optional, push_prefixed, tagged, take, take_flag, take_optional,
    take_prefixed, take_tag, DecodeFault, Reader,
};
use crate::handshake::error::HandshakeError;
use crate::hybrid::{
    halves_bytes, lemma_take_halves, lemma_taken_halves, push_halves, read_halves, take_halves, Halves,
    HybridCiphertext, HybridKeyPackage, HybridSignature, HybridVerifyingKey, PoWChallenge,
    PoWSolution,
};
use crate::text::{decimal, push_decimal};
use crate::wire::{append, le32_at, le64, le64_at, push_u64_le, same_bytes};
use vstd::prelude::*;

verus! {

/// Longest early data, in bytes before sealing.
pub const EARLY_DATA_MAX_LEN: usize = 16384;

/// The protocol version that this build speaks.
pub const PROTOCOL_VERSION: u8 = 3;

/// The reject code for a version that the server does not speak.
pub const REJECT_UNSUPPORTED_VERSION: u8 = 1;

/// Longest post-quantum half of a key package.
pub const ML_KEM_PK_MAX: usize = 1184;

/// Longest post-quantum half of a verifying key.
pub const ML_DSA_PK_MAX: usize = 1952;

/// Longest variant tag.
pub const PROTOCOL_VARIANT_MAX: usize = 64;

/// The variant tag of this build, `phantom-default-1`.
pub open spec fn variant_tag() -> Seq<u8> {
    seq![
        0x70u8, 0x68, 0x61, 0x6e, 0x74, 0x6f, 0x6d, 0x2d, 0x64, 0x65, 0x66, 0x61, 0x75, 0x6c, 0x74,
        0x2d, 0x31,
    ]
}

/// The variant tag of this build.
pub fn protocol_variant() -> (v: Vec<u8>)
    ensures
        v@ == variant_tag(),
{
    let v: Vec<u8> = vec![
        0x70u8, 0x68, 0x61, 0x6e, 0x74, 0x6f, 0x6d, 0x2d, 0x64, 0x65, 0x66, 0x61, 0x75, 0x6c, 0x74,
        0x2d, 0x31,
    ];
    assert(v@ =~= variant_tag());
    v
}

/// The marker of a reject, `PRJ1`.
pub open spec fn reject_marker() -> Seq<u8> {
    seq![0x50u8, 0x52, 0x4a, 0x31]
}

/// The marker of a reject.
pub fn server_reject_marker() -> (m: [u8; 4])
    ensures
        m@ == reject_marker(),
{
    let m: [u8; 4] = [0x50, 0x52, 0x4a, 0x31];
    assert(m@ =~= reject_marker());
    m
}

/// How far a handshake is.
#[derive(Debug, Clone, Copy, PartialEq, Eq, Structural)]
pub enum HandshakeStage {
    Initial,
    ClassicalReady,
    Established,
    Failed,
}

/// The server's refusal of a hello that it cannot speak to.
#[derive(Debug, Clone, Copy, PartialEq, Eq)]
pub struct ServerReject {
    pub marker: [u8; 4],
    pub code: u8,
    /// The version that the server speaks.
    pub supported_version: u8,
}

impl ServerReject {
    /// The refusal of an unknown version.
    pub fn unsupported_version() -> (r: Self)
        ensures
            r.marker@ == reject_marker(),
            r.code == REJECT_UNSUPPORTED_VERSION,
            r.supported_version == PROTOCOL_VERSION,
    {
        ServerReject {
            marker: server_reject_marker(),
            code: REJECT_UNSUPPORTED_VERSION,
            supported_version: PROTOCOL_VERSION,
        }
    }

    /// Whether the marker is right.
    pub fn has_marker(&self) -> (b: bool)
        ensures
            b == (self.marker@ == reject_marker()),
    {
        same_bytes(self.marker.as_slice(), server_reject_marker().as_slice())
    }
}

/// The client's first message.
#[derive(Debug, Clone)]
pub struct ClientHello {
    pub client_key_package: HybridKeyPackage,
    pub client_verify_key: HybridVerifyingKey,
    pub nonce: [u8; 32],
    pub version: u8,
    /// Proof that the client receives at its address.
    pub cookie: Option<[u8; 32]>,
    pub pow_solution: Option<PoWSolution>,
    /// The session to resume.
    pub resume_session_id: Option<[u8; 32]>,
    /// Proof that the client holds the secret of that session.
    pub resumption_binder: Option<[u8; 32]>,
    pub protocol_variant: Vec<u8>,
    /// Sealed early data.
    pub early_data: Option<Vec<u8>>,
}

/// The fields of a hello.
#[verifier::ext_equal]
pub struct HelloView {
    pub kem: Halves,
    pub key: Halves,
    pub nonce: Seq<u8>,
    pub version: u8,
    pub cookie: Option<Seq<u8>>,
    pub pow: Option<(Seq<u8>, u64)>,
    pub resume: Option<Seq<u8>>,
    pub binder: Option<Seq<u8>>,
    pub variant: Seq<u8>,
    pub early: Option<Seq<u8>>,
}

impl View for ClientHello {
    type V = HelloView;

    open spec fn view(&self) -> HelloView {
        HelloView {
            kem: self.client_key_package@,
            key: self.client_verify_key@,
            nonce: self.nonce@,
            version: self.version,
            cookie: optional_bytes(self.cookie),
            pow: match self.pow_solution {
                Some(p) => Some((p.nonce@, p.solution)),
                None => None,
            },
            resume: optional_bytes(self.resume_session_id),
            binder: optional_bytes(self.resumption_binder),
            variant: self.protocol_variant@,
            early: match self.early_data {
                Some(e) => Some(e@),
                None => None,
            },
        }
    }
}

/// A solution's layout: the nonce and the number.
#[verifier::opaque]
pub open spec fn pow_bytes(o: Option<(Seq<u8>, u64)>) -> Option<Seq<u8>> {
    match o {
        Some(p) => Some(p.0 + le64(p.1 as int)),
        None => None,
    }
}

/// A solution of its layout.
#[verifier::opaque]
pub open spec fn pow_of(o: Option<Seq<u8>>) -> Option<(Seq<u8>, u64)> {
    match o {
        Some(s) => Some((s.take(32), le64_at(s, 32) as u64)),
        None => None,
    }
}

/// Early data's layout: a byte string behind its length.
#[verifier::opaque]
pub open spec fn early_bytes(o: Option<Seq<u8>>) -> Option<Seq<u8>> {
    match o {
        Some(e) => Some(prefixed(e)),
        None => None,
    }
}

impl HelloView {
    /// Whether the fixed fields have their lengths and the others fit the layout.
    pub open spec fn wf(self) -> bool {
        &&& self.kem.0.len() == 32
        &&& self.key.0.len() == 32
        &&& self.nonce.len() == 32
        &&& self.cookie matches Some(c) ==> c.len() == 32
        &&& self.pow matches Some(p) ==> p.0.len() == 32
        &&& self.resume matches Some(r) ==> r.len() == 32
        &&& self.binder matches Some(b) ==> b.len() == 32
        &&& self.fits()
    }

    /// Whether the byte strings fit the layout.
    pub open spec fn fits(self) -> bool {
        &&& fits(self.kem.1)
        &&& fits(self.key.1)
        &&& fits(self.variant)
        &&& self.early matches Some(e) ==> fits(e)
    }

    /// Whether every byte string is within the longest that the protocol uses.
    pub open spec fn bounded(self) -> bool {
        &&& self.kem.1.len() <= ML_KEM_PK_MAX
        &&& self.key.1.len() <= ML_DSA_PK_MAX
        &&& self.variant.len() <= PROTOCOL_VARIANT_MAX
        &&& self.early matches Some(e) ==> e.len() <= EARLY_DATA_MAX_LEN
    }

    /// The layout of what stands behind the keys.
    pub open spec fn tail(self) -> Seq<u8> {
        (self.nonce + seq![self.version]) + (tagged(self.cookie) + (tagged(pow_bytes(self.pow)) + (
        tagged(self.resume) + (tagged(self.binder) + (prefixed(self.variant) + tagged(
            early_bytes(self.early),
        ))))))
    }

    /// The layout of the hello.
    pub open spec fn bytes(self) -> Seq<u8> {
        halves_bytes(self.kem) + (halves_bytes(self.key) + self.tail())
    }
}

/// Optional early data, and the rest.
#[verifier::opaque]
pub open spec fn take_early(s: Seq<u8>) -> Result<(Option<Seq<u8>>, Seq<u8>), DecodeFault> {
    match take_tag(s) {
        Ok((true, rest)) => match take_prefixed(rest) {
            Ok((e, rest)) => Ok((Some(e), rest)),
            Err(e) => Err(e),
        },
        Ok((false, rest)) => Ok((None, rest)),
        Err(e) => Err(e),
    }
}

/// The fields of the hello that stand behind the keys, and the rest.
pub open spec fn take_hello_tail(kem: Halves, key: Halves, s: Seq<u8>) -> Result<
    (HelloView, Seq<u8>),
    DecodeFault,
> {
    match take(s, 33) {
        Err(e) => Err(e),
        Ok((head, s)) => match take_optional(s, 32) {
            Err(e) => Err(e),
            Ok((cookie, s)) => match take_optional(s, 40) {
                Err(e) => Err(e),
                Ok((pow, s)) => match take_optional(s, 32) {
                    Err(e) => Err(e),
                    Ok((resume, s)) => match take_optional(s, 32) {
                        Err(e) => Err(e),
                        Ok((binder, s)) => match take_prefixed(s) {
                            Err(e) => Err(e),
                            Ok((variant, s)) => match take_early(s) {
                                Err(e) => Err(e),
                                Ok((early, s)) => Ok(
                                    (
                                        HelloView {
                                            kem,
                                            key,
                                            nonce: head.take(32),
                                            version: head[32],
                                            cookie,
                                            pow: pow_of(pow),
                                            resume,
                                            binder,
                                            variant,
                                            early,
                                        },
                                        s,
                                    ),
                                ),
                            },
                        },
                    },
                },
            },
        },
    }
}

/// A hello, and the rest.
pub open spec fn take_hello(s: Seq<u8>) -> Result<(HelloView, Seq<u8>), DecodeFault> {
    match take_halves(s, 32) {
        Err(e) => Err(e),
        Ok((kem, s)) => match take_halves(s, 32) {
            Err(e) => Err(e),
            Ok((key, s)) => take_hello_tail(kem, key, s),
        },
    }
}

proof fn lemma_pow_round_trip(p: Option<(Seq<u8>, u64)>)
    requires
        p matches Some(x) ==> x.0.len() == 32,
    ensures
        pow_of(pow_bytes(p)) == p,
        pow_bytes(p) matches Some(s) ==> s.len() == 40,
{
    reveal(pow_of);
    reveal(pow_bytes);
    if let Some(x) = p {
        let le = le64(x.1 as int);
        let s = x.0 + le;
        assert(s.take(32) =~= x.0);
        assert(s.skip(32) =~= le);
        crate::wire::lemma_le_round_trip(x.1 as int);
        lemma_le64_at_shift(s, 32);
    }
}

/// The number at `i` is the number in front of the rest.
proof fn lemma_le64_at_shift(s: Seq<u8>, i: int)
    requires
        0 <= i,
        i + 8 <= s.len(),
    ensures
        le64_at(s, i) == le64_at(s.skip(i), 0),
{
    let t = s.skip(i);
    assert(t[0] == s[i] && t[1] == s[i + 1] && t[2] == s[i + 2] && t[3] == s[i + 3]);
    assert(t[4] == s[i + 4] && t[5] == s[i + 5] && t[6] == s[i + 6] && t[7] == s[i + 7]);
}

proof fn lemma_take_early(o: Option<Seq<u8>>, rest: Seq<u8>)
    requires
        o matches Some(e) ==> fits(e),
    ensures
        take_early(tagged(early_bytes(o)) + rest) == Ok::<_, DecodeFault>((o, rest)),
{
    reveal(take_early);
    reveal(take_tag);
    reveal(tagged);
    reveal(early_bytes);
    match o {
        Some(e) => {
            assert((tagged(early_bytes(o)) + rest).skip(1) =~= prefixed(e) + rest);
            lemma_take_prefixed(e, rest);
        },
        None => {
            assert((tagged(early_bytes(o)) + rest).skip(1) =~= rest);
        },
    }
}

proof fn lemma_tail_is_read_back(v: HelloView, rest: Seq<u8>)
    requires
        v.wf(),
    ensures
        take_hello_tail(v.kem, v.key, v.tail() + rest) == Ok::<_, DecodeFault>((v, rest)),
{
    let t9 = tagged(early_bytes(v.early));
    let t8 = prefixed(v.variant) + t9;
    let t7 = tagged(v.binder) + t8;
    let t6 = tagged(v.resume) + t7;
    let t5 = tagged(pow_bytes(v.pow)) + t6;
    let t4 = tagged(v.cookie) + t5;
    let head = v.nonce + seq![v.version];
    lemma_regroup(head, t4, rest);
    lemma_regroup(tagged(v.cookie), t5, rest);
    lemma_regroup(tagged(pow_bytes(v.pow)), t6, rest);
    lemma_regroup(tagged(v.resume), t7, rest);
    lemma_regroup(tagged(v.binder), t8, rest);
    lemma_regroup(prefixed(v.variant), t9, rest);
    lemma_take(head, t4 + rest);
    assert(head.take(32) =~= v.nonce);
    lemma_take_optional(v.cookie, 32, t5 + rest);
    lemma_pow_round_trip(v.pow);
    lemma_take_optional(pow_bytes(v.pow), 40, t6 + rest);
    lemma_take_optional(v.resume, 32, t7 + rest);
    lemma_take_optional(v.binder, 32, t8 + rest);
    lemma_take_prefixed(v.variant, t9 + rest);
    lemma_take_early(v.early, rest);
}

/// A hello is read back from its layout, whatever stands behind it.
pub proof fn law_hello_is_read_back(v: HelloView, rest: Seq<u8>)
    requires
        v.wf(),
    ensures
        take_hello(v.bytes() + rest) == Ok::<_, DecodeFault>((v, rest)),
{
    lemma_regroup(halves_bytes(v.kem), halves_bytes(v.key) + v.tail(), rest);
    lemma_regroup(halves_bytes(v.key), v.tail(), rest);
    lemma_take_halves(v.kem, halves_bytes(v.key) + (v.tail() + rest));
    lemma_take_halves(v.key, v.tail() + rest);
    lemma_tail_is_read_back(v, rest);
}

proof fn lemma_early_of(s: Seq<u8>)
    ensures
        take_early(s) matches Ok((o, rest)) ==> s == tagged(early_bytes(o)) + rest && (o matches
            Some(v) ==> fits(v)),
{
    reveal(take_early);
    reveal(take_tag);
    reveal(tagged);
    reveal(early_bytes);
    if let Ok((o, rest)) = take_early(s) {
        lemma_taken_prefixed(s.skip(1));
        assert(s =~= seq![s[0]] + s.skip(1));
        match o {
            Some(e) => {
                lemma_regroup(seq![1u8], prefixed(e), rest);
            },
            None => {},
        }
    }
}

proof fn lemma_le64_of_bytes(s: Seq<u8>)
    requires
        s.len() == 8,
    ensures
        le64(le64_at(s, 0)) == s,
        0 <= le64_at(s, 0) <= u64::MAX,
{
    let lo = s.take(4);
    let hi = s.skip(4);
    crate::wire::lemma_le32_of_bytes(lo);
    crate::wire::lemma_le32_of_bytes(hi);
    let a = le32_at(s, 0);
    let b = le32_at(s, 4);
    assert(a == le32_at(lo, 0));
    assert(b == le32_at(hi, 0));
    let v = a + b * 4294967296;
    assert(v % 4294967296 == a && v / 4294967296 == b);
    assert(le64(v) =~= lo + hi);
    assert(lo + hi =~= s);
}

proof fn lemma_pow_of(s: Seq<u8>)
    requires
        s.len() == 40,
    ensures
        pow_bytes(pow_of(Some(s))) == Some(s),
        pow_of(Some(s)) matches Some(p) && p.0.len() == 32,
{
    reveal(pow_of);
    reveal(pow_bytes);
    lemma_le64_at_shift(s, 32);
    lemma_le64_of_bytes(s.skip(32));
    assert(s.take(32) + s.skip(32) =~= s);
}

proof fn lemma_no_pow()
    ensures
        pow_bytes(pow_of(None)) is None,
        pow_of(None) is None,
{
    reveal(pow_of);
    reveal(pow_bytes);
}

proof fn lemma_tail_was_laid_out(kem: Halves, key: Halves, s: Seq<u8>)
    ensures
        take_hello_tail(kem, key, s) matches Ok((v, rest)) ==> {
            &&& s == v.tail() + rest
            &&& v.kem == kem && v.key == key
            &&& v.nonce.len() == 32
            &&& v.cookie matches Some(c) ==> c.len() == 32
            &&& v.pow matches Some(p) ==> p.0.len() == 32
            &&& v.resume matches Some(r) ==> r.len() == 32
            &&& v.binder matches Some(b) ==> b.len() == 32
            &&& fits(v.variant)
            &&& v.early matches Some(e) ==> fits(e)
        },
{
    if let Ok((v, rest)) = take_hello_tail(kem, key, s) {
        lemma_taken(s, 33);
        let (head, s4) = take(s, 33)->Ok_0;
        assert(head =~= v.nonce + seq![v.version]);
        lemma_taken_optional(s4, 32);
        let s5 = take_optional(s4, 32)->Ok_0.1;
        lemma_taken_optional(s5, 40);
        let (pow, s6) = take_optional(s5, 40)->Ok_0;
        match pow {
            Some(p) => {
                lemma_pow_of(p);
            },
            None => {
                lemma_no_pow();
            },
        }
        lemma_taken_optional(s6, 32);
        let s7 = take_optional(s6, 32)->Ok_0.1;
        lemma_taken_optional(s7, 32);
        let s8 = take_optional(s7, 32)->Ok_0.1;
        lemma_taken_prefixed(s8);
        let s9 = take_prefixed(s8)->Ok_0.1;
        lemma_early_of(s9);
        let t9 = tagged(early_bytes(v.early));
        let t8 = prefixed(v.variant) + t9;
        let t7 = tagged(v.binder) + t8;
        let t6 = tagged(v.resume) + t7;
        let t5 = tagged(pow_bytes(v.pow)) + t6;
        let t4 = tagged(v.cookie) + t5;
        lemma_regroup(prefixed(v.variant), t9, rest);
        lemma_regroup(tagged(v.binder), t8, rest);
        lemma_regroup(tagged(v.resume), t7, rest);
        lemma_regroup(tagged(pow_bytes(v.pow)), t6, rest);
        lemma_regroup(tagged(v.cookie), t5, rest);
        lemma_regroup(head, t4, rest);
    }
}

/// What reads as a hello is the layout of that hello.
pub proof fn law_read_hello_was_laid_out(s: Seq<u8>)
    ensures
        take_hello(s) matches Ok((v, rest)) ==> s == v.bytes() + rest && v.wf(),
{
    if let Ok((v, rest)) = take_hello(s) {
        lemma_taken_halves(s, 32);
        let (kem, s1) = take_halves(s, 32)->Ok_0;
        lemma_taken_halves(s1, 32);
        let (key, s2) = take_halves(s1, 32)->Ok_0;
        lemma_tail_was_laid_out(kem, key, s2);
        lemma_regroup(halves_bytes(v.key), v.tail(), rest);
        lemma_regroup(halves_bytes(v.kem), halves_bytes(v.key) + v.tail(), rest);
    }
}

fn push_pow(out: &mut Vec<u8>, o: &Option<PoWSolution>)
    ensures
        final(out)@ == old(out)@ + tagged(
            pow_bytes(
                match *o {
                    Some(p) => Some((p.nonce@, p.solution)),
                    None => None,
                },
            ),
        ),
{
    proof {
        reveal(tagged);
        reveal(pow_bytes);
    }
    match o {
        Some(p) => {
            out.push(1u8);
            append(out, p.nonce.as_slice());
            push_u64_le(out, p.solution);
            assert(out@ =~= old(out)@ + (seq![1u8] + (p.nonce@ + le64(p.solution as int))));
        },
        None => {
            out.push(0u8);
            assert(out@ =~= old(out)@ + seq![0u8]);
        },
    }
}

fn push_early(out: &mut Vec<u8>, o: &Option<Vec<u8>>)
    requires
        *o matches Some(e) ==> fits(e@),
    ensures
        final(out)@ == old(out)@ + tagged(
            early_bytes(
                match *o {
                    Some(e) => Some(e@),
                    None => None,
                },
            ),
        ),
{
    proof {
        reveal(tagged);
        reveal(early_bytes);
    }
    match o {
        Some(e) => {
            out.push(1u8);
            push_prefixed(out, e.as_slice());
            assert(out@ =~= old(out)@ + (seq![1u8] + prefixed(e@)));
        },
        None => {
            out.push(0u8);
            assert(out@ =~= old(out)@ + seq![0u8]);
        },
    }
}

/// Append the layout of a hello.
pub fn push_client_hello(out: &mut Vec<u8>, hello: &ClientHello)
    requires
        hello@.fits(),
    ensures
        final(out)@ == old(out)@ + hello@.bytes(),
{
    push_halves(
        out,
        hello.client_key_package.classical_pk.as_slice(),
        hello.client_key_package.ml_kem_pk.as_slice(),
    );
    push_halves(
        out,
        hello.client_verify_key.ed25519_pk.as_slice(),
        hello.client_verify_key.ml_dsa_pk.as_slice(),
    );
    append(out, hello.nonce.as_slice());
    out.push(hello.version);
    push_optional(out, &hello.cookie);
    push_pow(out, &hello.pow_solution);
    push_optional(out, &hello.resume_session_id);
    push_optional(out, &hello.resumption_binder);
    push_prefixed(out, hello.protocol_variant.as_slice());
    push_early(out, &hello.early_data);
    proof {
        let v = hello@;
        let p0 = old(out)@;
        let p1 = p0 + halves_bytes(v.kem);
        let p2 = p1 + halves_bytes(v.key);
        let head = v.nonce + seq![v.version];
        let p3 = p2 + head;
        assert((p2 + v.nonce).push(v.version) =~= p3);
        let p4 = p3 + tagged(v.cookie);
        let p5 = p4 + tagged(pow_bytes(v.pow));
        let p6 = p5 + tagged(v.resume);
        let p7 = p6 + tagged(v.binder);
        let t9 = tagged(early_bytes(v.early));
        let t8 = prefixed(v.variant) + t9;
        let t7 = tagged(v.binder) + t8;
        let t6 = tagged(v.resume) + t7;
        let t5 = tagged(pow_bytes(v.pow)) + t6;
        let t4 = tagged(v.cookie) + t5;
        lemma_regroup(p7, prefixed(v.variant), t9);
        lemma_regroup(p6, tagged(v.binder), t8);
        lemma_regroup(p5, tagged(v.resume), t7);
        lemma_regroup(p4, tagged(pow_bytes(v.pow)), t6);
        lemma_regroup(p3, tagged(v.cookie), t5);
        lemma_regroup(p2, head, t4);
        lemma_regroup(p1, halves_bytes(v.key), v.tail());
        lemma_regroup(p0, halves_bytes(v.kem), halves_bytes(v.key) + v.tail());
    }
}

/// Whether the byte strings of a hello fit the layout.
pub fn client_hello_fits(hello: &ClientHello) -> (b: bool)
    ensures
        b == hello@.fits(),
{
    let early: usize = match &hello.early_data {
        Some(e) => e.len(),
        None => 0,
    };
    hello.client_key_package.ml_kem_pk.len() <= 0xffff_ffff
        && hello.client_verify_key.ml_dsa_pk.len() <= 0xffff_ffff && hello.protocol_variant.len()
        <= 0xffff_ffff && early <= 0xffff_ffff
}

/// Skip a byte string of at most `max` bytes behind its length.
fn skip_bounded(r: &mut Reader, max: usize) -> (ok: bool)
    ensures
        ok == (take_prefixed(old(r)@) matches Ok((v, rest)) && v.len() <= max),
        ok ==> final(r)@ == take_prefixed(old(r)@)->Ok_0.1,
{
    proof {
        reveal(take_prefixed);
        reveal(take);
    }
    match r.take(4) {
        Ok(len) => {
            let n: usize = crate::wire::read_u32_le(len, 0) as usize;
            if n > max {
                return false;
            }
            r.take(n).is_ok()
        },
        Err(_) => false,
    }
}

/// Skip an optional value of `n` bytes.
fn skip_optional(r: &mut Reader, n: usize) -> (ok: bool)
    ensures
        ok == (take_optional(old(r)@, n as int) is Ok),
        ok ==> final(r)@ == take_optional(old(r)@, n as int)->Ok_0.1,
{
    proof {
        reveal(take_optional);
    }
    match r.tag() {
        Ok(true) => r.take(n).is_ok(),
        Ok(false) => true,
        Err(_) => false,
    }
}

/// Whether a frame is the layout of a hello whose byte strings are within the longest that
/// the protocol uses. Nothing is allocated for the answer, whatever lengths the frame claims.
pub fn client_hello_lengths_within_bounds(bytes: &[u8]) -> (b: bool)
    ensures
        b == (take_hello(bytes@) matches Ok((v, rest)) && rest.len() == 0 && v.bounded()),
{
    proof {
        reveal(take_halves);
        reveal(take_early);
    }
    let mut r: Reader = Reader::new(bytes);
    if r.take(crate::hybrid::CLASSICAL_PK_BYTES).is_err() || !skip_bounded(&mut r, ML_KEM_PK_MAX) {
        return false;
    }
    if r.take(32).is_err() || !skip_bounded(&mut r, ML_DSA_PK_MAX) {
        return false;
    }
    if r.take(33).is_err() {
        return false;
    }
    if !skip_optional(&mut r, 32) || !skip_optional(&mut r, 40) || !skip_optional(&mut r, 32)
        || !skip_optional(&mut r, 32) {
        return false;
    }
    if !skip_bounded(&mut r, PROTOCOL_VARIANT_MAX) {
        return false;
    }
    match r.tag() {
        Ok(true) => {
            if !skip_bounded(&mut r, EARLY_DATA_MAX_LEN) {
                return false;
            }
        },
        Ok(false) => {},
        Err(_) => {
            return false;
        },
    }
    r.at_end()
}

/// The pre-check accepts exactly the layouts of hellos within the bounds.
pub proof fn law_bounds_check_accepts_bounded_hellos(bytes: Seq<u8>)
    ensures
        (take_hello(bytes) matches Ok((v, rest)) && rest.len() == 0 && v.bounded()) <==> (exists|
            v: HelloView,
        |
            v.wf() && v.bounded() && #[trigger] v.bytes() == bytes),
{
    if take_hello(bytes) matches Ok((v, rest)) && rest.len() == 0 && v.bounded() {
        law_read_hello_was_laid_out(bytes);
        let (v, rest) = take_hello(bytes)->Ok_0;
        assert(v.bytes() + rest =~= v.bytes());
        assert(v.wf() && v.bounded() && v.bytes() == bytes);
    }
    if exists|v: HelloView| v.wf() && v.bounded() && #[trigger] v.bytes() == bytes {
        let v = choose|v: HelloView| v.wf() && v.bounded() && #[trigger] v.bytes() == bytes;
        law_hello_is_read_back(v, Seq::empty());
        assert(v.bytes() + Seq::<u8>::empty() =~= bytes);
    }
}

/// The server's demand for a cookie or for proof of work.
#[derive(Debug, Clone, Copy)]
pub struct HelloRetryRequest {
    pub challenge: Option<PoWChallenge>,
    pub cookie: Option<[u8; 32]>,
}

/// The server's answer to an accepted hello.
#[derive(Debug, Clone)]
pub struct ServerHello {
    pub server_nonce: [u8; 32],
    pub ciphertext: HybridCiphertext,
    pub server_verify_key: HybridVerifyingKey,
    pub signature: HybridSignature,
    pub session_id: [u8; 32],
    pub early_data_accepted: bool,
}

/// The fields of a server's answer.
#[verifier::ext_equal]
pub struct ServerHelloView {
    pub server_nonce: Seq<u8>,
    pub ciphertext: Halves,
    pub key: Halves,
    pub signature: Halves,
    pub session_id: Seq<u8>,
    pub early_data_accepted: bool,
}

impl View for ServerHello {
    type V = ServerHelloView;

    open spec fn view(&self) -> ServerHelloView {
        ServerHelloView {
            server_nonce: self.server_nonce@,
            ciphertext: self.ciphertext@,
            key: self.server_verify_key@,
            signature: self.signature@,
            session_id: self.session_id@,
            early_data_accepted: self.early_data_accepted,
        }
    }
}

/// A server's reply, one of three messages.
#[derive(Debug, Clone)]
pub enum ServerReply {
    Hello(ServerHello),
    Retry(HelloRetryRequest),
    Reject(ServerReject),
}

/// What a reply says.
#[verifier::ext_equal]
pub enum ReplyView {
    Hello(ServerHelloView),
    Retry { challenge: Option<(Seq<u8>, u8)>, cookie: Option<Seq<u8>> },
    Reject { marker: Seq<u8>, code: u8, supported_version: u8 },
}

/// What a demand says.
pub open spec fn retry_view(r: HelloRetryRequest) -> ReplyView {
    ReplyView::Retry {
        challenge: match r.challenge {
            Some(c) => Some((c.nonce@, c.difficulty)),
            None => None,
        },
        cookie: optional_bytes(r.cookie),
    }
}

impl View for ServerReply {
    type V = ReplyView;

    open spec fn view(&self) -> ReplyView {
        match *self {
            ServerReply::Hello(h) => ReplyView::Hello(h@),
            ServerReply::Retry(r) => retry_view(r),
            ServerReply::Reject(r) => ReplyView::Reject {
                marker: r.marker@,
                code: r.code,
                supported_version: r.supported_version,
            },
        }
    }
}

/// A challenge's layout: the nonce and the difficulty.
#[verifier::opaque]
pub open spec fn challenge_bytes(o: Option<(Seq<u8>, u8)>) -> Option<Seq<u8>> {
    match o {
        Some(c) => Some(c.0 + seq![c.1]),
        None => None,
    }
}

/// A challenge of its layout.
#[verifier::opaque]
pub open spec fn challenge_of(o: Option<Seq<u8>>) -> Option<(Seq<u8>, u8)> {
    match o {
        Some(s) => Some((s.take(32), s[32])),
        None => None,
    }
}

impl ReplyView {
    /// Whether the byte strings fit the layout.
    pub open spec fn fits(self) -> bool {
        match self {
            ReplyView::Hello(h) => fits(h.ciphertext.1) && fits(h.key.1) && fits(h.signature.1),
            _ => true,
        }
    }

    /// Whether the fixed fields have their lengths and the others fit the layout.
    pub open spec fn wf(self) -> bool {
        self.fits() && match self {
            ReplyView::Hello(h) => {
                &&& h.server_nonce.len() == 32
                &&& h.ciphertext.0.len() == 32
                &&& h.key.0.len() == 32
                &&& h.signature.0.len() == 64
                &&& h.session_id.len() == 32
            },
            ReplyView::Retry { challenge, cookie } => {
                &&& challenge matches Some(c) ==> c.0.len() == 32
                &&& cookie matches Some(c) ==> c.len() == 32
            },
            ReplyView::Reject { marker, .. } => marker.len() == 4,
        }
    }

    /// The layout of the message.
    pub open spec fn body(self) -> Seq<u8> {
        match self {
            ReplyView::Hello(h) => h.server_nonce + (halves_bytes(h.ciphertext) + (halves_bytes(
                h.key,
            ) + (halves_bytes(h.signature) + (h.session_id + flag_byte(h.early_data_accepted))))),
            ReplyView::Retry { challenge, cookie } => tagged(challenge_bytes(challenge)) + tagged(
                cookie,
            ),
            ReplyView::Reject { marker, code, supported_version } => marker + seq![
                code,
                supported_version,
            ],
        }
    }

    /// The byte that tells the messages apart.
    pub open spec fn kind(self) -> u8 {
        match self {
            ReplyView::Hello(_) => 0,
            ReplyView::Retry { .. } => 1,
            ReplyView::Reject { .. } => 2,
        }
    }

    /// The reply on the wire.
    pub open spec fn wire(self) -> Seq<u8> {
        seq![self.kind()] + self.body()
    }
}

/// A server's answer, and the rest.
pub open spec fn take_server_hello(s: Seq<u8>) -> Result<(ServerHelloView, Seq<u8>), DecodeFault> {
    match take(s, 32) {
        Err(e) => Err(e),
        Ok((server_nonce, s)) => match take_halves(s, 32) {
            Err(e) => Err(e),
            Ok((ciphertext, s)) => match take_halves(s, 32) {
                Err(e) => Err(e),
                Ok((key, s)) => match take_halves(s, 64) {
                    Err(e) => Err(e),
                    Ok((signature, s)) => match take(s, 32) {
                        Err(e) => Err(e),
                        Ok((session_id, s)) => match take_flag(s) {
                            Err(e) => Err(e),
                            Ok((early_data_accepted, s)) => Ok(
                                (
                                    ServerHelloView {
                                        server_nonce,
                                        ciphertext,
                                        key,
                                        signature,
                                        session_id,
                                        early_data_accepted,
                                    },
                                    s,
                                ),
                            ),
                        },
                    },
                },
            },
        },
    }
}

/// A message body of the given kind, and the rest.
pub open spec fn take_body(kind: u8, s: Seq<u8>) -> Result<(ReplyView, Seq<u8>), DecodeFault> {
    if kind == 0 {
        match take_server_hello(s) {
            Ok((h, s)) => Ok((ReplyView::Hello(h), s)),
            Err(e) => Err(e),
        }
    } else if kind == 1 {
        match take_optional(s, 33) {
            Err(e) => Err(e),
            Ok((challenge, s)) => match take_optional(s, 32) {
                Err(e) => Err(e),
                Ok((cookie, s)) => Ok(
                    (ReplyView::Retry { challenge: challenge_of(challenge), cookie }, s),
                ),
            },
        }
    } else {
        match take(s, 6) {
            Err(e) => Err(e),
            Ok((b, s)) => Ok(
                (
                    ReplyView::Reject { marker: b.take(4), code: b[4], supported_version: b[5] },
                    s,
                ),
            ),
        }
    }
}

/// The reply that a frame holds, or the text of what is wrong with it.
pub open spec fn parse_reply(s: Seq<u8>) -> Result<ReplyView, Seq<char>> {
    if s.len() == 0 {
        Err("empty server reply"@)
    } else if s[0] > 2 {
        Err("unknown server-reply discriminant "@ + decimal(s[0] as nat))
    } else {
        match take_body(s[0], s.skip(1)) {
            Err(e) => Err(e.spec_text()),
            Ok((v, rest)) => if rest.len() == 0 {
                Ok(v)
            } else {
                Err(DecodeFault::NotAllBytesRead.spec_text())
            },
        }
    }
}

proof fn lemma_challenge_round_trip(c: Option<(Seq<u8>, u8)>)
    requires
        c matches Some(x) ==> x.0.len() == 32,
    ensures
        challenge_of(challenge_bytes(c)) == c,
        challenge_bytes(c) matches Some(s) ==> s.len() == 33,
{
    reveal(challenge_of);
    reveal(challenge_bytes);
    if let Some(x) = c {
        assert((x.0 + seq![x.1]).take(32) =~= x.0);
    }
}

proof fn lemma_server_hello_is_read_back(h: ServerHelloView)
    requires
        ReplyView::Hello(h).wf(),
    ensures
        take_server_hello(ReplyView::Hello(h).body()) == Ok::<_, DecodeFault>((h, Seq::<u8>::empty())),
{
    let e = Seq::<u8>::empty();
    let s5 = flag_byte(h.early_data_accepted);
    let s4 = h.session_id + s5;
    let s3 = halves_bytes(h.signature) + s4;
    let s2 = halves_bytes(h.key) + s3;
    let s1 = halves_bytes(h.ciphertext) + s2;
    lemma_take(h.server_nonce, s1);
    lemma_take_halves(h.ciphertext, s2);
    lemma_take_halves(h.key, s3);
    lemma_take_halves(h.signature, s4);
    lemma_take(h.session_id, s5);
    lemma_take_flag(h.early_data_accepted, e);
    assert(s5 + e =~= s5);
}

/// A reply is read back from the wire.
pub proof fn law_reply_is_read_back(v: ReplyView)
    requires
        v.wf(),
    ensures
        parse_reply(v.wire()) == Ok::<_, Seq<char>>(v),
{
    let e = Seq::<u8>::empty();
    let body = v.body();
    assert(v.wire().skip(1) =~= body);
    assert(v.wire()[0] == v.kind());
    match v {
        ReplyView::Hello(h) => {
            lemma_server_hello_is_read_back(h);
        },
        ReplyView::Retry { challenge, cookie } => {
            lemma_challenge_round_trip(challenge);
            lemma_take_optional(challenge_bytes(challenge), 33, tagged(cookie));
            lemma_take_optional(cookie, 32, e);
            assert(tagged(cookie) + e =~= tagged(cookie));
        },
        ReplyView::Reject { marker, code, supported_version } => {
            lemma_take(body, e);
            assert(body + e =~= body);
            assert(body.take(4) =~= marker);
        },
    }
}

/// A serialization error with this text.
pub open spec fn serialization_error(e: HandshakeError, text: Seq<char>) -> bool {
    e matches HandshakeError::SerializationError(m) && m@ == text
}

fn fault(e: DecodeFault) -> (r: HandshakeError)
    ensures
        serialization_error(r, e.spec_text()),
{
    HandshakeError::SerializationError(e.to_text())
}

fn read_server_hello(r: &mut Reader) -> (h: Result<ServerHello, DecodeFault>)
    ensures
        match take_server_hello(old(r)@) {
            Ok((v, rest)) => (h matches Ok(got) && got@ == v) && final(r)@ == rest,
            Err(e) => h matches Err(got) && got == e,
        },
{
    let server_nonce: [u8; 32] = match r.array::<32>() {
        Ok(a) => a,
        Err(e) => {
            return Err(e);
        },
    };
    let ciphertext: HybridCiphertext = match read_halves::<32>(r) {
        Ok((classical_pk, ml_kem_ct)) => HybridCiphertext { classical_pk, ml_kem_ct },
        Err(e) => {
            return Err(e);
        },
    };
    let server_verify_key: HybridVerifyingKey = match read_halves::<32>(r) {
        Ok((ed25519_pk, ml_dsa_pk)) => HybridVerifyingKey { ed25519_pk, ml_dsa_pk },
        Err(e) => {
            return Err(e);
        },
    };
    let signature: HybridSignature = match read_halves::<64>(r) {
        Ok((ed25519_sig, ml_dsa_sig)) => HybridSignature { ed25519_sig, ml_dsa_sig },
        Err(e) => {
            return Err(e);
        },
    };
    let session_id: [u8; 32] = match r.array::<32>() {
        Ok(a) => a,
        Err(e) => {
            return Err(e);
        },
    };
    let early_data_accepted: bool = match r.flag() {
        Ok(b) => b,
        Err(e) => {
            return Err(e);
        },
    };
    Ok(
        ServerHello {
            server_nonce,
            ciphertext,
            server_verify_key,
            signature,
            session_id,
            early_data_accepted,
        },
    )
}

fn read_retry(r: &mut Reader) -> (h: Result<HelloRetryRequest, DecodeFault>)
    ensures
        match take_body(1, old(r)@) {
            Ok((v, rest)) => (h matches Ok(got) && retry_view(got) == v) && final(r)@ == rest,
            Err(e) => h matches Err(got) && got == e,
        },
{
    proof {
        reveal(take_optional);
        reveal(challenge_of);
    }
    let challenge: Option<PoWChallenge> = match r.tag() {
        Ok(true) => match r.array::<33>() {
            Ok(b) => {
                let nonce: [u8; 32] = crate::wire::to_array::<32>(
                    vstd::slice::slice_subrange(b.as_slice(), 0, 32),
                );
                assert(nonce@ =~= b@.take(32));
                Some(PoWChallenge { nonce, difficulty: b[32] })
            },
            Err(e) => {
                return Err(e);
            },
        },
        Ok(false) => None,
        Err(e) => {
            return Err(e);
        },
    };
    match r.optional() {
        Ok(cookie) => Ok(HelloRetryRequest { challenge, cookie }),
        Err(e) => Err(e),
    }
}

fn read_reject(r: &mut Reader) -> (h: Result<ServerReject, DecodeFault>)
    ensures
        match take_body(2, old(r)@) {
            Ok((v, rest)) => (h matches Ok(got) && v == (ReplyView::Reject {
                marker: got.marker@,
                code: got.code,
                supported_version: got.supported_version,
            })) && final(r)@ == rest,
            Err(e) => h matches Err(got) && got == e,
        },
{
    match r.array::<6>() {
        Ok(b) => {
            let marker: [u8; 4] = crate::wire::to_array::<4>(
                vstd::slice::slice_subrange(b.as_slice(), 0, 4),
            );
            assert(marker@ =~= b@.take(4));
            Ok(ServerReject { marker, code: b[4], supported_version: b[5] })
        },
        Err(e) => Err(e),
    }
}

proof fn lemma_hello_pieces(h: ServerHelloView, out: Seq<u8>)
    requires
        out == ((((((Seq::<u8>::empty().push(0u8) + h.server_nonce) + halves_bytes(h.ciphertext))
            + halves_bytes(h.key)) + halves_bytes(h.signature)) + h.session_id) + flag_byte(
            h.early_data_accepted,
        )),
    ensures
        out == ReplyView::Hello(h).wire(),
{
    let p0 = seq![0u8];
    assert(Seq::<u8>::empty().push(0u8) =~= p0);
    let p1 = p0 + h.server_nonce;
    let p2 = p1 + halves_bytes(h.ciphertext);
    let p3 = p2 + halves_bytes(h.key);
    let p4 = p3 + halves_bytes(h.signature);
    let f = flag_byte(h.early_data_accepted);
    let t4 = h.session_id + f;
    let t3 = halves_bytes(h.signature) + t4;
    let t2 = halves_bytes(h.key) + t3;
    let t1 = halves_bytes(h.ciphertext) + t2;
    lemma_regroup(p4, h.session_id, f);
    lemma_regroup(p3, halves_bytes(h.signature), t4);
    lemma_regroup(p2, halves_bytes(h.key), t3);
    lemma_regroup(p1, halves_bytes(h.ciphertext), t2);
    lemma_regroup(p0, h.server_nonce, t1);
}

impl ServerReply {
    /// The reply on the wire. Fails when a byte string is too long for the layout.
    pub fn to_wire(&self) -> (r: Result<Vec<u8>, HandshakeError>)
        ensures
            self@.fits() ==> (r matches Ok(b) && b@ == self@.wire()),
            !self@.fits() ==> (r matches Err(e) && serialization_error(e, "invalid data"@)),
    {
        let mut out: Vec<u8> = Vec::new();
        match self {
            ServerReply::Hello(h) => {
                if h.ciphertext.ml_kem_ct.len() > 0xffff_ffff || h.server_verify_key.ml_dsa_pk.len()
                    > 0xffff_ffff || h.signature.ml_dsa_sig.len() > 0xffff_ffff {
                    return Err(HandshakeError::SerializationError("invalid data".to_owned()));
                }
                out.push(0u8);
                append(&mut out, h.server_nonce.as_slice());
                push_halves(
                    &mut out,
                    h.ciphertext.classical_pk.as_slice(),
                    h.ciphertext.ml_kem_ct.as_slice(),
                );
                push_halves(
                    &mut out,
                    h.server_verify_key.ed25519_pk.as_slice(),
                    h.server_verify_key.ml_dsa_pk.as_slice(),
                );
                push_halves(
                    &mut out,
                    h.signature.ed25519_sig.as_slice(),
                    h.signature.ml_dsa_sig.as_slice(),
                );
                append(&mut out, h.session_id.as_slice());
                push_flag(&mut out, h.early_data_accepted);
                proof {
                    lemma_hello_pieces(h@, out@);
                }
            },
            ServerReply::Retry(r) => {
                proof {
                    reveal(tagged);
                    reveal(challenge_bytes);
                }
                out.push(1u8);
                match &r.challenge {
                    Some(c) => {
                        out.push(1u8);
                        append(&mut out, c.nonce.as_slice());
                        out.push(c.difficulty);
                    },
                    None => {
                        out.push(0u8);
                    },
                }
                push_optional(&mut out, &r.cookie);
                assert(out@ =~= self@.wire());
            },
            ServerReply::Reject(r) => {
                out.push(2u8);
                append(&mut out, r.marker.as_slice());
                out.push(r.code);
                out.push(r.supported_version);
                assert(out@ =~= self@.wire());
            },
        }
        Ok(out)
    }

    /// Read a reply. The first byte says which message follows; an empty frame, another
    /// first byte and bytes behind the message are errors.
    pub fn from_wire(bytes: &[u8]) -> (r: Result<Self, HandshakeError>)
        ensures
            match parse_reply(bytes@) {
                Ok(v) => r matches Ok(reply) && reply@ == v,
                Err(text) => r matches Err(e) && serialization_error(e, text),
            },
    {
        if bytes.len() == 0 {
            return Err(HandshakeError::SerializationError("empty server reply".to_owned()));
        }
        let kind: u8 = bytes[0];
        let body: &[u8] = vstd::slice::slice_subrange(bytes, 1, bytes.len());
        assert(body@ =~= bytes@.skip(1));
        let mut r: Reader = Reader::new(body);
        let reply: ServerReply = if kind == 0 {
            match read_server_hello(&mut r) {
                Ok(h) => ServerReply::Hello(h),
                Err(e) => {
                    return Err(fault(e));
                },
            }
        } else if kind == 1 {
            match read_retry(&mut r) {
                Ok(h) => ServerReply::Retry(h),
                Err(e) => {
                    return Err(fault(e));
                },
            }
        } else if kind == 2 {
            match read_reject(&mut r) {
                Ok(h) => ServerReply::Reject(h),
                Err(e) => {
                    return Err(fault(e));
                },
            }
        } else {
            let mut s: String = "unknown server-reply discriminant ".to_owned();
            push_decimal(&mut s, kind as u64);
            return Err(HandshakeError::SerializationError(s));
        };
        if !r.at_end() {
            return Err(fault(DecodeFault::NotAllBytesRead));
        }
        Ok(reply)
    }
}

/// The constants of the protocol: the variant `phantom-default-1`, the marker `PRJ1` of a refusal, and
/// the lengths that a hello is held to before anything is allocated for it, 1184 and 1952 bytes for the
/// post-quantum keys, 64 for the variant and 16 KiB for early data.
pub proof fn law_protocol_constants(v: HelloView)
    ensures
        variant_tag() == "phantom-default-1"@.map_values(|c: char| c as u8),
        reject_marker() == "PRJ1"@.map_values(|c: char| c as u8),
        v.bounded() <==> v.kem.1.len() <= 1184 && v.key.1.len() <= 1952 && v.variant.len() <= 64 && (
        v.early is Some ==> v.early->0.len() <= 16_384),
        v.fits() <==> v.kem.1.len() < 4294967296 && v.key.1.len() < 4294967296 && v.variant.len()
            < 4294967296 && (v.early is Some ==> v.early->0.len() < 4294967296),
{
    reveal_strlit("phantom-default-1");
    reveal_strlit("PRJ1");
    assert(variant_tag() =~= "phantom-default-1"@.map_values(|c: char| c as u8));
    assert(reject_marker() =~= "PRJ1"@.map_values(|c: char| c as u8));
}

/// How the replies are told apart on the wire, and what is refused: the first byte is 0 for an answer, 1
/// for a demand and 2 for a refusal; no other byte is read, nor an empty reply, nor one with bytes left
/// over.
pub proof fn law_replies_are_told_apart(v: ReplyView, s: Seq<u8>)
    ensures
        v.wire().len() > 0,
        v is Hello ==> v.wire()[0] == 0,
        v is Retry ==> v.wire()[0] == 1,
        v is Reject ==> v.wire()[0] == 2,
        s.len() == 0 ==> parse_reply(s) is Err,
        s.len() > 0 && s[0] > 2 ==> parse_reply(s) is Err,
        parse_reply(s) is Ok ==> s.len() > 0 && s[0] <= 2,
        parse_reply(s) is Ok && s[0] == 0 ==> parse_reply(s)->Ok_0 is Hello,
        parse_reply(s) is Ok && s[0] == 1 ==> parse_reply(s)->Ok_0 is Retry,
        parse_reply(s) is Ok && s[0] == 2 ==> parse_reply(s)->Ok_0 is Reject && s.len() == 7,
{
    if s.len() > 0 && s[0] == 2 {
        reveal(take);
    }
}

/// A byte string behind its length, least significant byte first.
pub open spec fn behind_its_length(v: Seq<u8>) -> Seq<u8> {
    crate::wire::le32(v.len() as int) + v
}

/// A value behind a one, or a zero in place of one.
pub open spec fn behind_its_tag(o: Option<Seq<u8>>) -> Seq<u8> {
    match o {
        Some(v) => seq![1u8] + v,
        None => seq![0u8],
    }
}

/// The order of the fields of a hello: the keys for the exchange and for signatures, each with its post-quantum half
/// behind its length; the nonce, the version, the cookie, the proof of work with its nonce and its number, the
/// session to be resumed, the binder, the variant, and the early data.
pub proof fn law_order_of_a_hello(v: HelloView)
    ensures
        v.bytes() == (v.kem.0 + behind_its_length(v.kem.1)) + ((v.key.0 + behind_its_length(v.key.1))
            + ((v.nonce + seq![v.version]) + (behind_its_tag(v.cookie) + (behind_its_tag(
            match v.pow {
                Some(p) => Some(p.0 + le64(p.1 as int)),
                None => None,
            },
        ) + (behind_its_tag(v.resume) + (behind_its_tag(v.binder) + (behind_its_length(v.variant)
            + behind_its_tag(
            match v.early {
                Some(e) => Some(behind_its_length(e)),
                None => None,
            },
        )))))))),
{
    reveal(halves_bytes);
    reveal(prefixed);
    reveal(tagged);
    reveal(pow_bytes);
    reveal(early_bytes);
}

/// The order of the fields of a reply. An answer: the nonce, the ciphertext, the key and the signature, each with
/// its post-quantum half behind its length, the session, and whether early data was accepted. A demand: the nonce
/// and the difficulty of the work, and the cookie. A refusal: the marker, the code and the version.
pub proof fn law_order_of_a_reply(v: ReplyView)
    ensures
        match v {
            ReplyView::Hello(h) => v.wire() == seq![0u8] + (h.server_nonce + ((h.ciphertext.0
                + behind_its_length(h.ciphertext.1)) + ((h.key.0 + behind_its_length(h.key.1)) + ((
            h.signature.0 + behind_its_length(h.signature.1)) + (h.session_id + seq![
                if h.early_data_accepted {
                    1u8
                } else {
                    0u8
                },
            ]))))),
            ReplyView::Retry { challenge, cookie } => v.wire() == seq![1u8] + (behind_its_tag(
                match challenge {
                    Some(c) => Some(c.0 + seq![c.1]),
                    None => None,
                },
            ) + behind_its_tag(cookie)),
            ReplyView::Reject { marker, code, supported_version } => v.wire() == seq![2u8] + (marker
                + seq![code, supported_version]),
        },
{
    reveal(halves_bytes);
    reveal(prefixed);
    reveal(tagged);
    reveal(challenge_bytes);
    reveal(flag_byte);
}

} // verus!
