//! The handshake, with stand-ins for the key exchange, the signatures and the seals.

use phantom_transport::errors::CoreError;
use phantom_transport::handshake::client::{server_hello_transcript_hash, HandshakeClient};
use phantom_transport::handshake::cookie::{generate_cookie, validate_cookie};
use phantom_transport::handshake::error::HandshakeError;
use phantom_transport::handshake::messages::{
    client_hello_fits, client_hello_lengths_within_bounds, protocol_variant, push_client_hello,
    server_reject_marker, ClientHello, HandshakeStage, HelloRetryRequest, ServerHello,
    ServerReject, ServerReply, EARLY_DATA_MAX_LEN, PROTOCOL_VERSION, REJECT_UNSUPPORTED_VERSION,
};
use phantom_transport::handshake::resumption::{
    derive_resumption_binder, derive_resumption_secret, derive_session_id, EarlyDataJob,
};
use phantom_transport::handshake::server::{
    HandshakeResponse, HandshakeServer, HelloStep, NoSharedStore, Now, PowAnswer, PowJob, SignStep,
    UdpAdmit, ZeroRttAntiReplay,
};
use phantom_transport::handshake::transcript::compute_transcript_hash;
use phantom_transport::hybrid::{
    HybridCiphertext, HybridKeyPackage, HybridSignature, HybridVerifyingKey, PoWChallenge,
    PoWSolution, CLASSICAL_PK_BYTES,
};
use phantom_transport::session::Session;
use phantom_transport::types::ClientIp;
use sha2::{Digest, Sha256};

fn digest(parts: &[&[u8]]) -> [u8; 32] {
    let mut h = Sha256::new();
    for p in parts {
        h.update(p);
    }
    h.finalize().into()
}

fn ip(a: u8, b: u8, c: u8, d: u8) -> ClientIp {
    ClientIp {
        is_v6: false,
        bits: u32::from_be_bytes([a, b, c, d]) as u128,
        text: format!("{a}.{b}.{c}.{d}").into_bytes(),
    }
}

fn local() -> ClientIp {
    ip(127, 0, 0, 1)
}

const NOW: Now = Now {
    unix_secs: Some(1_750_000_000),
    mono_ms: 10_000,
};

fn client_keys() -> (HybridKeyPackage, HybridVerifyingKey) {
    (
        HybridKeyPackage {
            classical_pk: [0x11; 32],
            ml_kem_pk: vec![0x22; 1184],
        },
        HybridVerifyingKey {
            ed25519_pk: [0x33; 32],
            ml_dsa_pk: vec![0x44; 1952],
        },
    )
}

fn server_key() -> HybridVerifyingKey {
    HybridVerifyingKey {
        ed25519_pk: [0x55; 32],
        ml_dsa_pk: vec![0x66; 1952],
    }
}

fn new_client() -> HandshakeClient {
    let (kem, key) = client_keys();
    HandshakeClient::new(kem, key).expect("random bytes")
}

fn new_server() -> HandshakeServer {
    HandshakeServer::new(server_key(), NOW).expect("random bytes")
}

fn encapsulate(hello: &ClientHello) -> ([u8; 32], HybridCiphertext) {
    let secret = digest(&[b"secret", &hello.nonce]);
    let mut masked = secret;
    for (m, k) in masked.iter_mut().zip(hello.client_key_package.classical_pk) {
        *m ^= k;
    }
    (
        secret,
        HybridCiphertext {
            classical_pk: masked,
            ml_kem_ct: vec![0x77; 1088],
        },
    )
}

fn decapsulate(ct: &HybridCiphertext) -> [u8; 32] {
    let mut secret = ct.classical_pk;
    for (m, k) in secret.iter_mut().zip(client_keys().0.classical_pk) {
        *m ^= k;
    }
    secret
}

fn sign(key: &HybridVerifyingKey, hash: &[u8; 32]) -> HybridSignature {
    let mut sig = [0u8; 64];
    sig[..32].copy_from_slice(&digest(&[&key.ed25519_pk, hash]));
    HybridSignature {
        ed25519_sig: sig,
        ml_dsa_sig: vec![0x88; 3309],
    }
}

fn verify(sh: &ServerHello, hash: &[u8; 32]) -> Result<(), String> {
    if sh.signature == sign(&sh.server_verify_key, hash) {
        Ok(())
    } else {
        Err("bad signature".to_string())
    }
}

fn seal_early(job: &EarlyDataJob) -> Vec<u8> {
    let mut out: Vec<u8> = job.text.iter().map(|b| b ^ 0x5a).collect();
    out.extend_from_slice(&digest(&[&job.secret, &job.client_nonce, &job.aad, &job.text])[..16]);
    out
}

fn open_early(job: &EarlyDataJob) -> Option<Vec<u8>> {
    let n = job.text.len().checked_sub(16)?;
    let plain: Vec<u8> = job.text[..n].iter().map(|b| b ^ 0x5a).collect();
    let tag = digest(&[&job.secret, &job.client_nonce, &job.aad, &plain]);
    if job.text[n..] == tag[..16] {
        Some(plain)
    } else {
        None
    }
}

fn process<S: ZeroRttAntiReplay>(
    server: &mut HandshakeServer<S>,
    hello: &ClientHello,
    difficulty: u8,
    ip: &ClientIp,
) -> HandshakeResponse {
    let pow = match server.pow_job(hello, difficulty, ip, &NOW) {
        Ok(PowJob::NotNeeded) => PowAnswer::Nothing,
        Ok(PowJob::Verify {
            solution, address, ..
        }) => {
            assert_eq!(address, ip.text);
            PowAnswer::Verified(vec![solution.solution == 7])
        }
        Ok(PowJob::Issue {
            difficulty,
            address,
            secret,
        }) => PowAnswer::Issued(PoWChallenge {
            nonce: digest(&[&secret, &address]),
            difficulty,
        }),
        Err(_) => PowAnswer::Nothing,
    };
    let admitted = match server.process_client_hello(hello, difficulty, ip, &NOW, &pow) {
        HelloStep::Answer(r) => return r,
        HelloStep::Admitted(a) => a,
    };
    let opened = admitted.early_data.as_ref().and_then(open_early);
    let kem = Ok(encapsulate(hello));
    let unsigned = match server.answer_hello(hello, admitted, opened, kem) {
        SignStep::Answer(r) => return r,
        SignStep::Sign(u) => u,
    };
    let signature = sign(server.verifying_key(), &unsigned.transcript_hash);
    server.finish_hello(unsigned, signature, Ok(()), &NOW)
}

fn finish(
    client: &mut HandshakeClient,
    hello: &ClientHello,
    sh: &ServerHello,
    expected: Option<&HybridVerifyingKey>,
) -> Result<(Session, Option<bool>), HandshakeError> {
    let hash = server_hello_transcript_hash(hello, sh).expect("transcript");
    let verified = verify(sh, &hash);
    let secret = Ok(decapsulate(&sh.ciphertext));
    client.process_server_hello(hello, sh, expected, verified, secret, Ok(()))
}

fn cookie_of(r: HandshakeResponse) -> [u8; 32] {
    match r {
        HandshakeResponse::Retry(r) => r.cookie.expect("cookie"),
        other => panic!("expected retry, got {other:?}"),
    }
}

fn success(r: HandshakeResponse) -> (ServerHello, Session, Option<Vec<u8>>) {
    match r {
        HandshakeResponse::Success(h, s, e) => (h, s, e),
        other => panic!("expected success, got {other:?}"),
    }
}

fn hello_with_cookie(server: &mut HandshakeServer, client: &HandshakeClient) -> ClientHello {
    let mut hello = client.create_client_hello();
    hello.cookie = Some(cookie_of(process(server, &hello, 0, &local())));
    hello
}

fn first_handshake_for_hint(server: &mut HandshakeServer) -> ([u8; 32], [u8; 32]) {
    let client = new_client();
    let hello = hello_with_cookie(server, &client);
    let (_, session, _) = success(process(server, &hello, 0, &local()));
    session.resumption_hint().expect("hint")
}

#[test]
fn protocol_variant_mismatch_rejected() {
    let mut server = new_server();
    let client = new_client();
    let mut hello = client.create_client_hello();
    hello.protocol_variant = b"phantom-some-other-mode-1".to_vec();
    match process(&mut server, &hello, 0, &local()) {
        HandshakeResponse::Fail(HandshakeError::ProtocolVariantMismatch { expected, received }) => {
            assert_eq!(expected, protocol_variant());
            assert_eq!(received, b"phantom-some-other-mode-1");
        }
        other => panic!("expected ProtocolVariantMismatch, got {other:?}"),
    }
}

#[test]
fn unsupported_version_yields_typed_reject() {
    let mut server = new_server();
    let client = new_client();
    let mut hello = client.create_client_hello();
    hello.version = PROTOCOL_VERSION.wrapping_add(7);
    match process(&mut server, &hello, 0, &local()) {
        HandshakeResponse::Reject(reject) => {
            assert!(reject.has_marker(), "reject must carry the marker");
            assert_eq!(reject.code, REJECT_UNSUPPORTED_VERSION);
            assert_eq!(reject.supported_version, PROTOCOL_VERSION);
        }
        other => panic!("expected Reject, got {other:?}"),
    }
}

#[test]
fn server_reply_discriminant_dispatches_explicitly() {
    let reject = ServerReject::unsupported_version();
    let wire = ServerReply::Reject(reject.clone())
        .to_wire()
        .expect("frame reject");
    assert_eq!(wire[0], 2, "reject discriminant byte");
    assert!(matches!(
        ServerReply::from_wire(&wire),
        Ok(ServerReply::Reject(r)) if r == reject
    ));

    let hrr = HelloRetryRequest {
        challenge: None,
        cookie: Some([7u8; 32]),
    };
    let wire = ServerReply::Retry(hrr.clone())
        .to_wire()
        .expect("frame retry");
    assert_eq!(wire[0], 1, "retry discriminant byte");
    assert!(matches!(
        ServerReply::from_wire(&wire),
        Ok(ServerReply::Retry(r)) if r.cookie == hrr.cookie && r.challenge.is_none()
    ));

    assert!(
        ServerReply::from_wire(&[0xFF, 0x00]).is_err(),
        "unknown kind rejected"
    );
    assert!(ServerReply::from_wire(&[]).is_err(), "empty reply rejected");
}

#[test]
fn server_reject_roundtrips_and_is_shape_distinct() {
    let reject = ServerReject::unsupported_version();
    let bytes = ServerReply::Reject(reject).to_wire().expect("encode reject");
    match ServerReply::from_wire(&bytes) {
        Ok(ServerReply::Reject(decoded)) => {
            assert_eq!(decoded, reject);
            assert!(decoded.has_marker());
        }
        _ => panic!("a reject"),
    }
    assert_eq!(
        bytes[1..].to_vec(),
        borsh::to_vec(&(reject.marker, reject.code, reject.supported_version)).expect("encode")
    );

    let hrr = HelloRetryRequest {
        challenge: None,
        cookie: None,
    };
    let mut hrr_bytes = ServerReply::Retry(hrr).to_wire().expect("encode hrr");
    hrr_bytes[0] = 2;
    assert!(
        ServerReply::from_wire(&hrr_bytes).is_err(),
        "a HelloRetryRequest must not parse as a ServerReject"
    );
    let mut forged = bytes.clone();
    forged[0] = 1;
    assert!(
        ServerReply::from_wire(&forged).is_err(),
        "a ServerReject must not parse as a HelloRetryRequest"
    );
    assert_eq!(server_reject_marker(), reject.marker);
}

#[test]
fn handshake_succeeds_with_matching_protocol_variant() {
    let mut server = new_server();
    let client = new_client();
    let hello = client.create_client_hello();
    assert_eq!(hello.protocol_variant, protocol_variant());
    let cookie = cookie_of(process(&mut server, &hello, 0, &local()));
    let mut hello_retry = hello.clone();
    hello_retry.cookie = Some(cookie);
    success(process(&mut server, &hello_retry, 0, &local()));
}

#[test]
fn server_nonce_is_transcript_bound() {
    let mut server = new_server();
    let mut client = new_client();
    let hello_retry = hello_with_cookie(&mut server, &client);
    let (server_hello, _, _) = success(process(&mut server, &hello_retry, 0, &local()));
    let key = server.verifying_key().clone();

    assert!(
        finish(&mut client, &hello_retry, &server_hello, Some(&key)).is_ok(),
        "untampered server_nonce must verify"
    );

    let mut tampered = server_hello.clone();
    tampered.server_nonce[0] ^= 0xFF;
    assert!(
        finish(&mut client, &hello_retry, &tampered, Some(&key)).is_err(),
        "a flipped server_nonce byte must fail the transcript-signature check"
    );
}

#[test]
fn test_unified_handshake() {
    let mut server = new_server();
    let mut client = new_client();
    let hello = client.create_client_hello();
    let cookie = cookie_of(process(&mut server, &hello, 0, &local()));
    let mut hello_retry = hello.clone();
    hello_retry.cookie = Some(cookie);
    let (server_hello, server_session, _) =
        success(process(&mut server, &hello_retry, 0, &local()));
    let key = server.verifying_key().clone();
    let (client_session, _) =
        finish(&mut client, &hello_retry, &server_hello, Some(&key)).expect("client finishes");
    assert_eq!(client.stage(), HandshakeStage::Established);
    assert_eq!(client_session.traffic_secret, server_session.traffic_secret);
    assert_eq!(client_session.id, server_session.id);
}

#[test]
fn first_handshake_caches_ticket_and_exposes_hint() {
    let mut server = new_server();
    let mut client = new_client();
    let hello_retry = hello_with_cookie(&mut server, &client);
    let (server_hello, server_session, _) =
        success(process(&mut server, &hello_retry, 0, &local()));
    let key = server.verifying_key().clone();
    let (client_session, _) =
        finish(&mut client, &hello_retry, &server_hello, Some(&key)).expect("client finishes");

    assert_eq!(server.session_cache_len(), 1);
    let s_hint = server_session.resumption_hint().expect("server hint");
    let c_hint = client_session.resumption_hint().expect("client hint");
    assert_eq!(s_hint.0, c_hint.0, "session id matches across sides");
    assert_eq!(s_hint.1, c_hint.1, "resumption secret matches");
}

#[test]
fn cached_resume_session_id_skips_cookie_and_pow() {
    let mut server = new_server();
    let (resume_id, resume_secret) = first_handshake_for_hint(&mut server);
    let second = new_client();
    let resume_hello = second.create_client_hello_with_resume(resume_id, &resume_secret, None);
    success(process(&mut server, &resume_hello, 0, &local()));
    let again = process(&mut server, &resume_hello, 0, &local());
    assert!(
        matches!(again, HandshakeResponse::Retry(_)),
        "a ticket is used once"
    );
}

#[test]
fn unknown_resume_session_id_does_not_bypass_cookie() {
    let mut server = new_server();
    let client = new_client();
    let bogus_id = [0xFFu8; 32];
    let hello = client.create_client_hello_with_resume(bogus_id, &[0u8; 32], None);
    assert!(matches!(
        process(&mut server, &hello, 0, &local()),
        HandshakeResponse::Retry(_)
    ));
}

#[test]
fn early_data_round_trip() {
    let mut server = new_server();
    server.set_early_data_enabled(true);
    let (resume_id, resume_secret) = first_handshake_for_hint(&mut server);
    let mut client = new_client();
    let early_payload = b"zero-rtt application bytes";
    let job = client.early_data_to_seal(&resume_id, &resume_secret, early_payload);
    let hello =
        client.create_client_hello_with_resume(resume_id, &resume_secret, Some(seal_early(&job)));

    let (sh, _session, early_data) = success(process(&mut server, &hello, 0, &local()));
    assert!(sh.early_data_accepted, "server accepted the early-data");
    assert_eq!(
        early_data.as_deref(),
        Some(&early_payload[..]),
        "server decrypted the exact payload the client sealed"
    );
    let key = server.verifying_key().clone();
    let (_session, accepted) =
        finish(&mut client, &hello, &sh, Some(&key)).expect("client verifies the ServerHello");
    assert_eq!(accepted, Some(true), "client sees early-data accepted");
}

#[test]
fn oversized_early_data_rejected_but_handshake_succeeds() {
    let mut server = new_server();
    server.set_early_data_enabled(true);
    let (resume_id, resume_secret) = first_handshake_for_hint(&mut server);
    let huge = vec![0u8; EARLY_DATA_MAX_LEN + 1];
    let client = new_client();
    let job = client.early_data_to_seal(&resume_id, &resume_secret, &huge);
    let hello =
        client.create_client_hello_with_resume(resume_id, &resume_secret, Some(seal_early(&job)));
    let (sh, _session, early_data) = success(process(&mut server, &hello, 0, &local()));
    assert!(!sh.early_data_accepted, "oversized blob rejected");
    assert!(early_data.is_none(), "no plaintext surfaces");
}

#[test]
fn corrupted_early_data_rejected_but_handshake_succeeds() {
    let mut server = new_server();
    server.set_early_data_enabled(true);
    let (resume_id, resume_secret) = first_handshake_for_hint(&mut server);
    let client = new_client();
    let mut hello = client.create_client_hello_with_resume(resume_id, &resume_secret, None);
    hello.early_data = Some(vec![0xFFu8; 128]);
    let (sh, _session, early_data) = success(process(&mut server, &hello, 0, &local()));
    assert!(!sh.early_data_accepted, "AEAD failure leads to rejection");
    assert!(early_data.is_none());
}

#[test]
fn unknown_ticket_with_early_data_falls_back_to_cookie_retry() {
    let mut server = new_server();
    let client = new_client();
    let job = client.early_data_to_seal(&[0xAB; 32], &[0xCD; 32], b"hi");
    let hello =
        client.create_client_hello_with_resume([0xAB; 32], &[0xCD; 32], Some(seal_early(&job)));
    assert!(
        matches!(
            process(&mut server, &hello, 0, &local()),
            HandshakeResponse::Retry(_)
        ),
        "unknown ticket has no bypass"
    );
}

#[test]
fn reputation_wiring_escalates_and_resets_per_ip() {
    let mut server = new_server();
    let ip = ip(203, 0, 113, 7);
    assert_eq!(
        server.reputation_difficulty(&ip, false, &NOW),
        0,
        "clean IP adds nothing"
    );
    assert_eq!(
        server.reputation_difficulty(&ip, true, &NOW),
        0,
        "ticket holder skips PoW"
    );
    server.record_violation(&ip, &NOW);
    let d1 = server.reputation_difficulty(&ip, false, &NOW);
    assert!(
        d1 >= 8,
        "a violation escalates the per-IP difficulty, got {d1}"
    );
    server.record_violation(&ip, &NOW);
    assert!(
        server.reputation_difficulty(&ip, false, &NOW) >= d1,
        "more violations escalate further"
    );
    server.reset_violations(&ip);
    assert_eq!(
        server.reputation_difficulty(&ip, false, &NOW),
        0,
        "reset clears it"
    );
}

#[test]
fn client_hello_length_validator_rejects_a_forged_vector_length() {
    let hello = new_client().create_client_hello();
    assert!(client_hello_fits(&hello));
    let mut bytes = Vec::new();
    push_client_hello(&mut bytes, &hello);
    assert!(
        client_hello_lengths_within_bounds(&bytes),
        "a real ClientHello must pass the structural length pre-check"
    );

    let mut forged = bytes.clone();
    let off = CLASSICAL_PK_BYTES;
    forged[off..off + 4].copy_from_slice(&u32::MAX.to_le_bytes());
    assert!(
        !client_hello_lengths_within_bounds(&forged),
        "a forged ml_kem_pk length must be rejected"
    );

    assert!(!client_hello_lengths_within_bounds(b"not-a-clienthello"));
    assert!(!client_hello_lengths_within_bounds(&[]));
}

#[test]
fn has_valid_resume_requires_a_real_ticket_and_binder() {
    let mut server = new_server();
    let mut client = new_client();
    let ip = ip(203, 0, 113, 7);
    let mut effective = client.create_client_hello();
    effective.cookie = Some(cookie_of(process(&mut server, &effective, 0, &ip)));
    let (sh, _, _) = success(process(&mut server, &effective, 0, &ip));
    let key = server.verifying_key().clone();
    let (session, _) =
        finish(&mut client, &effective, &sh, Some(&key)).expect("client establishes a session");
    let secret = session
        .resumption_secret
        .expect("resumption secret installed");

    assert!(!server.has_valid_resume(&client.create_client_hello(), &NOW));
    let mut junk = client.create_client_hello();
    junk.resume_session_id = Some([0x55u8; 32]);
    junk.resumption_binder = Some([0xAAu8; 32]);
    assert!(
        !server.has_valid_resume(&junk, &NOW),
        "a junk resume_session_id must not count as a valid ticket"
    );

    for _ in 0..5 {
        server.record_violation(&ip, &NOW);
    }
    let flagged = server.reputation_difficulty(&ip, false, &NOW);
    assert!(flagged > 0, "precondition: a flagged IP has difficulty > 0");
    assert_eq!(
        server.reputation_difficulty(&ip, server.has_valid_resume(&junk, &NOW), &NOW),
        flagged,
        "a junk resume must not zero a flagged IP's PoW difficulty"
    );

    let resume = client.create_client_hello_with_resume(sh.session_id, &secret, None);
    assert!(
        server.has_valid_resume(&resume, &NOW),
        "a real cached ticket with a valid binder must count as a valid resume"
    );
}

#[test]
fn transcript_hash_matches_the_borsh_layout() {
    fn pat(seed: u8, n: usize) -> Vec<u8> {
        (0..n).map(|i| seed.wrapping_add(i as u8)).collect()
    }
    fn arr32(seed: u8) -> [u8; 32] {
        pat(seed, 32).try_into().expect("pat(seed, 32) is 32 bytes")
    }
    let verify_key = HybridVerifyingKey {
        ed25519_pk: arr32(0x50),
        ml_dsa_pk: pat(0x60, 1952),
    };
    let client_hello = ClientHello {
        client_key_package: HybridKeyPackage {
            classical_pk: arr32(0x10),
            ml_kem_pk: pat(0x20, 1184),
        },
        client_verify_key: verify_key.clone(),
        nonce: arr32(0xA0),
        version: PROTOCOL_VERSION,
        cookie: Some(arr32(0xB0)),
        pow_solution: Some(PoWSolution {
            nonce: arr32(0x90),
            solution: 0x0123_4567_89AB_CDEF,
        }),
        resume_session_id: Some(arr32(0xC0)),
        resumption_binder: Some(arr32(0xC8)),
        protocol_variant: protocol_variant(),
        early_data: Some(pat(0xD0, 48)),
    };
    let ciphertext = HybridCiphertext {
        classical_pk: arr32(0x30),
        ml_kem_ct: pat(0x40, 1088),
    };
    let hello_bytes = borsh::to_vec(&(
        (arr32(0x10), pat(0x20, 1184)),
        (arr32(0x50), pat(0x60, 1952)),
        arr32(0xA0),
        PROTOCOL_VERSION,
        Some(arr32(0xB0)),
        Some((arr32(0x90), 0x0123_4567_89AB_CDEFu64)),
        Some(arr32(0xC0)),
        Some(arr32(0xC8)),
        protocol_variant(),
        Some(pat(0xD0, 48)),
    ))
    .expect("encode");
    let mut pushed = Vec::new();
    push_client_hello(&mut pushed, &client_hello);
    assert_eq!(pushed, hello_bytes);
    assert!(client_hello_lengths_within_bounds(&pushed));

    let mut all = borsh::to_vec(&protocol_variant()).expect("encode");
    all.extend_from_slice(&hello_bytes);
    all.extend(
        borsh::to_vec(&(
            arr32(0x70),
            (arr32(0x30), pat(0x40, 1088)),
            (arr32(0x50), pat(0x60, 1952)),
            arr32(0xE0),
            true,
        ))
        .expect("encode"),
    );
    let hash = compute_transcript_hash(
        &client_hello,
        &arr32(0x70),
        &ciphertext,
        &verify_key,
        &arr32(0xE0),
        true,
    )
    .expect("transcript hash");
    assert_eq!(hash, digest(&[&all]));
    assert_eq!(
        hash,
        [
            0xad, 0x68, 0xdc, 0xda, 0x8f, 0xc7, 0xb6, 0xca, 0xfa, 0xeb, 0xc5,
            0x40, 0x43, 0x3b, 0x6a, 0x84, 0xc8, 0x11, 0x66, 0xff, 0xa1, 0x3d,
            0x1b, 0xa5, 0x16, 0xab, 0x57, 0x6b, 0xed, 0xc4, 0x1e, 0x77,
        ]
    );
    let other = compute_transcript_hash(
        &client_hello,
        &arr32(0x70),
        &ciphertext,
        &verify_key,
        &arr32(0xE0),
        false,
    )
    .expect("transcript hash");
    assert_ne!(hash, other);
}

#[test]
fn server_hello_round_trips_in_the_borsh_layout() {
    let mut server = new_server();
    let client = new_client();
    let hello = hello_with_cookie(&mut server, &client);
    let (sh, _, _) = success(process(&mut server, &hello, 0, &local()));
    let wire = ServerReply::Hello(sh.clone()).to_wire().expect("encode");
    assert_eq!(wire[0], 0);
    assert_eq!(
        wire[1..].to_vec(),
        borsh::to_vec(&(
            sh.server_nonce,
            (sh.ciphertext.classical_pk, sh.ciphertext.ml_kem_ct.clone()),
            (sh.server_verify_key.ed25519_pk, sh.server_verify_key.ml_dsa_pk.clone()),
            (sh.signature.ed25519_sig, sh.signature.ml_dsa_sig.clone()),
            sh.session_id,
            sh.early_data_accepted,
        ))
        .expect("encode")
    );
    match ServerReply::from_wire(&wire) {
        Ok(ServerReply::Hello(decoded)) => {
            assert_eq!(decoded.session_id, sh.session_id);
            assert_eq!(decoded.signature, sh.signature);
            assert_eq!(decoded.ciphertext, sh.ciphertext);
        }
        _ => panic!("a server hello"),
    }
}

#[test]
fn cookie_is_bound_to_the_address_and_the_time() {
    let master = [9u8; 32];
    let t = 1_750_000_000;
    let cookie = generate_cookie(&master, &local(), Some(t)).expect("cookie");
    assert_eq!(validate_cookie(&master, &local(), &cookie, Some(t)).ok(), Some(true));
    assert_eq!(
        validate_cookie(&master, &ip(10, 0, 0, 1), &cookie, Some(t)).ok(),
        Some(false)
    );
    assert_eq!(
        validate_cookie(&[8u8; 32], &local(), &cookie, Some(t)).ok(),
        Some(false)
    );
    assert_eq!(
        validate_cookie(&master, &local(), &cookie, Some(t + 100_000)).ok(),
        Some(false)
    );
    assert!(matches!(
        generate_cookie(&master, &local(), None),
        Err(HandshakeError::ClockBackwards)
    ));
}

#[test]
fn proof_of_work_is_demanded_and_accepted() {
    let mut server = new_server();
    let client = new_client();
    let mut hello = client.create_client_hello();
    let (cookie, challenge) = match process(&mut server, &hello, 12, &local()) {
        HandshakeResponse::Retry(r) => (r.cookie, r.challenge.expect("challenge")),
        other => panic!("expected retry, got {other:?}"),
    };
    assert_eq!(challenge.difficulty, 12);
    hello.cookie = cookie;
    hello.pow_solution = Some(PoWSolution {
        nonce: challenge.nonce,
        solution: 6,
    });
    assert!(matches!(
        process(&mut server, &hello, 12, &local()),
        HandshakeResponse::Retry(_)
    ));
    hello.pow_solution = Some(PoWSolution {
        nonce: challenge.nonce,
        solution: 7,
    });
    success(process(&mut server, &hello, 12, &local()));
}

#[test]
fn failed_key_exchange_gives_the_ticket_back() {
    let mut server = new_server();
    let (resume_id, resume_secret) = first_handshake_for_hint(&mut server);
    let client = new_client();
    let hello = client.create_client_hello_with_resume(resume_id, &resume_secret, None);
    let admitted =
        match server.process_client_hello(&hello, 0, &local(), &NOW, &PowAnswer::Nothing) {
            HelloStep::Admitted(a) => a,
            HelloStep::Answer(r) => panic!("expected admission, got {r:?}"),
        };
    assert_eq!(server.session_cache_len(), 0);
    match server.answer_hello(&hello, admitted, None, Err("weak key".to_string())) {
        SignStep::Answer(HandshakeResponse::Fail(HandshakeError::KemFailed(m))) => {
            assert_eq!(m, "weak key")
        }
        _ => panic!("a key exchange failure"),
    }
    assert_eq!(server.session_cache_len(), 1);
    success(process(&mut server, &hello, 0, &local()));
}

#[test]
fn datagram_admission_needs_a_cookie() {
    let server: HandshakeServer =
        HandshakeServer::with_master_secret(server_key(), [4u8; 32], NOW);
    let mut hello = new_client().create_client_hello();
    let cookie = match server.udp_admit(&hello, &local(), &NOW) {
        UdpAdmit::Retry(r) => r.cookie.expect("cookie"),
        other => panic!("expected retry, got {other:?}"),
    };
    hello.cookie = Some(cookie);
    assert!(matches!(
        server.udp_admit(&hello, &local(), &NOW),
        UdpAdmit::Admit
    ));
    let no_clock = Now {
        unix_secs: None,
        mono_ms: 0,
    };
    hello.cookie = None;
    assert!(matches!(
        server.udp_admit(&hello, &local(), &no_clock),
        UdpAdmit::Drop
    ));
}

struct SeenElsewhere;

impl ZeroRttAntiReplay for SeenElsewhere {
    fn check_and_set(&self, _ticket_id: &[u8; 32]) -> bool {
        false
    }
}

#[test]
fn ticket_used_elsewhere_is_not_resumed() {
    let mut server: HandshakeServer<SeenElsewhere> =
        HandshakeServer::with_master_secret(server_key(), [4u8; 32], NOW);
    let client = new_client();
    let mut hello = client.create_client_hello();
    hello.cookie = Some(cookie_of(process(&mut server, &hello, 0, &local())));
    let (_, session, _) = success(process(&mut server, &hello, 0, &local()));
    let (id, secret) = session.resumption_hint().expect("hint");
    server.set_zero_rtt_anti_replay(SeenElsewhere);
    let resume = new_client().create_client_hello_with_resume(id, &secret, None);
    assert!(matches!(
        process(&mut server, &resume, 0, &local()),
        HandshakeResponse::Retry(_)
    ));
    assert!(NoSharedStore.check_and_set(&id));
}

#[test]
fn wrong_server_key_is_refused() {
    let mut server = new_server();
    let mut client = new_client();
    let hello = hello_with_cookie(&mut server, &client);
    let (sh, _, _) = success(process(&mut server, &hello, 0, &local()));
    let other = HybridVerifyingKey {
        ed25519_pk: [0u8; 32],
        ml_dsa_pk: vec![0x66; 1952],
    };
    let err = finish(&mut client, &hello, &sh, Some(&other)).expect_err("wrong key");
    assert!(matches!(err, HandshakeError::ServerIdentityMismatch));
    assert_eq!(err.to_text(), "Server identity mismatch");
}

#[test]
fn derived_values_depend_on_their_inputs() {
    let a = derive_session_id(&[1u8; 32], &[2u8; 32]);
    assert_ne!(a, derive_session_id(&[1u8; 32], &[3u8; 32]));
    assert_ne!(a, [1u8; 32]);
    let s = derive_resumption_secret(&[1u8; 32]);
    assert_ne!(s, [1u8; 32]);
    assert_ne!(s, derive_resumption_secret(&[2u8; 32]));
    let b = derive_resumption_binder(&s, &a, &[2u8; 32]);
    assert_ne!(b, derive_resumption_binder(&s, &a, &[3u8; 32]));
    assert_ne!(b, derive_resumption_binder(&a, &a, &[2u8; 32]));
}

#[test]
fn queued_early_data_is_taken_in_order() {
    let mut client = new_client();
    client.queue_early_data(b"a".to_vec());
    client.queue_early_data(b"b".to_vec());
    assert_eq!(client.take_early_data(), vec![b"a".to_vec(), b"b".to_vec()]);
    assert!(client.take_early_data().is_empty());
    assert_eq!(client.stage(), HandshakeStage::Initial);
}

#[test]
fn only_the_first_use_of_a_ticket_bypasses_admission() {
    let mut server = new_server();
    let (id, secret) = first_handshake_for_hint(&mut server);
    let resume = new_client().create_client_hello_with_resume(id, &secret, None);
    let tickets = server.session_cache_len();
    let step = server.admit_hello(&resume, 0, &local(), &NOW, &PowAnswer::Nothing, false);
    assert!(matches!(
        step,
        HelloStep::Answer(HandshakeResponse::Retry(_))
    ));
    assert_eq!(server.session_cache_len(), tickets - 1);

    let (id, secret) = first_handshake_for_hint(&mut server);
    let resume = new_client().create_client_hello_with_resume(id, &secret, None);
    match server.admit_hello(&resume, 0, &local(), &NOW, &PowAnswer::Nothing, true) {
        HelloStep::Admitted(admitted) => {
            assert_eq!(admitted.resumed.map(|t| t.id), Some(id));
            assert!(admitted.early_data.is_none());
        }
        HelloStep::Answer(r) => panic!("answered: {r:?}"),
    }
}

#[test]
fn early_data_is_opened_under_the_terms_of_its_seal() {
    let mut server = new_server();
    let (id, secret) = first_handshake_for_hint(&mut server);
    let client = new_client();
    let sealing = client.early_data_to_seal(&id, &secret, b"first words");
    let sealed = seal_early(&sealing);
    let hello = client.create_client_hello_with_resume(id, &secret, Some(sealed.clone()));
    match server.process_client_hello(&hello, 0, &local(), &NOW, &PowAnswer::Nothing) {
        HelloStep::Admitted(admitted) => {
            let opening = admitted.early_data.expect("a job");
            assert_eq!(opening.secret, sealing.secret);
            assert_eq!(opening.client_nonce, sealing.client_nonce);
            assert_eq!(opening.aad, sealing.aad);
            assert_eq!(opening.text, sealed);
        }
        HelloStep::Answer(r) => panic!("answered: {r:?}"),
    }
}

#[test]
fn failures_become_internal_errors() {
    let err = HandshakeError::ServerIdentityMismatch.into_core_error();
    assert!(matches!(
        err,
        CoreError::InternalError(ref m) if m == "Server identity mismatch"
    ));
}

#[test]
fn load_raises_the_difficulty_until_the_minute_ends() {
    let mut server = new_server();
    let hello = new_client().create_client_hello();
    for _ in 0..99 {
        process(&mut server, &hello, 0, &local());
    }
    assert_eq!(server.adaptive_difficulty(), 0);
    process(&mut server, &hello, 0, &local());
    assert_eq!(server.handshakes_this_minute(), 100);
    assert_eq!(server.adaptive_difficulty(), 4);
    let later = Now {
        unix_secs: Some(1_750_000_060),
        mono_ms: 70_000,
    };
    server.process_client_hello(&hello, 0, &local(), &later, &PowAnswer::Nothing);
    assert_eq!(server.handshakes_this_minute(), 1);
    assert_eq!(server.adaptive_difficulty(), 0);
}

#[test]
fn server_forgets_old_violations() {
    let mut server = new_server();
    server.record_violation(&local(), &NOW);
    let before = server.reputation_difficulty(&local(), false, &NOW);
    assert!(before > 0);
    server.gc_reputation(&NOW);
    assert_eq!(server.reputation_difficulty(&local(), false, &NOW), before);
    let much_later = Now {
        unix_secs: Some(1_750_000_000 + 1_000_000),
        mono_ms: 1_000_010_000,
    };
    server.gc_reputation(&much_later);
    assert_eq!(server.reputation_difficulty(&local(), false, &NOW), 0);
}
