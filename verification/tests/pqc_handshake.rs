//! The short handshake, with stand-ins for the key exchange, the signatures and the work.

use phantom_transport::hybrid::{
    HybridCiphertext, HybridKeyPackage, HybridSignature, HybridVerifyingKey, PoWChallenge,
    PoWSolution,
};
use phantom_transport::pqc_handshake::{
    ClientHello, HandshakeError, HandshakeResponse, HelloRetryRequest, HelloStep,
    PqcHandshakeClient, PqcHandshakeServer, ServerHello,
};
use phantom_transport::session::Session;
use sha2::{Digest, Sha256};

fn digest(parts: &[&[u8]]) -> [u8; 32] {
    let mut h = Sha256::new();
    for p in parts {
        h.update(p);
    }
    h.finalize().into()
}

fn keys(seed: u8) -> (HybridKeyPackage, HybridVerifyingKey) {
    (
        HybridKeyPackage {
            classical_pk: [seed; 32],
            ml_kem_pk: vec![seed ^ 1; 1184],
        },
        HybridVerifyingKey {
            ed25519_pk: [seed ^ 2; 32],
            ml_dsa_pk: vec![seed ^ 3; 1952],
        },
    )
}

fn new_server() -> PqcHandshakeServer {
    let (kem, key) = keys(0x40);
    PqcHandshakeServer::new(kem, key).expect("random bytes")
}

fn new_client() -> PqcHandshakeClient {
    let (kem, key) = keys(0x80);
    PqcHandshakeClient::new(kem, key).expect("random bytes")
}

fn sign(key: &HybridVerifyingKey, text: &[u8]) -> HybridSignature {
    let mut sig = [0u8; 64];
    sig[..32].copy_from_slice(&digest(&[&key.ed25519_pk, text]));
    HybridSignature {
        ed25519_sig: sig,
        ml_dsa_sig: vec![9u8; 3309],
    }
}

fn zero_bits(d: &[u8; 32]) -> u32 {
    let mut n = 0;
    for b in d {
        n += b.leading_zeros();
        if *b != 0 {
            break;
        }
    }
    n
}

fn solve(challenge: &PoWChallenge) -> PoWSolution {
    let mut solution = 0u64;
    loop {
        let s = PoWSolution {
            nonce: challenge.nonce,
            solution,
        };
        if holds(challenge, &s) {
            return s;
        }
        solution += 1;
    }
}

fn holds(challenge: &PoWChallenge, s: &PoWSolution) -> bool {
    let d = digest(&[&s.nonce, &s.solution.to_le_bytes()]);
    zero_bits(&d) >= challenge.difficulty as u32
}

fn process(
    server: &PqcHandshakeServer,
    hello: &ClientHello,
    difficulty: u8,
) -> Result<HandshakeResponse, HandshakeError> {
    let secret = digest(&[b"secret", &hello.nonce]);
    let mut masked = secret;
    for (m, k) in masked.iter_mut().zip(hello.client_key_package.classical_pk) {
        *m ^= k;
    }
    let ciphertext = HybridCiphertext {
        classical_pk: masked,
        ml_kem_ct: vec![7u8; 1088],
    };
    let client_id = b"client".as_slice();
    let solved = match server.solution_to_verify(hello, difficulty, client_id) {
        Some(check) => {
            assert_eq!(check.client_id, client_id);
            holds(&check.challenge, &check.solution)
        }
        None => false,
    };
    match server.process_client_hello(hello, difficulty, client_id, solved)? {
        HelloStep::Challenge {
            difficulty,
            client_id,
            secret,
        } => Ok(HandshakeResponse::Retry(HelloRetryRequest {
            challenge: PoWChallenge {
                nonce: digest(&[&secret, &client_id]),
                difficulty,
            },
        })),
        HelloStep::Exchange => {
            let unsigned = server.answer_hello(hello, Ok((secret, ciphertext)))?;
            let signature = sign(server.verifying_key(), &unsigned.transcript);
            Ok(server.finish_hello(unsigned, signature))
        }
    }
}

fn finish(
    client: &PqcHandshakeClient,
    sh: &ServerHello,
    expected: Option<&HybridVerifyingKey>,
) -> Result<Session, HandshakeError> {
    let text = client.transcript(sh);
    let verified = if sh.signature == sign(&sh.server_verify_key, &text) {
        Ok(())
    } else {
        Err("bad signature".to_string())
    };
    let mut secret = sh.ciphertext.classical_pk;
    for (m, k) in secret.iter_mut().zip(keys(0x80).0.classical_pk) {
        *m ^= k;
    }
    client.process_server_hello(sh, expected, verified, Ok(secret))
}

fn seal(session: &Session, text: &[u8]) -> Vec<u8> {
    let pad = digest(&[&session.traffic_secret]);
    text.iter().zip(pad.iter().cycle()).map(|(a, b)| a ^ b).collect()
}

#[test]
fn test_full_handshake() {
    let server = new_server();
    let client = new_client();
    let client_hello = client.create_client_hello();
    let result = process(&server, &client_hello, 0).expect("Server handshake failed");

    let (server_hello, server_session) = match result {
        HandshakeResponse::Success(h, s) => (h, s),
        _ => panic!("Expected success with difficulty 0"),
    };

    let client_session = finish(&client, &server_hello, Some(server.verifying_key()))
        .expect("Client handshake failed");

    let test_message = b"PQC handshake successful!";
    let encrypted = seal(&server_session, test_message);
    assert_ne!(encrypted.as_slice(), test_message.as_slice());
    let decrypted = seal(&client_session, &encrypted);

    assert_eq!(test_message.as_slice(), decrypted.as_slice());
    assert_eq!(server_session.id, client_session.id);
}

#[test]
fn test_handshake_with_pow() {
    let server = new_server();
    let client = new_client();
    let difficulty = 8;

    let client_hello = client.create_client_hello();
    let result = process(&server, &client_hello, difficulty).unwrap();

    let challenge = match result {
        HandshakeResponse::Retry(req) => req.challenge,
        _ => panic!("Expected Retry request"),
    };

    assert_eq!(challenge.difficulty, difficulty);

    let solution = solve(&challenge);
    let client_hello_pow = client.update_hello_with_pow(&client_hello, solution);
    let result = process(&server, &client_hello_pow, difficulty).unwrap();

    assert!(matches!(result, HandshakeResponse::Success(_, _)));
}

#[test]
fn test_handshake_without_pinned_key() {
    let server = new_server();
    let client = new_client();

    let client_hello = client.create_client_hello();
    let result = process(&server, &client_hello, 0).unwrap();
    let (server_hello, _) = match result {
        HandshakeResponse::Success(h, s) => (h, s),
        _ => panic!("Expected success"),
    };

    let client_session = finish(&client, &server_hello, None)
        .expect("Handshake should succeed without pinned key");

    assert!(client_session.can_resume());
}

#[test]
fn test_invalid_server_signature() {
    let server = new_server();
    let client = new_client();

    let client_hello = client.create_client_hello();
    let result = process(&server, &client_hello, 0).unwrap();
    let (mut server_hello, _) = match result {
        HandshakeResponse::Success(h, s) => (h, s),
        _ => panic!("Expected success"),
    };

    server_hello.signature.ed25519_sig[0] ^= 0xFF;

    let result = finish(&client, &server_hello, Some(server.verifying_key()));
    assert!(matches!(
        result,
        Err(HandshakeError::SignatureVerificationFailed(_))
    ));
}

#[test]
fn other_failures_are_told_apart() {
    let server = new_server();
    let client = new_client();
    let mut hello = client.create_client_hello();
    let (sh, _) = match process(&server, &hello, 0).unwrap() {
        HandshakeResponse::Success(h, s) => (h, s),
        _ => panic!("Expected success"),
    };
    let (_, other) = keys(0x20);
    assert!(matches!(
        finish(&client, &sh, Some(&other)),
        Err(HandshakeError::ServerIdentityMismatch)
    ));
    let mut forged = sh.clone();
    forged.session_id[0] ^= 1;
    forged.signature = sign(&forged.server_verify_key, &client.transcript(&forged));
    assert!(matches!(
        finish(&client, &forged, None),
        Err(HandshakeError::SessionIdMismatch)
    ));
    hello.version = 99;
    let err = process(&server, &hello, 0).expect_err("unknown version");
    assert_eq!(err.to_text(), "Unsupported protocol version");
}

#[test]
fn client_sends_the_nonce_that_it_was_given() {
    let (kem, key) = keys(0x80);
    let hello = PqcHandshakeClient::with_nonce(kem, key, [9u8; 32]).create_client_hello();
    assert_eq!(hello.nonce, [9u8; 32]);
    assert_eq!(hello.version, 1);
}
