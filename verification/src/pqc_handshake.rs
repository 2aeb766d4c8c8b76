//! The two-message hybrid handshake.
//!
//! The client sends its keys; the server answers with an encapsulated secret and a signature
//! over the transcript. Encapsulation, signatures and proof of work are done by the caller,
//! who hands in their results.

use crate::handshake::resumption::{derive_session_id, session_id_of};
use crate::hybrid::{
    Halves, HybridCiphertext, HybridKeyPackage, HybridSignature, HybridVerifyingKey, PoWChallenge,
    PoWSolution,
};
use crate::random::{random_array, RngError};
use crate::session::{Session, SessionRole};
use crate::types::{SchedulerMode, SessionId};
use crate::wire::{append, copy_bytes, same_bytes};
use vstd::prelude::*;

verus! {

/// The client's message.
#[derive(Debug, Clone)]
pub struct ClientHello {
    pub client_key_package: HybridKeyPackage,
    pub client_verify_key: HybridVerifyingKey,
    pub nonce: [u8; 32],
    pub version: u8,
    pub pow_solution: Option<PoWSolution>,
}

/// What came of a client's message.
#[derive(Debug)]
pub enum HandshakeResponse {
    Success(ServerHello, Session),
    Retry(HelloRetryRequest),
}

/// The server's demand for proof of work.
#[derive(Debug, Clone, Copy)]
pub struct HelloRetryRequest {
    pub challenge: PoWChallenge,
}

/// The server's message.
#[derive(Debug, Clone)]
pub struct ServerHello {
    pub server_key_package: HybridKeyPackage,
    pub ciphertext: HybridCiphertext,
    pub server_verify_key: HybridVerifyingKey,
    pub signature: HybridSignature,
    pub session_id: [u8; 32],
}

/// Why a handshake failed.
#[derive(Debug, Clone)]
pub enum HandshakeError {
    UnsupportedVersion,
    KemFailed(String),
    SignatureVerificationFailed(String),
    ServerIdentityMismatch,
    SessionIdMismatch,
}

impl HandshakeError {
    /// The text of the error.
    pub open spec fn spec_text(self) -> Seq<char> {
        match self {
            HandshakeError::UnsupportedVersion => "Unsupported protocol version"@,
            HandshakeError::KemFailed(m) => "KEM operation failed: "@ + m@,
            HandshakeError::SignatureVerificationFailed(m) => "Signature verification failed: "@
                + m@,
            HandshakeError::ServerIdentityMismatch => "Server identity mismatch"@,
            HandshakeError::SessionIdMismatch => "Session ID mismatch"@,
        }
    }

    /// The text of the error.
    pub fn to_text(&self) -> (s: String)
        ensures
            s@ == self.spec_text(),
    {
        match self {
            HandshakeError::UnsupportedVersion => "Unsupported protocol version".to_owned(),
            HandshakeError::KemFailed(m) => {
                let mut s: String = "KEM operation failed: ".to_owned();
                s.append(m.as_str());
                s
            },
            HandshakeError::SignatureVerificationFailed(m) => {
                let mut s: String = "Signature verification failed: ".to_owned();
                s.append(m.as_str());
                s
            },
            HandshakeError::ServerIdentityMismatch => "Server identity mismatch".to_owned(),
            HandshakeError::SessionIdMismatch => "Session ID mismatch".to_owned(),
        }
    }
}

/// What the server signs: the client's nonce and keys, its own keys and the session
/// identifier, one behind the other.
pub open spec fn transcript_bytes(
    client_nonce: Seq<u8>,
    client_keys: Halves,
    server_keys: Halves,
    session_id: Seq<u8>,
) -> Seq<u8> {
    client_nonce + client_keys.0 + client_keys.1 + server_keys.0 + server_keys.1 + session_id
}

fn transcript_to_bytes(
    client_nonce: &[u8; 32],
    client_keys: &HybridKeyPackage,
    server_keys: &HybridKeyPackage,
    session_id: &[u8; 32],
) -> (out: Vec<u8>)
    ensures
        out@ == transcript_bytes(client_nonce@, client_keys@, server_keys@, session_id@),
{
    let mut out: Vec<u8> = copy_bytes(client_nonce.as_slice());
    append(&mut out, client_keys.classical_pk.as_slice());
    append(&mut out, client_keys.ml_kem_pk.as_slice());
    append(&mut out, server_keys.classical_pk.as_slice());
    append(&mut out, server_keys.ml_kem_pk.as_slice());
    append(&mut out, session_id.as_slice());
    out
}

/// A solution to verify: whether it holds for the challenge, of this client and under this
/// secret.
#[derive(Debug)]
pub struct PowCheck {
    pub challenge: PoWChallenge,
    pub solution: PoWSolution,
    pub client_id: Vec<u8>,
    pub secret: [u8; 32],
}

/// What a server does next about a hello.
#[derive(Debug)]
pub enum HelloStep {
    /// Make a challenge of this difficulty, for this client and under this secret, and demand
    /// its solution.
    Challenge { difficulty: u8, client_id: Vec<u8>, secret: [u8; 32] },
    /// Encapsulate a secret for the client.
    Exchange,
}

/// An answer whose transcript waits for its signature.
#[derive(Debug)]
pub struct UnsignedHello {
    pub transcript: Vec<u8>,
    pub ciphertext: HybridCiphertext,
    pub session_id: [u8; 32],
    pub shared_secret: [u8; 32],
}

/// Whether a session is the one of this secret.
pub open spec fn session_of(s: Session, session_id: Seq<u8>, secret: [u8; 32]) -> bool {
    &&& s.id.0@ == session_id
    &&& s.scheduler_mode == SchedulerMode::LowLatency
    &&& s.traffic_secret == secret
    &&& s.role == SessionRole::Member
    &&& s.resumption_secret == Some(secret)
}

/// Whether a key exchange follows a hello: it is of version 1 and, where there is a difficulty, holds a
/// solution that was confirmed.
pub open spec fn goes_on(hello: ClientHello, difficulty: u8, solved: bool) -> bool {
    hello.version == 1 && (difficulty == 0 || (hello.pow_solution is Some && solved))
}

/// Whether an answer is to be trusted: it comes under the pinned key if one is pinned, its signature
/// holds, and the secret that was decapsulated belongs to the session that it names.
pub open spec fn trusted_answer(
    pinned: Option<Halves>,
    answer: ServerHello,
    nonce: Seq<u8>,
    verified: bool,
    secret: Option<Seq<u8>>,
) -> bool {
    &&& pinned matches Some(k) ==> k == answer.server_verify_key@
    &&& verified
    &&& secret matches Some(s) && answer.session_id@ == session_id_of(s, nonce)
}

/// The server of a handshake.
pub struct PqcHandshakeServer {
    kem_public: HybridKeyPackage,
    verifying_key: HybridVerifyingKey,
    pow_secret: [u8; 32],
}

impl PqcHandshakeServer {
    /// The public key for key exchange.
    pub closed spec fn kem(self) -> Halves {
        self.kem_public@
    }

    /// The public key for signatures.
    pub closed spec fn key(self) -> Halves {
        self.verifying_key@
    }

    /// The secret that challenges are made under.
    pub closed spec fn secret(self) -> Seq<u8> {
        self.pow_secret@
    }

    /// A server with these public keys and a fresh secret for challenges. Fails when the
    /// operating system has no random bytes.
    pub fn new(kem_public: HybridKeyPackage, verifying_key: HybridVerifyingKey) -> (r: Result<
        Self,
        RngError,
    >)
        ensures
            r matches Ok(s) ==> s.kem() == kem_public@ && s.key() == verifying_key@
                && s.secret().len() == 32,
    {
        match random_array::<32>() {
            Ok(pow_secret) => Ok(
                PqcHandshakeServer::with_keys(kem_public, verifying_key, pow_secret),
            ),
            Err(e) => Err(e),
        }
    }

    /// A server with these public keys and this secret for challenges.
    pub fn with_keys(
        kem_public: HybridKeyPackage,
        verifying_key: HybridVerifyingKey,
        pow_secret: [u8; 32],
    ) -> (s: Self)
        ensures
            s.kem() == kem_public@,
            s.key() == verifying_key@,
            s.secret() == pow_secret@,
    {
        PqcHandshakeServer { kem_public, verifying_key, pow_secret }
    }

    /// The public key for signatures.
    pub fn verifying_key(&self) -> (k: &HybridVerifyingKey)
        ensures
            k@ == self.key(),
    {
        &self.verifying_key
    }

    /// The solution of a hello that has to be verified: a difficulty above zero calls for it.
    pub fn solution_to_verify(
        &self,
        client_hello: &ClientHello,
        difficulty: u8,
        client_id: &[u8],
    ) -> (c: Option<PowCheck>)
        ensures
            c is Some <==> difficulty > 0 && client_hello.pow_solution is Some,
            c matches Some(check) ==> check.solution == client_hello.pow_solution->0
                && check.challenge == (PoWChallenge { nonce: check.solution.nonce, difficulty })
                && check.client_id@ == client_id@ && check.secret@ == self.secret(),
    {
        match &client_hello.pow_solution {
            Some(sol) => if difficulty > 0 {
                Some(
                    PowCheck {
                        challenge: PoWChallenge { nonce: sol.nonce, difficulty },
                        solution: *sol,
                        client_id: copy_bytes(client_id),
                        secret: self.pow_secret,
                    },
                )
            } else {
                None
            },
            None => None,
        }
    }

    /// Decide what to do about a hello, where `solved` says whether its solution holds. Another
    /// version than 1 is an error; with a difficulty above zero a hello without a solution
    /// that holds is asked for one.
    pub fn process_client_hello(
        &self,
        client_hello: &ClientHello,
        difficulty: u8,
        client_id: &[u8],
        solved: bool,
    ) -> (r: Result<HelloStep, HandshakeError>)
        ensures
            r == Ok::<HelloStep, HandshakeError>(HelloStep::Exchange) <==> goes_on(
                *client_hello,
                difficulty,
                solved,
            ),
            if client_hello.version != 1 {
                r == Err::<HelloStep, HandshakeError>(HandshakeError::UnsupportedVersion)
            } else if difficulty > 0 && !(client_hello.pow_solution is Some && solved) {
                r matches Ok(HelloStep::Challenge { difficulty: d, client_id: id, secret }) && d
                    == difficulty && id@ == client_id@ && secret@ == self.secret()
            } else {
                r == Ok::<HelloStep, HandshakeError>(HelloStep::Exchange)
            },
    {
        if client_hello.version != 1 {
            return Err(HandshakeError::UnsupportedVersion);
        }
        if difficulty > 0 {
            let valid: bool = client_hello.pow_solution.is_some() && solved;
            if !valid {
                return Ok(
                    HelloStep::Challenge {
                        difficulty,
                        client_id: copy_bytes(client_id),
                        secret: self.pow_secret,
                    },
                );
            }
        }
        Ok(HelloStep::Exchange)
    }

    /// Make the transcript of an answer. `kem` is the shared secret with its encapsulation, or
    /// the reason why there is none.
    pub fn answer_hello(
        &self,
        client_hello: &ClientHello,
        kem: Result<([u8; 32], HybridCiphertext), String>,
    ) -> (r: Result<UnsignedHello, HandshakeError>)
        ensures
            match kem {
                Err(why) => r matches Err(HandshakeError::KemFailed(m)) && m@ == why@,
                Ok((secret, ciphertext)) => r matches Ok(u) && u.ciphertext == ciphertext
                    && u.shared_secret == secret && u.session_id@ == session_id_of(
                    secret@,
                    client_hello.nonce@,
                ) && u.transcript@ == transcript_bytes(
                    client_hello.nonce@,
                    client_hello.client_key_package@,
                    self.kem(),
                    u.session_id@,
                ),
            },
    {
        let (shared_secret, ciphertext): ([u8; 32], HybridCiphertext) = match kem {
            Ok((secret, ct)) => (secret, ct),
            Err(why) => {
                return Err(HandshakeError::KemFailed(why));
            },
        };
        let session_id: [u8; 32] = derive_session_id(&shared_secret, &client_hello.nonce);
        let transcript: Vec<u8> = transcript_to_bytes(
            &client_hello.nonce,
            &client_hello.client_key_package,
            &self.kem_public,
            &session_id,
        );
        Ok(UnsignedHello { transcript, ciphertext, session_id, shared_secret })
    }

    /// The answer with its signature, and the session.
    pub fn finish_hello(&self, unsigned: UnsignedHello, signature: HybridSignature) -> (r:
        HandshakeResponse)
        ensures
            r matches HandshakeResponse::Success(h, session) && h.server_key_package@ == self.kem()
                && h.ciphertext == unsigned.ciphertext && h.server_verify_key@ == self.key()
                && h.signature == signature && h.session_id == unsigned.session_id && session_of(
                session,
                unsigned.session_id@,
                unsigned.shared_secret,
            ),
    {
        let server_hello: ServerHello = ServerHello {
            server_key_package: self.kem_public.copy(),
            ciphertext: unsigned.ciphertext,
            server_verify_key: self.verifying_key.copy(),
            signature,
            session_id: unsigned.session_id,
        };
        let session: Session = Session::from_mls_derived(
            SessionId::from_bytes(unsigned.session_id),
            unsigned.shared_secret,
            Some(unsigned.shared_secret),
            SchedulerMode::LowLatency,
        );
        HandshakeResponse::Success(server_hello, session)
    }
}

/// The client of a handshake.
pub struct PqcHandshakeClient {
    kem_public: HybridKeyPackage,
    verifying_key: HybridVerifyingKey,
    nonce: [u8; 32],
}

impl PqcHandshakeClient {
    /// The public key for key exchange.
    pub closed spec fn kem(self) -> Halves {
        self.kem_public@
    }

    /// The public key for signatures.
    pub closed spec fn key(self) -> Halves {
        self.verifying_key@
    }

    /// The nonce of this handshake.
    pub closed spec fn spec_nonce(self) -> Seq<u8> {
        self.nonce@
    }

    /// A client with these public keys and a fresh nonce. Fails when the operating system
    /// has no random bytes.
    pub fn new(kem_public: HybridKeyPackage, verifying_key: HybridVerifyingKey) -> (r: Result<
        Self,
        RngError,
    >)
        ensures
            r matches Ok(c) ==> c.kem() == kem_public@ && c.key() == verifying_key@
                && c.spec_nonce().len() == 32,
    {
        match random_array::<32>() {
            Ok(nonce) => Ok(PqcHandshakeClient::with_nonce(kem_public, verifying_key, nonce)),
            Err(e) => Err(e),
        }
    }

    /// A client with these public keys and this nonce.
    pub fn with_nonce(
        kem_public: HybridKeyPackage,
        verifying_key: HybridVerifyingKey,
        nonce: [u8; 32],
    ) -> (c: Self)
        ensures
            c.kem() == kem_public@,
            c.key() == verifying_key@,
            c.spec_nonce() == nonce@,
    {
        PqcHandshakeClient { kem_public, verifying_key, nonce }
    }

    /// The client's message.
    pub fn create_client_hello(&self) -> (h: ClientHello)
        ensures
            h.client_key_package@ == self.kem(),
            h.client_verify_key@ == self.key(),
            h.nonce@ == self.spec_nonce(),
            h.version == 1,
            h.pow_solution is None,
    {
        ClientHello {
            client_key_package: self.kem_public.copy(),
            client_verify_key: self.verifying_key.copy(),
            nonce: self.nonce,
            version: 1,
            pow_solution: None,
        }
    }

    /// The same message with a solution.
    pub fn update_hello_with_pow(&self, hello: &ClientHello, solution: PoWSolution) -> (h:
        ClientHello)
        ensures
            h.client_key_package@ == hello.client_key_package@,
            h.client_verify_key@ == hello.client_verify_key@,
            h.nonce == hello.nonce,
            h.version == hello.version,
            h.pow_solution == Some(solution),
    {
        ClientHello {
            client_key_package: hello.client_key_package.copy(),
            client_verify_key: hello.client_verify_key.copy(),
            nonce: hello.nonce,
            version: hello.version,
            pow_solution: Some(solution),
        }
    }

    /// What the server claims to have signed.
    pub fn transcript(&self, server_hello: &ServerHello) -> (t: Vec<u8>)
        ensures
            t@ == transcript_bytes(
                self.spec_nonce(),
                self.kem(),
                server_hello.server_key_package@,
                server_hello.session_id@,
            ),
    {
        transcript_to_bytes(
            &self.nonce,
            &self.kem_public,
            &server_hello.server_key_package,
            &server_hello.session_id,
        )
    }

    /// Check the server's message and set up the session. `verified` says whether the
    /// signature of the transcript holds, and `secret` is what decapsulating gave.
    pub fn process_server_hello(
        &self,
        server_hello: &ServerHello,
        expected_server_key: Option<&HybridVerifyingKey>,
        verified: Result<(), String>,
        secret: Result<[u8; 32], String>,
    ) -> (r: Result<Session, HandshakeError>)
        ensures
            r is Ok <==> trusted_answer(
                match expected_server_key {
                    Some(k) => Some(k@),
                    None => None,
                },
                *server_hello,
                self.spec_nonce(),
                verified is Ok,
                match secret {
                    Ok(s) => Some(s@),
                    Err(_) => None,
                },
            ),
            ({
                let pinned_other = expected_server_key matches Some(k) && k@
                    != server_hello.server_verify_key@;
                if pinned_other {
                    r == Err::<Session, HandshakeError>(HandshakeError::ServerIdentityMismatch)
                } else if verified is Err {
                    r matches Err(HandshakeError::SignatureVerificationFailed(m)) && m@
                        == verified->Err_0@
                } else if secret is Err {
                    r matches Err(HandshakeError::KemFailed(m)) && m@ == secret->Err_0@
                } else if server_hello.session_id@ != session_id_of(
                    secret->Ok_0@,
                    self.spec_nonce(),
                ) {
                    r == Err::<Session, HandshakeError>(HandshakeError::SessionIdMismatch)
                } else {
                    r matches Ok(session) && session_of(
                        session,
                        server_hello.session_id@,
                        secret->Ok_0,
                    )
                }
            }),
    {
        if let Some(expected) = expected_server_key {
            if !expected.same(&server_hello.server_verify_key) {
                return Err(HandshakeError::ServerIdentityMismatch);
            }
        }
        if let Err(why) = verified {
            return Err(HandshakeError::SignatureVerificationFailed(why));
        }
        let shared_secret: [u8; 32] = match secret {
            Ok(s) => s,
            Err(why) => {
                return Err(HandshakeError::KemFailed(why));
            },
        };
        let expected_session_id: [u8; 32] = derive_session_id(&shared_secret, &self.nonce);
        if !same_bytes(expected_session_id.as_slice(), server_hello.session_id.as_slice()) {
            return Err(HandshakeError::SessionIdMismatch);
        }
        Ok(
            Session::from_mls_derived(
                SessionId::from_bytes(server_hello.session_id),
                shared_secret,
                Some(shared_secret),
                SchedulerMode::LowLatency,
            ),
        )
    }
}

/// The transcript binds what it is made of: with keys of the same lengths, two transcripts
/// with the same bytes agree in every part.
pub proof fn law_transcript_binds_its_parts(
    nonce1: Seq<u8>,
    client1: Halves,
    server1: Halves,
    id1: Seq<u8>,
    nonce2: Seq<u8>,
    client2: Halves,
    server2: Halves,
    id2: Seq<u8>,
)
    requires
        nonce1.len() == nonce2.len(),
        client1.0.len() == client2.0.len(),
        client1.1.len() == client2.1.len(),
        server1.0.len() == server2.0.len(),
        server1.1.len() == server2.1.len(),
        id1.len() == id2.len(),
        transcript_bytes(nonce1, client1, server1, id1) == transcript_bytes(
            nonce2,
            client2,
            server2,
            id2,
        ),
    ensures
        nonce1 == nonce2,
        client1 == client2,
        server1 == server2,
        id1 == id2,
{
    let a4 = nonce1 + client1.0 + client1.1 + server1.0;
    let b4 = nonce2 + client2.0 + client2.1 + server2.0;
    let a3 = nonce1 + client1.0 + client1.1;
    let b3 = nonce2 + client2.0 + client2.1;
    let a2 = nonce1 + client1.0;
    let b2 = nonce2 + client2.0;
    lemma_same_ends(a4 + server1.1, id1, b4 + server2.1, id2);
    lemma_same_ends(a4, server1.1, b4, server2.1);
    lemma_same_ends(a3, server1.0, b3, server2.0);
    lemma_same_ends(a2, client1.1, b2, client2.1);
    lemma_same_ends(nonce1, client1.0, nonce2, client2.0);
}

proof fn lemma_same_ends(a: Seq<u8>, x: Seq<u8>, b: Seq<u8>, y: Seq<u8>)
    requires
        a + x == b + y,
        x.len() == y.len(),
    ensures
        a == b,
        x == y,
{
    assert(a.len() + x.len() == (a + x).len());
    assert(b.len() + y.len() == (b + y).len());
    assert(a =~= (a + x).take(a.len() as int));
    assert(b =~= (b + y).take(b.len() as int));
    assert(x =~= (a + x).skip(a.len() as int));
    assert(y =~= (b + y).skip(b.len() as int));
}

/// The server signs what the client checks: for the hello that the client sent, the
/// transcript of the answer is the one that the client makes of the answer.
pub proof fn law_signed_transcript_is_checked(
    client: PqcHandshakeClient,
    server: PqcHandshakeServer,
    hello: ClientHello,
    answer: ServerHello,
    secret: Seq<u8>,
)
    requires
        hello.client_key_package@ == client.kem(),
        hello.nonce@ == client.spec_nonce(),
        answer.server_key_package@ == server.kem(),
        answer.session_id@ == session_id_of(secret, hello.nonce@),
    ensures
        transcript_bytes(
            client.spec_nonce(),
            client.kem(),
            answer.server_key_package@,
            answer.session_id@,
        ) == transcript_bytes(
            hello.nonce@,
            hello.client_key_package@,
            server.kem(),
            session_id_of(secret, hello.nonce@),
        ),
{
}

/// Both ends agree: a client with the same nonce that recovers the secret that the server
/// encapsulated accepts the session identifier and has the server's secrets.
pub proof fn law_both_ends_agree(
    client: Session,
    server: Session,
    nonce: Seq<u8>,
    secret: [u8; 32],
)
    requires
        session_of(server, session_id_of(secret@, nonce), secret),
        session_of(client, session_id_of(secret@, nonce), secret),
    ensures
        client.id.0@ == server.id.0@,
        client.traffic_secret == server.traffic_secret,
        client.resumption_secret == server.resumption_secret,
{
}

/// Who gets a key exchange: a hello of version 1, with a confirmed solution where there is a difficulty;
/// and nobody else.
pub proof fn law_who_gets_an_exchange(hello: ClientHello, difficulty: u8, solved: bool)
    ensures
        hello.version != 1 ==> !goes_on(hello, difficulty, solved),
        difficulty > 0 && (hello.pow_solution is None || !solved) ==> !goes_on(
            hello,
            difficulty,
            solved,
        ),
        hello.version == 1 && difficulty == 0 ==> goes_on(hello, difficulty, solved),
        hello.version == 1 && hello.pow_solution is Some && solved ==> goes_on(
            hello,
            difficulty,
            solved,
        ),
{
}

/// Whom a client trusts: an answer without a signature that holds, without a secret, under another key than
/// the pinned one, or for another session than that of the secret is never accepted; and an answer with all
/// of them is.
pub proof fn law_only_signed_answers_are_trusted(
    pinned: Option<Halves>,
    answer: ServerHello,
    nonce: Seq<u8>,
    verified: bool,
    secret: Option<Seq<u8>>,
)
    ensures
        ({
            let good = trusted_answer(pinned, answer, nonce, verified, secret);
            let own = secret is Some && answer.session_id@ == crate::hash::sha256_of(
                "phantom-session-id-v1"@.map_values(|c: char| c as u8) + secret->0 + nonce,
            );
            &&& good ==> verified && own
            &&& pinned is Some && pinned->0 != answer.server_verify_key@ ==> !good
            &&& verified && own && (pinned is None || pinned->0 == answer.server_verify_key@) ==> good
        }),
{
    crate::handshake::resumption::law_labels_are_texts();
}

/// What both ends end up with: the session that was named, with the secret of the exchange for its traffic
/// and for its resumption. The transcript holds the nonce, the keys of both ends and the session, each at
/// its place.
pub proof fn law_session_is_of_the_exchange(
    s: Session,
    session_id: Seq<u8>,
    secret: [u8; 32],
    nonce: Seq<u8>,
    client: Halves,
    server: Halves,
)
    requires
        session_of(s, session_id, secret),
        nonce.len() == 32,
        client.0.len() == 32,
        server.0.len() == 32,
    ensures
        s.id.0@ == session_id,
        s.traffic_secret == secret,
        s.resumption_secret == Some(secret),
        s.role == SessionRole::Member,
        s.scheduler_mode == SchedulerMode::LowLatency,
        ({
            let t = transcript_bytes(nonce, client, server, session_id);
            let n = client.1.len() as int;
            let m = server.1.len() as int;
            &&& t.len() == 96 + n + m + session_id.len()
            &&& t.subrange(0, 32) == nonce
            &&& t.subrange(32, 64) == client.0
            &&& t.subrange(64, 64 + n) == client.1
            &&& t.subrange(64 + n, 96 + n) == server.0
            &&& t.subrange(96 + n, 96 + n + m) == server.1
            &&& t.skip(96 + n + m) == session_id
        }),
{
    let t = transcript_bytes(nonce, client, server, session_id);
    let n = client.1.len() as int;
    let m = server.1.len() as int;
    assert(t.subrange(0, 32) =~= nonce);
    assert(t.subrange(32, 64) =~= client.0);
    assert(t.subrange(64, 64 + n) =~= client.1);
    assert(t.subrange(64 + n, 96 + n) =~= server.0);
    assert(t.subrange(96 + n, 96 + n + m) =~= server.1);
    assert(t.skip(96 + n + m) =~= session_id);
}

} // verus!
