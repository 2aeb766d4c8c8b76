//! The client's side of the handshake.

use crate::handshake::error::HandshakeError;
use crate::handshake::messages::{
    protocol_variant, serialization_error, variant_tag, ClientHello, HandshakeStage, HelloView,
    ServerHello, ServerHelloView, PROTOCOL_VERSION,
};
use crate::handshake::resumption::{
    binder_of, derive_resumption_binder, derive_resumption_secret, early_data_job, early_job,
    may_open, resumption_secret_of, session_id_of, EarlyDataJob,
};
use crate::handshake::server::{
    admits, answer_transcript, claimable, server_session, AdmittedHello, ServerState, UnsignedHello,
};
use crate::handshake::transcript::{compute_transcript_hash, Transcript};
use crate::hybrid::{Halves, HybridKeyPackage, HybridVerifyingKey};
use crate::random::random_array;
use crate::session::{Session, SessionRole};
use crate::session_cache::{ticket_of, ResumptionTicket};
use crate::types::{SchedulerMode, SessionId};
use vstd::prelude::*;

verus! {

/// What a client holds.
#[verifier::ext_equal]
pub struct ClientState {
    pub kem: Halves,
    pub key: Halves,
    pub nonce: Seq<u8>,
    /// Early data that waits to be sent.
    pub queued: Seq<Seq<u8>>,
    pub stage: HandshakeStage,
}

/// The hello of a client that resumes nothing.
pub open spec fn plain_hello(c: ClientState) -> HelloView {
    HelloView {
        kem: c.kem,
        key: c.key,
        nonce: c.nonce,
        version: PROTOCOL_VERSION,
        cookie: None,
        pow: None,
        resume: None,
        binder: None,
        variant: variant_tag(),
        early: None,
    }
}

/// The hello of a client that resumes a session.
pub open spec fn resuming_hello(
    c: ClientState,
    session_id: Seq<u8>,
    secret: Seq<u8>,
    sealed: Option<Seq<u8>>,
) -> HelloView {
    HelloView {
        resume: Some(session_id),
        binder: Some(binder_of(secret, session_id, c.nonce)),
        early: sealed,
        ..plain_hello(c)
    }
}

/// The transcript that a server's answer claims to have signed.
pub open spec fn claimed_transcript(hello: HelloView, answer: ServerHelloView) -> Transcript {
    Transcript {
        hello,
        server_nonce: answer.server_nonce,
        ciphertext: answer.ciphertext,
        server_key: answer.key,
        session_id: answer.session_id,
        early_data_accepted: answer.early_data_accepted,
    }
}

/// The digest of the transcript that a server's answer claims to have signed. It is made of
/// the hello that was sent and the answer that came.
pub fn server_hello_transcript_hash(client_hello: &ClientHello, server_hello: &ServerHello) -> (r:
    Result<[u8; 32], HandshakeError>)
    ensures
        ({
            let t = claimed_transcript(client_hello@, server_hello@);
            &&& t.fits() ==> (r matches Ok(d) && d@ == t.digest())
            &&& !t.fits() ==> (r matches Err(e) && serialization_error(e, "invalid data"@))
        }),
{
    compute_transcript_hash(
        client_hello,
        &server_hello.server_nonce,
        &server_hello.ciphertext,
        &server_hello.server_verify_key,
        &server_hello.session_id,
        server_hello.early_data_accepted,
    )
}

/// The contents of byte vectors.
pub open spec fn contents(v: Seq<Vec<u8>>) -> Seq<Seq<u8>> {
    v.map_values(|x: Vec<u8>| x@)
}

/// Optional bytes.
pub open spec fn bytes_of(o: Option<Vec<u8>>) -> Option<Seq<u8>> {
    match o {
        Some(v) => Some(v@),
        None => None,
    }
}

/// The session that a client sets up.
pub open spec fn client_session(s: Session, answer: ServerHelloView, secret: [u8; 32]) -> bool {
    &&& s.id.0@ == answer.session_id
    &&& s.scheduler_mode == SchedulerMode::LowLatency
    &&& s.traffic_secret == secret
    &&& s.role == SessionRole::Client
    &&& s.resumption_secret matches Some(r) && r@ == resumption_secret_of(secret@)
}

/// Whether an answer is to be trusted: it comes under the pinned key if one is pinned, it fits the layout,
/// its signature holds, and both the secret and the traffic keys could be made of it.
pub open spec fn trusted_answer(
    pinned: Option<Halves>,
    hello: HelloView,
    answer: ServerHelloView,
    verified: bool,
    decapsulated: bool,
    keyed: bool,
) -> bool {
    &&& pinned matches Some(k) ==> k == answer.key
    &&& claimed_transcript(hello, answer).fits()
    &&& verified && decapsulated && keyed
}

/// The client of a handshake.
pub struct HandshakeClient {
    kem_public: HybridKeyPackage,
    verifying_key: HybridVerifyingKey,
    nonce: [u8; 32],
    early_data: Vec<Vec<u8>>,
    stage: HandshakeStage,
}

impl View for HandshakeClient {
    type V = ClientState;

    closed spec fn view(&self) -> ClientState {
        ClientState {
            kem: self.kem_public@,
            key: self.verifying_key@,
            nonce: self.nonce@,
            queued: contents(self.early_data@),
            stage: self.stage,
        }
    }
}

impl HandshakeClient {
    /// A client with these public keys and a fresh nonce. Fails when the operating system
    /// has no random bytes.
    pub fn new(kem_public: HybridKeyPackage, verifying_key: HybridVerifyingKey) -> (r: Result<
        Self,
        HandshakeError,
    >)
        ensures
            match r {
                Ok(c) => {
                    &&& c@.kem == kem_public@
                    &&& c@.key == verifying_key@
                    &&& c@.nonce.len() == 32
                    &&& c@.queued.len() == 0
                    &&& c@.stage == HandshakeStage::Initial
                },
                Err(e) => e is RngError,
            },
    {
        match random_array::<32>() {
            Ok(nonce) => Ok(HandshakeClient::with_nonce(kem_public, verifying_key, nonce)),
            Err(_) => Err(
                HandshakeError::RngError("the operating system has no random bytes".to_owned()),
            ),
        }
    }

    /// A client with these public keys and this nonce.
    pub fn with_nonce(
        kem_public: HybridKeyPackage,
        verifying_key: HybridVerifyingKey,
        nonce: [u8; 32],
    ) -> (c: Self)
        ensures
            c@ == (ClientState {
                kem: kem_public@,
                key: verifying_key@,
                nonce: nonce@,
                queued: Seq::empty(),
                stage: HandshakeStage::Initial,
            }),
    {
        let early_data: Vec<Vec<u8>> = Vec::new();
        assert(contents(early_data@) =~= Seq::empty());
        HandshakeClient {
            kem_public,
            verifying_key,
            nonce,
            early_data,
            stage: HandshakeStage::Initial,
        }
    }

    /// The hello of a connection that resumes nothing.
    pub fn create_client_hello(&self) -> (h: ClientHello)
        ensures
            h@ == plain_hello(self@),
    {
        ClientHello {
            client_key_package: self.kem_public.copy(),
            client_verify_key: self.verifying_key.copy(),
            nonce: self.nonce,
            version: PROTOCOL_VERSION,
            cookie: None,
            pow_solution: None,
            resume_session_id: None,
            resumption_binder: None,
            protocol_variant: protocol_variant(),
            early_data: None,
        }
    }

    /// Early data of a resumed session that is to be sealed.
    pub fn early_data_to_seal(
        &self,
        resume_session_id: &[u8; 32],
        resumption_secret: &[u8; 32],
        plaintext: &[u8],
    ) -> (j: EarlyDataJob)
        ensures
            early_job(j, resumption_secret@, self@.nonce, resume_session_id@, plaintext@),
    {
        early_data_job(resumption_secret, &self.nonce, resume_session_id, plaintext)
    }

    /// The hello of a connection that resumes a session, with early data that was sealed. It
    /// proves that the client holds the secret of the session.
    pub fn create_client_hello_with_resume(
        &self,
        resume_session_id: [u8; 32],
        resumption_secret: &[u8; 32],
        sealed: Option<Vec<u8>>,
    ) -> (h: ClientHello)
        ensures
            h@ == resuming_hello(
                self@,
                resume_session_id@,
                resumption_secret@,
                bytes_of(sealed),
            ),
    {
        let binder: [u8; 32] = derive_resumption_binder(
            resumption_secret,
            &resume_session_id,
            &self.nonce,
        );
        ClientHello {
            client_key_package: self.kem_public.copy(),
            client_verify_key: self.verifying_key.copy(),
            nonce: self.nonce,
            version: PROTOCOL_VERSION,
            cookie: None,
            pow_solution: None,
            resume_session_id: Some(resume_session_id),
            resumption_binder: Some(binder),
            protocol_variant: protocol_variant(),
            early_data: sealed,
        }
    }

    /// Check a server's answer and set up the session. `verified` says whether the signature
    /// of the claimed transcript holds, `secret` is what decapsulating gave, and `keys` says
    /// whether the traffic keys could be made. The second part of the result is whether early
    /// data was accepted, if any was sent.
    pub fn process_server_hello(
        &mut self,
        client_hello: &ClientHello,
        server_hello: &ServerHello,
        expected_server_key: Option<&HybridVerifyingKey>,
        verified: Result<(), String>,
        secret: Result<[u8; 32], String>,
        keys: Result<(), String>,
    ) -> (r: Result<(Session, Option<bool>), HandshakeError>)
        ensures
            r is Ok <==> trusted_answer(
                match expected_server_key {
                    Some(k) => Some(k@),
                    None => None,
                },
                client_hello@,
                server_hello@,
                verified is Ok,
                secret is Ok,
                keys is Ok,
            ),
            r is Err ==> final(self)@ == old(self)@,
            r is Ok ==> final(self)@ == (ClientState {
                stage: HandshakeStage::Established,
                ..old(self)@
            }),
            ({
                let pinned_other = expected_server_key matches Some(k) && k@ != server_hello@.key;
                if pinned_other {
                    r == Err::<(Session, Option<bool>), HandshakeError>(
                        HandshakeError::ServerIdentityMismatch,
                    )
                } else if !claimed_transcript(client_hello@, server_hello@).fits() {
                    r matches Err(e) && serialization_error(e, "invalid data"@)
                } else if verified is Err {
                    r matches Err(HandshakeError::KemFailed(m)) && m@ == "Signature check failed: "@
                        + verified->Err_0@
                } else if secret is Err {
                    r matches Err(HandshakeError::KemFailed(m)) && m@ == secret->Err_0@
                } else if keys is Err {
                    r matches Err(HandshakeError::KemFailed(m)) && m@ == keys->Err_0@
                } else {
                    r matches Ok((session, accepted)) && client_session(
                        session,
                        server_hello@,
                        secret->Ok_0,
                    ) && accepted == (if client_hello@.early is Some {
                        Some(server_hello@.early_data_accepted)
                    } else {
                        None
                    })
                }
            }),
    {
        if let Some(expected) = expected_server_key {
            if !expected.same(&server_hello.server_verify_key) {
                return Err(HandshakeError::ServerIdentityMismatch);
            }
        }
        if let Err(e) = server_hello_transcript_hash(client_hello, server_hello) {
            return Err(e);
        }
        if let Err(why) = verified {
            let mut m: String = "Signature check failed: ".to_owned();
            m.append(why.as_str());
            return Err(HandshakeError::KemFailed(m));
        }
        let shared_secret: [u8; 32] = match secret {
            Ok(s) => s,
            Err(why) => {
                return Err(HandshakeError::KemFailed(why));
            },
        };
        if let Err(why) = keys {
            return Err(HandshakeError::KemFailed(why));
        }
        let mut session: Session = Session::from_derived(
            SessionId::from_bytes(server_hello.session_id),
            SchedulerMode::LowLatency,
            shared_secret,
            false,
        );
        session.set_resumption_secret(derive_resumption_secret(&shared_secret));
        self.stage = HandshakeStage::Established;
        let verdict: Option<bool> = if client_hello.early_data.is_some() {
            Some(server_hello.early_data_accepted)
        } else {
            None
        };
        Ok((session, verdict))
    }

    /// Queue early data.
    pub fn queue_early_data(&mut self, data: Vec<u8>)
        ensures
            final(self)@ == (ClientState { queued: old(self)@.queued.push(data@), ..old(self)@ }),
    {
        let ghost before = self.early_data@;
        self.early_data.push(data);
        assert(contents(self.early_data@) =~= contents(before).push(data@));
    }

    /// Take the queued early data.
    pub fn take_early_data(&mut self) -> (data: Vec<Vec<u8>>)
        ensures
            contents(data@) == old(self)@.queued,
            final(self)@ == (ClientState { queued: Seq::empty(), ..old(self)@ }),
    {
        let mut data: Vec<Vec<u8>> = Vec::new();
        std::mem::swap(&mut data, &mut self.early_data);
        assert(contents(self.early_data@) =~= Seq::empty());
        data
    }

    /// How far the handshake is.
    pub fn stage(&self) -> (s: HandshakeStage)
        ensures
            s == self@.stage,
    {
        self.stage
    }
}

/// Both ends agree: a client that takes the answer of a server with the secret that the
/// server encapsulated has the same session identifier, traffic secret and resumption
/// secret as the server.
pub proof fn law_both_ends_agree(
    client: Session,
    server: Session,
    answer: ServerHelloView,
    u: UnsignedHello,
)
    requires
        server_session(u, server),
        answer.session_id == u.session_id@,
        client_session(client, answer, u.shared_secret),
    ensures
        client.id.0@ == server.id.0@,
        client.traffic_secret == server.traffic_secret,
        client.resumption_secret->0@ == server.resumption_secret->0@,
{
}

/// A resuming hello claims the ticket that the server keeps of the session, for as long as
/// the ticket is good.
pub proof fn law_resuming_hello_claims_its_ticket(
    c: ClientState,
    tickets: Seq<ResumptionTicket>,
    ticket: ResumptionTicket,
    sealed: Option<Seq<u8>>,
    now_ms: u64,
)
    requires
        ticket_of(tickets, ticket.id@) == Some(ticket),
        now_ms < ticket.expires_at,
    ensures
        claimable(
            tickets,
            resuming_hello(c, ticket.id@, ticket.secret@, sealed),
            now_ms,
        ) == Some(ticket),
{
}

/// Early data is opened as it was sealed: of a server that takes early data and admits the
/// resuming hello, the job to open has the secret, the nonce and the bound data of the
/// client's job to seal, and carries what was sealed.
pub proof fn law_early_data_is_opened_as_sealed(
    c: ClientState,
    s: ServerState,
    ticket: ResumptionTicket,
    sealing: EarlyDataJob,
    plain: Seq<u8>,
    sealed: Seq<u8>,
    admitted: AdmittedHello,
)
    requires
        early_job(sealing, ticket.secret@, c.nonce, ticket.id@, plain),
        s.early_data_enabled,
        may_open(sealed.len()),
        admits(
            admitted,
            s,
            resuming_hello(c, ticket.id@, ticket.secret@, Some(sealed)),
            Some(ticket),
        ),
    ensures
        admitted.early_data matches Some(opening) && opening.secret@ == sealing.secret@
            && opening.client_nonce@ == sealing.client_nonce@ && opening.aad@ == sealing.aad@
            && opening.text@ == sealed,
{
}

/// The server signs what the client checks: the transcript of an answer is the one that the
/// answer claims, for the hello that was sent.
pub proof fn law_signed_transcript_is_claimed(
    s: ServerState,
    hello: HelloView,
    answer: ServerHelloView,
    secret: Seq<u8>,
)
    requires
        answer.key == s.key,
        answer.session_id == session_id_of(secret, hello.nonce),
    ensures
        claimed_transcript(hello, answer) == answer_transcript(
            s,
            hello,
            answer.server_nonce,
            secret,
            answer.ciphertext,
            answer.early_data_accepted,
        ),
{
}

/// Whom a client trusts: an answer under another key than the pinned one, without a signature that holds,
/// or without a secret is never accepted; and an answer with all of them is.
pub proof fn law_only_signed_answers_are_trusted(
    pinned: Option<Halves>,
    hello: HelloView,
    answer: ServerHelloView,
    verified: bool,
    decapsulated: bool,
    keyed: bool,
)
    ensures
        ({
            let good = trusted_answer(pinned, hello, answer, verified, decapsulated, keyed);
            &&& good ==> verified && decapsulated && keyed
            &&& pinned is Some && pinned->0 != answer.key ==> !good
            &&& verified && decapsulated && keyed && (pinned is None || pinned->0 == answer.key)
                && hello.fits() && answer.ciphertext.1.len() < 4294967296 && answer.key.1.len()
                < 4294967296 ==> good
        }),
{
}

/// What a client says. Its hello has its keys, its nonce, version 3 and the variant of the build; it asks
/// for no resumption unless it resumes, and then names the session and proves its secret.
pub proof fn law_what_a_hello_says(
    c: ClientState,
    session_id: Seq<u8>,
    secret: Seq<u8>,
    sealed: Option<Seq<u8>>,
)
    ensures
        ({
            let p = plain_hello(c);
            let r = resuming_hello(c, session_id, secret, sealed);
            &&& p.kem == c.kem && p.key == c.key && p.nonce == c.nonce && p.version == 3
            &&& p.variant == "phantom-default-1"@.map_values(|x: char| x as u8)
            &&& p.cookie is None && p.pow is None && p.resume is None && p.binder is None && p.early
                is None
            &&& r == (HelloView {
                resume: Some(session_id),
                binder: Some(
                    crate::hash::blake3_key_of(
                        "phantom-resume-binder-v1"@,
                        secret + session_id + c.nonce,
                    ),
                ),
                early: sealed,
                ..p
            })
        }),
{
    crate::handshake::messages::law_protocol_constants(plain_hello(c));
}

/// What a client ends up with: the session of the answer, with the secret that was decapsulated, the
/// client's role, and the secret that it can be resumed with. The transcript that it checks holds its own
/// hello and every field of the answer.
pub proof fn law_client_session_is_of_the_exchange(
    s: Session,
    hello: HelloView,
    answer: ServerHelloView,
    secret: [u8; 32],
)
    requires
        client_session(s, answer, secret),
    ensures
        s.id.0@ == answer.session_id,
        s.traffic_secret == secret,
        s.role == SessionRole::Client,
        s.scheduler_mode == SchedulerMode::LowLatency,
        s.resumption_secret is Some,
        s.resumption_secret->0@ == crate::hash::hkdf_sha256_of(
            secret@,
            "phantom-resumption-secret-v1"@.map_values(|c: char| c as u8),
        ),
        ({
            let t = claimed_transcript(hello, answer);
            &&& t.hello == hello
            &&& t.server_nonce == answer.server_nonce && t.ciphertext == answer.ciphertext
            &&& t.server_key == answer.key && t.session_id == answer.session_id
            &&& t.early_data_accepted == answer.early_data_accepted
        }),
{
    crate::handshake::resumption::law_labels_are_texts();
}

} // verus!
