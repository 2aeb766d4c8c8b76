//! The server's side of the handshake.
//!
//! `process_client_hello` admits a hello or answers it at once. For an admitted one the
//! caller encapsulates a secret to the client and opens its early data; `answer_hello` turns
//! that into a transcript to sign, and `finish_hello` makes the answer and the session of
//! the signature.

use crate::codec::fits;
use crate::constant_time::ct_eq;
use crate::handshake::cookie::{
    bucket_of, cookie_accepted, cookie_of, derive_session_secret_for_hour, generate_cookie,
    hour_of, hour_secret, previous, validate_cookie, SECRET_ROTATION_SECONDS,
};
use crate::handshake::error::HandshakeError;
use crate::handshake::messages::{
    protocol_variant, reject_marker, retry_view, serialization_error, variant_tag, ClientHello,
    HelloRetryRequest, HelloView, ReplyView, ServerHello, ServerReject, PROTOCOL_VERSION,
    REJECT_UNSUPPORTED_VERSION,
};
use crate::handshake::resumption::{
    binder_of, derive_resumption_binder, derive_resumption_secret, derive_session_id, early_data_job,
    early_job, may_open, resumption_secret_of, session_id_of, EarlyDataJob,
};
use crate::handshake::messages::EARLY_DATA_MAX_LEN;
use crate::handshake::transcript::{compute_transcript_hash, Transcript};
use crate::hybrid::{
    Halves, HybridCiphertext, HybridSignature, HybridVerifyingKey, PoWChallenge, PoWSolution,
};
use crate::random::random_array;
use crate::reputation::{difficulty_at, recent_only, violated, ReputationTracker, Violations};
use crate::session::{Session, SessionRole};
use crate::session_cache::{
    new_ticket, put, ticket_of, valid_ticket, without, ResumptionTicket, SessionCache,
};
use crate::types::{CipherSuite, ClientIp, SchedulerMode, SessionId};
use crate::wire::{copy_bytes, same_bytes};
use vstd::prelude::*;

verus! {

/// The clocks at one instant.
#[derive(Debug, Clone, Copy)]
pub struct Now {
    /// Seconds since the Unix epoch; `None` for a clock before it.
    pub unix_secs: Option<u64>,
    /// Milliseconds on a clock that never goes back.
    pub mono_ms: u64,
}

impl Now {
    /// The seconds, or zero for a clock before the epoch.
    pub open spec fn secs_or_zero(self) -> u64 {
        match self.unix_secs {
            Some(t) => t,
            None => 0,
        }
    }
}

/// A store that the nodes of a server share, to see a ticket used on another node.
pub trait ZeroRttAntiReplay {
    /// Record the first use of a ticket. `true` when this call is the first use.
    fn check_and_set(&self, ticket_id: &[u8; 32]) -> bool;
}

/// The store of a server of one node, which sees every use itself.
#[derive(Debug, Clone, Copy)]
pub struct NoSharedStore;

impl ZeroRttAntiReplay for NoSharedStore {
    fn check_and_set(&self, ticket_id: &[u8; 32]) -> (first: bool)
        ensures
            first,
    {
        true
    }
}

/// What came of a hello.
#[derive(Debug)]
pub enum HandshakeResponse {
    /// The answer to send, the session, and the early data that was accepted.
    Success(ServerHello, Session, Option<Vec<u8>>),
    Retry(HelloRetryRequest),
    Reject(ServerReject),
    Fail(HandshakeError),
}

/// Whether a datagram's sender may take a slot.
#[derive(Debug)]
pub enum UdpAdmit {
    /// The cookie is good.
    Admit,
    /// Send this demand for a cookie; take no slot.
    Retry(HelloRetryRequest),
    /// No cookie can be made; say nothing.
    Drop,
}

/// What has to be asked of the proof-of-work engine.
#[derive(Debug)]
pub enum PowJob {
    NotNeeded,
    /// Verify the solution of the challenge, for this address and under each of the secrets.
    Verify {
        challenge: PoWChallenge,
        solution: PoWSolution,
        address: Vec<u8>,
        secrets: Vec<[u8; 32]>,
    },
    /// Make a challenge of this difficulty, for this address and under the secret.
    Issue { difficulty: u8, address: Vec<u8>, secret: [u8; 32] },
}

/// What the proof-of-work engine said.
#[derive(Debug)]
pub enum PowAnswer {
    Nothing,
    /// Whether the solution holds, for each secret.
    Verified(Vec<bool>),
    Issued(PoWChallenge),
}

/// Whether one of the verdicts is good.
pub open spec fn any_good(v: Seq<bool>) -> bool {
    exists|i: int| 0 <= i < v.len() && #[trigger] v[i]
}

/// What admission decides.
pub enum Gate {
    Pass,
    Retry { challenge: Option<(Seq<u8>, u8)>, cookie: Option<Seq<u8>> },
    ClockFault,
}

/// Whether the hello's proof of work is in order.
pub open spec fn pow_in_order(hello: HelloView, difficulty: u8, answer: PowAnswer) -> bool {
    difficulty == 0 || (hello.pow is Some && (answer matches PowAnswer::Verified(v) && any_good(
        v@,
    )))
}

/// Whether the hello's cookie is in order at `now`.
pub open spec fn cookie_in_order(master: Seq<u8>, hello: HelloView, ip: Seq<u8>, now: u64) -> bool {
    hello.cookie matches Some(c) && cookie_accepted(master, ip, c, now)
}

/// Admission: a client proves that it receives at its address and, under load, that it did
/// some work. A valid resumption ticket bypasses it.
pub open spec fn gate(
    master: Seq<u8>,
    hello: HelloView,
    difficulty: u8,
    ip: Seq<u8>,
    now: Option<u64>,
    bypass: bool,
    answer: PowAnswer,
) -> Gate {
    match now {
        None => Gate::ClockFault,
        Some(t) => {
            let cookie_valid = cookie_in_order(master, hello, ip, t);
            if !bypass && (!cookie_valid || !pow_in_order(hello, difficulty, answer)) {
                Gate::Retry {
                    challenge: if difficulty > 0 && hello.pow is None {
                        match answer {
                            PowAnswer::Issued(c) => Some((c.nonce@, c.difficulty)),
                            _ => None,
                        }
                    } else {
                        None
                    },
                    cookie: if cookie_valid {
                        None
                    } else {
                        Some(cookie_of(master, ip, hour_of(t), bucket_of(t)))
                    },
                }
            } else {
                Gate::Pass
            }
        },
    }
}

/// Whether a response is what admission decided.
pub open spec fn says_gate(r: HandshakeResponse, g: Gate) -> bool {
    match g {
        Gate::Pass => false,
        Gate::Retry { challenge, cookie } => r matches HandshakeResponse::Retry(q) && retry_view(q)
            == (ReplyView::Retry { challenge, cookie }),
        Gate::ClockFault => r == HandshakeResponse::Fail(HandshakeError::ClockBackwards),
    }
}

/// The ticket that a hello may claim: it names a session whose ticket is good, and its
/// binder shows that the client holds the secret of that ticket.
pub open spec fn claimable(tickets: Seq<ResumptionTicket>, hello: HelloView, now_ms: u64) -> Option<
    ResumptionTicket,
> {
    match hello.resume {
        Some(rid) => match valid_ticket(tickets, rid, now_ms) {
            Some(t) => if hello.binder == Some(binder_of(t.secret@, rid, hello.nonce)) {
                Some(t)
            } else {
                None
            },
            None => None,
        },
        None => None,
    }
}

/// The tickets after a hello claimed the one that it may.
pub open spec fn after_claim(
    tickets: Seq<ResumptionTicket>,
    hello: HelloView,
    now_ms: u64,
) -> Seq<ResumptionTicket> {
    match claimable(tickets, hello, now_ms) {
        Some(_) => without(tickets, hello.resume->0),
        None => tickets,
    }
}

/// The tickets after a failure: a claimed ticket is put back.
pub open spec fn handed_back(
    tickets: Seq<ResumptionTicket>,
    capacity: nat,
    resumed: Option<ResumptionTicket>,
) -> Seq<ResumptionTicket> {
    match resumed {
        Some(t) => put(tickets, capacity, t),
        None => tickets,
    }
}

/// The difficulty for a number of handshakes in a minute.
pub open spec fn load_difficulty(count: u64) -> u8 {
    if count < 100 {
        0
    } else if count < 500 {
        4
    } else if count < 2000 {
        8
    } else if count < 10000 {
        12
    } else {
        16
    }
}

/// What a server holds.
#[verifier::ext_equal]
pub struct ServerState {
    pub key: Halves,
    pub master: Seq<u8>,
    /// Hellos since `minute_start`.
    pub count: u64,
    pub minute_start: u64,
    pub tickets: Seq<ResumptionTicket>,
    pub capacity: nat,
    pub violations: Violations,
    pub violations_capacity: nat,
    pub early_data_enabled: bool,
    /// Whether a shared store is asked about tickets.
    pub shared_store: bool,
}

/// The state after a hello was counted.
pub open spec fn counted(s: ServerState, now: u64) -> ServerState {
    if now - s.minute_start >= 60 {
        ServerState { count: 1, minute_start: now, ..s }
    } else {
        ServerState { count: s.count.wrapping_add(1), ..s }
    }
}

/// What becomes of a hello before any key exchange.
pub enum Admission {
    VariantMismatch,
    UnknownVersion,
    Stopped(Gate),
    /// The hello is admitted, with the ticket that it claimed.
    Admitted(Option<ResumptionTicket>),
}

/// The admission of a hello, where `first_use` is what the shared store says of its ticket.
pub open spec fn admission(
    s: ServerState,
    hello: HelloView,
    difficulty: u8,
    ip: Seq<u8>,
    now: Now,
    answer: PowAnswer,
    first_use: bool,
) -> Admission {
    let resumed = if first_use {
        claimable(s.tickets, hello, now.mono_ms)
    } else {
        None
    };
    if hello.variant != variant_tag() {
        Admission::VariantMismatch
    } else if hello.version != PROTOCOL_VERSION {
        Admission::UnknownVersion
    } else {
        match gate(s.master, hello, difficulty, ip, now.unix_secs, resumed is Some, answer) {
            Gate::Pass => Admission::Admitted(resumed),
            g => Admission::Stopped(g),
        }
    }
}

/// The ticket that the shared store is asked about: the one that a hello of this protocol may
/// claim.
pub open spec fn asked_ticket(s: ServerState, hello: HelloView, now_ms: u64) -> Option<
    ResumptionTicket,
> {
    if hello.variant == variant_tag() && hello.version == PROTOCOL_VERSION {
        claimable(s.tickets, hello, now_ms)
    } else {
        None
    }
}

/// Whether `first_use` is what comes of asking the shared store about a ticket. Where there
/// is no store or no ticket, nothing is asked.
pub open spec fn store_says<S: ZeroRttAntiReplay>(
    store: Option<S>,
    ticket: Option<ResumptionTicket>,
    first_use: bool,
) -> bool {
    match (ticket, store) {
        (Some(t), Some(s)) => call_ensures(S::check_and_set, (&s, &t.id), first_use),
        _ => first_use,
    }
}

/// The server after the admission of a hello.
pub open spec fn after_admission(
    s: ServerState,
    hello: HelloView,
    difficulty: u8,
    ip: Seq<u8>,
    now: Now,
    answer: PowAnswer,
    first_use: bool,
) -> ServerState {
    let c = counted(s, now.secs_or_zero());
    let resumed = if first_use {
        claimable(s.tickets, hello, now.mono_ms)
    } else {
        None
    };
    match admission(s, hello, difficulty, ip, now, answer, first_use) {
        Admission::VariantMismatch => c,
        Admission::UnknownVersion => c,
        Admission::Stopped(_) => ServerState {
            tickets: handed_back(
                after_claim(s.tickets, hello, now.mono_ms),
                s.capacity,
                resumed,
            ),
            ..c
        },
        Admission::Admitted(_) => ServerState {
            tickets: after_claim(s.tickets, hello, now.mono_ms),
            ..c
        },
    }
}

/// An admitted hello.
#[derive(Debug)]
pub struct AdmittedHello {
    /// The ticket that the hello claimed.
    pub resumed: Option<ResumptionTicket>,
    /// The early data to open.
    pub early_data: Option<EarlyDataJob>,
}

/// Whether the early data of a hello is to be opened: the server takes early data, the
/// hello resumed a session, and the sealed data is short enough.
pub open spec fn opens_early_data(
    s: ServerState,
    hello: HelloView,
    resumed: Option<ResumptionTicket>,
) -> bool {
    &&& s.early_data_enabled
    &&& resumed is Some
    &&& hello.early matches Some(e) && may_open(e.len())
}

/// Whether `a` is the admission of `hello` with this ticket.
pub open spec fn admits(
    a: AdmittedHello,
    s: ServerState,
    hello: HelloView,
    resumed: Option<ResumptionTicket>,
) -> bool {
    &&& a.resumed == resumed
    &&& a.early_data is Some <==> opens_early_data(s, hello, resumed)
    &&& a.early_data matches Some(j) ==> early_job(
        j,
        resumed->0.secret@,
        hello.nonce,
        resumed->0.id@,
        hello.early->0,
    )
}

/// What follows from a hello.
#[derive(Debug)]
pub enum HelloStep {
    /// The hello is answered.
    Answer(HandshakeResponse),
    /// The hello is admitted: encapsulate a secret, and open the early data if there is any.
    Admitted(AdmittedHello),
}

/// Whether a step is what the admission calls for.
pub open spec fn says_admission(
    step: HelloStep,
    s: ServerState,
    hello: HelloView,
    a: Admission,
) -> bool {
    match a {
        Admission::VariantMismatch => step matches HelloStep::Answer(HandshakeResponse::Fail(
            HandshakeError::ProtocolVariantMismatch { expected, received },
        )) && expected@ == variant_tag() && received@ == hello.variant,
        Admission::UnknownVersion => step matches HelloStep::Answer(HandshakeResponse::Reject(r))
            && r.marker@ == reject_marker() && r.code == REJECT_UNSUPPORTED_VERSION
            && r.supported_version == PROTOCOL_VERSION,
        Admission::Stopped(g) => step matches HelloStep::Answer(r) && says_gate(r, g),
        Admission::Admitted(resumed) => step matches HelloStep::Admitted(h) && admits(
            h,
            s,
            hello,
            resumed,
        ),
    }
}

/// An answer that lacks its signature.
#[derive(Debug)]
pub struct UnsignedHello {
    /// What is to be signed.
    pub transcript_hash: [u8; 32],
    pub server_nonce: [u8; 32],
    pub ciphertext: HybridCiphertext,
    pub session_id: [u8; 32],
    pub shared_secret: [u8; 32],
    /// The early data that was accepted.
    pub early_data: Option<Vec<u8>>,
    /// The ticket that the hello claimed.
    pub resumed: Option<ResumptionTicket>,
}

/// What follows from a key exchange.
#[derive(Debug)]
pub enum SignStep {
    /// The handshake failed.
    Answer(HandshakeResponse),
    /// Sign the transcript.
    Sign(UnsignedHello),
}

/// The early data that is accepted: what was opened, if it was to be opened.
pub open spec fn accepted_early_data(a: AdmittedHello, opened: Option<Vec<u8>>) -> Option<Seq<u8>> {
    match opened {
        Some(p) => if a.early_data is Some {
            Some(p@)
        } else {
            None
        },
        None => None,
    }
}

/// The transcript of an answer.
pub open spec fn answer_transcript(
    s: ServerState,
    hello: HelloView,
    server_nonce: Seq<u8>,
    secret: Seq<u8>,
    ciphertext: Halves,
    accepted: bool,
) -> Transcript {
    Transcript {
        hello,
        server_nonce,
        ciphertext,
        server_key: s.key,
        session_id: session_id_of(secret, hello.nonce),
        early_data_accepted: accepted,
    }
}

/// Whether the byte strings of an answer fit the layout of the transcript.
pub open spec fn answer_fits(s: ServerState, hello: HelloView, ciphertext: Halves) -> bool {
    hello.fits() && fits(ciphertext.1) && fits(s.key.1)
}

/// Whether `u` is the unsigned answer to an admitted hello.
pub open spec fn unsigned_answer(
    u: UnsignedHello,
    s: ServerState,
    hello: HelloView,
    a: AdmittedHello,
    opened: Option<Vec<u8>>,
    secret: [u8; 32],
    ciphertext: Halves,
    server_nonce: [u8; 32],
) -> bool {
    let early = accepted_early_data(a, opened);
    &&& u.server_nonce == server_nonce
    &&& u.ciphertext@ == ciphertext
    &&& u.shared_secret == secret
    &&& u.session_id@ == session_id_of(secret@, hello.nonce)
    &&& u.early_data is Some <==> early is Some
    &&& u.early_data matches Some(p) ==> Some(p@) == early
    &&& u.resumed == a.resumed
    &&& u.transcript_hash@ == answer_transcript(
        s,
        hello,
        server_nonce@,
        secret@,
        ciphertext,
        early is Some,
    ).digest()
}

/// The session that a server sets up.
pub open spec fn server_session(u: UnsignedHello, session: Session) -> bool {
    &&& session.id.0 == u.session_id
    &&& session.scheduler_mode == SchedulerMode::LowLatency
    &&& session.traffic_secret == u.shared_secret
    &&& session.role == SessionRole::Server
    &&& session.resumption_secret matches Some(r) && r@ == resumption_secret_of(u.shared_secret@)
}

/// The server of handshakes. A server of several nodes is made with the type of the store
/// that they share.
pub struct HandshakeServer<S: ZeroRttAntiReplay = NoSharedStore> {
    verifying_key: HybridVerifyingKey,
    master_secret: [u8; 32],
    handshakes_this_minute: u64,
    minute_start_unix_sec: u64,
    session_cache: SessionCache,
    reputation: ReputationTracker,
    early_data_enabled: bool,
    anti_replay: Option<S>,
}

impl<S: ZeroRttAntiReplay> View for HandshakeServer<S> {
    type V = ServerState;

    closed spec fn view(&self) -> ServerState {
        ServerState {
            key: self.verifying_key@,
            master: self.master_secret@,
            count: self.handshakes_this_minute,
            minute_start: self.minute_start_unix_sec,
            tickets: self.session_cache@,
            capacity: self.session_cache.spec_capacity(),
            violations: self.reputation@,
            violations_capacity: self.reputation.capacity(),
            early_data_enabled: self.early_data_enabled,
            shared_store: self.anti_replay is Some,
        }
    }
}

/// The state of a server that was just made.
pub open spec fn fresh_server(s: ServerState, key: Halves, now: Now) -> bool {
    &&& s.key == key
    &&& s.master.len() == 32
    &&& s.count == 0
    &&& s.minute_start == now.secs_or_zero()
    &&& s.tickets.len() == 0
    &&& s.capacity == crate::session_cache::DEFAULT_CAPACITY
    &&& s.violations == crate::reputation::no_violations()
    &&& s.violations_capacity == crate::reputation::DEFAULT_MAX_ENTRIES
    &&& s.early_data_enabled
    &&& !s.shared_store
}

impl<S: ZeroRttAntiReplay> HandshakeServer<S> {
    /// The store that the nodes share, if there is one.
    pub closed spec fn spec_store(&self) -> Option<S> {
        self.anti_replay
    }

    /// A server that signs under `verifying_key`, with a fresh master secret. Fails when the
    /// operating system has no random bytes.
    pub fn new(verifying_key: HybridVerifyingKey, now: Now) -> (r: Result<Self, HandshakeError>)
        ensures
            match r {
                Ok(server) => fresh_server(server@, verifying_key@, now),
                Err(e) => e is RngError,
            },
    {
        match random_array::<32>() {
            Ok(master) => Ok(HandshakeServer::with_master_secret(verifying_key, master, now)),
            Err(_) => Err(rng_failure()),
        }
    }

    /// A server that signs under `verifying_key`, with this master secret.
    pub fn with_master_secret(
        verifying_key: HybridVerifyingKey,
        master_secret: [u8; 32],
        now: Now,
    ) -> (server: Self)
        ensures
            fresh_server(server@, verifying_key@, now),
            server@.master == master_secret@,
    {
        HandshakeServer {
            verifying_key,
            master_secret,
            handshakes_this_minute: 0,
            minute_start_unix_sec: match now.unix_secs {
                Some(t) => t,
                None => 0,
            },
            session_cache: SessionCache::new(),
            reputation: ReputationTracker::new(),
            early_data_enabled: true,
            anti_replay: None,
        }
    }

    /// Take early data, or refuse it and let the client send it again.
    pub fn set_early_data_enabled(&mut self, enabled: bool)
        ensures
            final(self).spec_store() == old(self).spec_store(),
            final(self)@ == (ServerState { early_data_enabled: enabled, ..old(self)@ }),
    {
        self.early_data_enabled = enabled;
    }

    /// Whether early data is taken.
    pub fn early_data_enabled(&self) -> (b: bool)
        ensures
            b == self@.early_data_enabled,
    {
        self.early_data_enabled
    }

    /// Ask this store about the first use of tickets.
    pub fn set_zero_rtt_anti_replay(&mut self, store: S)
        ensures
            final(self)@ == (ServerState { shared_store: true, ..old(self)@ }),
            final(self).spec_store() == Some(store),
    {
        self.anti_replay = Some(store);
    }

    fn record_handshake(&mut self, now: &Now)
        ensures
            final(self).spec_store() == old(self).spec_store(),
            final(self)@ == counted(old(self)@, now.secs_or_zero()),
    {
        let secs: u64 = match now.unix_secs {
            Some(t) => t,
            None => 0,
        };
        if secs.saturating_sub(self.minute_start_unix_sec) >= 60 {
            self.handshakes_this_minute = 0;
            self.minute_start_unix_sec = secs;
        }
        self.handshakes_this_minute = self.handshakes_this_minute.wrapping_add(1);
    }

    /// The difficulty for the present load.
    pub fn adaptive_difficulty(&self) -> (d: u8)
        ensures
            d == load_difficulty(self@.count),
    {
        let count: u64 = self.handshakes_this_minute;
        if count <= 99 {
            0
        } else if count <= 499 {
            4
        } else if count <= 1999 {
            8
        } else if count <= 9999 {
            12
        } else {
            16
        }
    }

    /// The hellos of this minute.
    pub fn handshakes_this_minute(&self) -> (n: u64)
        ensures
            n == self@.count,
    {
        self.handshakes_this_minute
    }

    /// The difficulty that an address pays for its violations; none with a ticket.
    pub fn reputation_difficulty(&self, client_ip: &ClientIp, has_ticket: bool, now: &Now) -> (d:
        u8)
        ensures
            d == (if has_ticket {
                0
            } else {
                difficulty_at(self@.violations, client_ip.spec_key(), now.secs_or_zero())
            }),
    {
        self.reputation.calculate_difficulty(client_ip, has_ticket, secs_or_zero(now))
    }

    /// Record a violation of an address.
    pub fn record_violation(&mut self, client_ip: &ClientIp, now: &Now)
        ensures
            final(self).spec_store() == old(self).spec_store(),
            final(self)@ == (ServerState {
                violations: violated(
                    old(self)@.violations,
                    old(self)@.violations_capacity,
                    client_ip.spec_key(),
                    now.secs_or_zero(),
                ),
                ..old(self)@
            }),
    {
        self.reputation.record_violation(client_ip, secs_or_zero(now));
    }

    /// Forget the violations of an address.
    pub fn reset_violations(&mut self, client_ip: &ClientIp)
        ensures
            final(self).spec_store() == old(self).spec_store(),
            final(self)@ == (ServerState {
                violations: old(self)@.violations.remove(client_ip.spec_key()),
                ..old(self)@
            }),
    {
        self.reputation.reset_violations(client_ip);
    }

    /// Drop violations that no longer count.
    pub fn gc_reputation(&mut self, now: &Now)
        ensures
            final(self).spec_store() == old(self).spec_store(),
            final(self)@ == (ServerState {
                violations: recent_only(old(self)@.violations, now.secs_or_zero()),
                ..old(self)@
            }),
    {
        self.reputation.gc(secs_or_zero(now));
    }

    /// The verifying key.
    pub fn verifying_key(&self) -> (k: &HybridVerifyingKey)
        ensures
            k@ == self@.key,
    {
        &self.verifying_key
    }

    /// The number of tickets.
    pub fn session_cache_len(&self) -> (n: usize)
        ensures
            n == self@.tickets.len(),
    {
        self.session_cache.len()
    }

    /// Whether the sender of a datagram may take a slot: only with a good cookie, also when
    /// it resumes a session.
    pub fn udp_admit(&self, client_hello: &ClientHello, client_ip: &ClientIp, now: &Now) -> (a:
        UdpAdmit)
        ensures
            match now.unix_secs {
                None => a is Drop,
                Some(t) => if cookie_in_order(self@.master, client_hello@, client_ip.text@, t) {
                    a is Admit
                } else {
                    a matches UdpAdmit::Retry(q) && retry_view(q) == (ReplyView::Retry {
                        challenge: None,
                        cookie: Some(
                            cookie_of(
                                self@.master,
                                client_ip.text@,
                                hour_of(t),
                                bucket_of(t),
                            ),
                        ),
                    })
                },
            },
    {
        let cookie_valid: bool = match &client_hello.cookie {
            Some(c) => match validate_cookie(&self.master_secret, client_ip, c, now.unix_secs) {
                Ok(v) => v,
                Err(_) => false,
            },
            None => false,
        };
        if cookie_valid {
            return UdpAdmit::Admit;
        }
        match generate_cookie(&self.master_secret, client_ip, now.unix_secs) {
            Ok(cookie) => UdpAdmit::Retry(
                HelloRetryRequest { challenge: None, cookie: Some(cookie) },
            ),
            Err(_) => UdpAdmit::Drop,
        }
    }

    /// The ticket that a hello may claim, compared in constant time.
    fn peek_claim(&self, hello: &ClientHello, now_ms: u64) -> (t: Option<ResumptionTicket>)
        ensures
            t == claimable(self@.tickets, hello@, now_ms),
    {
        match &hello.resume_session_id {
            Some(rid) => match self.session_cache.peek(rid, now_ms) {
                Some(t) => match &hello.resumption_binder {
                    Some(presented) => {
                        let expected: [u8; 32] = derive_resumption_binder(
                            &t.secret,
                            rid,
                            &hello.nonce,
                        );
                        if ct_eq(presented.as_slice(), expected.as_slice()) {
                            Some(t)
                        } else {
                            None
                        }
                    },
                    None => None,
                },
                None => None,
            },
            None => None,
        }
    }

    /// Whether a hello names a session whose ticket is good and shows that the client holds
    /// its secret. The ticket stays.
    pub fn has_valid_resume(&self, client_hello: &ClientHello, now: &Now) -> (b: bool)
        ensures
            b == (claimable(self@.tickets, client_hello@, now.mono_ms) is Some),
    {
        self.peek_claim(client_hello, now.mono_ms).is_some()
    }

    /// Take the ticket that a hello may claim out of the cache.
    fn claim_ticket(&mut self, hello: &ClientHello, now_ms: u64) -> (t: Option<ResumptionTicket>)
        ensures
            final(self).spec_store() == old(self).spec_store(),
            t == claimable(old(self)@.tickets, hello@, now_ms),
            final(self)@ == (ServerState {
                tickets: after_claim(old(self)@.tickets, hello@, now_ms),
                ..old(self)@
            }),
    {
        let claim: Option<ResumptionTicket> = self.peek_claim(hello, now_ms);
        if claim.is_some() {
            if let Some(rid) = &hello.resume_session_id {
                self.session_cache.remove(rid);
            }
        }
        claim
    }

    /// What the shared store says of a ticket; without a store every use is a first one.
    fn is_first_use(&self, ticket: &Option<ResumptionTicket>) -> (b: bool)
        ensures
            store_says(self.spec_store(), *ticket, b),
    {
        match ticket {
            Some(t) => match &self.anti_replay {
                Some(store) => store.check_and_set(&t.id),
                None => true,
            },
            None => true,
        }
    }

    /// What has to be asked of the proof-of-work engine about a hello. A solution counts
    /// under the secret of this hour and of the one before.
    pub fn pow_job(
        &self,
        client_hello: &ClientHello,
        difficulty: u8,
        client_ip: &ClientIp,
        now: &Now,
    ) -> (r: Result<PowJob, HandshakeError>)
        ensures
            difficulty == 0 ==> r == Ok::<PowJob, HandshakeError>(PowJob::NotNeeded),
            difficulty > 0 ==> match now.unix_secs {
                None => r == Err::<PowJob, HandshakeError>(HandshakeError::ClockBackwards),
                Some(t) => match client_hello.pow_solution {
                    Some(sol) => r matches Ok(
                        PowJob::Verify { challenge, solution, address, secrets },
                    ) && challenge == (PoWChallenge { nonce: sol.nonce, difficulty }) && solution
                        == sol && address@ == client_ip.text@ && secrets@.len() == (if hour_of(t) == 0 {
                        1int
                    } else {
                        2
                    }) && secrets@[0]@ == hour_secret(self@.master, hour_of(t)) && (hour_of(t) > 0
                        ==> secrets@[1]@ == hour_secret(self@.master, previous(hour_of(t)))),
                    None => r matches Ok(PowJob::Issue { difficulty: d, address, secret }) && d
                        == difficulty && address@ == client_ip.text@ && secret@ == hour_secret(self@.master, hour_of(t)),
                },
            },
    {
        if difficulty == 0 {
            return Ok(PowJob::NotNeeded);
        }
        let hour: u64 = match now.unix_secs {
            Some(t) => t / SECRET_ROTATION_SECONDS,
            None => {
                return Err(HandshakeError::ClockBackwards);
            },
        };
        let current: [u8; 32] = derive_session_secret_for_hour(&self.master_secret, hour);
        match &client_hello.pow_solution {
            Some(sol) => {
                let mut secrets: Vec<[u8; 32]> = Vec::new();
                secrets.push(current);
                if hour > 0 {
                    secrets.push(derive_session_secret_for_hour(&self.master_secret, hour - 1));
                }
                Ok(
                    PowJob::Verify {
                        challenge: PoWChallenge { nonce: sol.nonce, difficulty },
                        solution: *sol,
                        address: copy_bytes(client_ip.text.as_slice()),
                        secrets,
                    },
                )
            },
            None => Ok(
                PowJob::Issue {
                    difficulty,
                    address: copy_bytes(client_ip.text.as_slice()),
                    secret: current,
                },
            ),
        }
    }

    /// The cookie and proof-of-work gate. `Err` holds the answer for a client that must not
    /// go on yet.
    fn cookie_pow_gate(
        &self,
        client_hello: &ClientHello,
        difficulty: u8,
        client_ip: &ClientIp,
        now: &Now,
        bypass: bool,
        answer: &PowAnswer,
    ) -> (r: Result<(), HandshakeResponse>)
        ensures
            ({
                let g = gate(
                    self@.master,
                    client_hello@,
                    difficulty,
                    client_ip.text@,
                    now.unix_secs,
                    bypass,
                    *answer,
                );
                &&& r is Ok <==> g is Pass
                &&& r matches Err(resp) ==> says_gate(resp, g)
            }),
    {
        let cookie_valid: bool = match &client_hello.cookie {
            Some(c) => match validate_cookie(&self.master_secret, client_ip, c, now.unix_secs) {
                Ok(v) => v,
                Err(e) => {
                    return Err(HandshakeResponse::Fail(e));
                },
            },
            None => false,
        };
        let expected_cookie: [u8; 32] = match generate_cookie(
            &self.master_secret,
            client_ip,
            now.unix_secs,
        ) {
            Ok(c) => c,
            Err(e) => {
                return Err(HandshakeResponse::Fail(e));
            },
        };
        let mut pow_valid: bool = true;
        let mut challenge: Option<PoWChallenge> = None;
        if difficulty > 0 {
            if client_hello.pow_solution.is_some() {
                pow_valid = match answer {
                    PowAnswer::Verified(v) => any_verdict(v),
                    _ => false,
                };
            } else {
                pow_valid = false;
                challenge = match answer {
                    PowAnswer::Issued(c) => Some(*c),
                    _ => None,
                };
            }
        }
        if !bypass && (!cookie_valid || !pow_valid) {
            return Err(
                HandshakeResponse::Retry(
                    HelloRetryRequest {
                        challenge,
                        cookie: if !cookie_valid {
                            Some(expected_cookie)
                        } else {
                            None
                        },
                    },
                ),
            );
        }
        Ok(())
    }

    /// Put a claimed ticket back with its lifetime, and hand on the answer.
    fn fail_and_reinsert(
        &mut self,
        resumed: &Option<ResumptionTicket>,
        resp: HandshakeResponse,
    ) -> (r: HandshakeResponse)
        ensures
            final(self).spec_store() == old(self).spec_store(),
            r == resp,
            final(self)@ == (ServerState {
                tickets: handed_back(old(self)@.tickets, old(self)@.capacity, *resumed),
                ..old(self)@
            }),
    {
        if let Some(t) = resumed {
            self.session_cache.reinsert_with_expiry(
                t.id,
                &t.secret,
                t.suite,
                t.created_at,
                t.expires_at,
            );
        }
        resp
    }

    /// Admit a hello, or answer it, as `admit_hello` does. The shared store is asked once, about
    /// the ticket of a hello that may claim one, and what it says is up to the store; without
    /// one, every use is the first.
    pub fn process_client_hello(
        &mut self,
        client_hello: &ClientHello,
        difficulty: u8,
        client_ip: &ClientIp,
        now: &Now,
        pow: &PowAnswer,
    ) -> (step: HelloStep)
        ensures
            final(self).spec_store() == old(self).spec_store(),
            exists|first_use: bool|
                store_says(
                    old(self).spec_store(),
                    asked_ticket(old(self)@, client_hello@, now.mono_ms),
                    first_use,
                ) && says_admission(
                    step,
                    old(self)@,
                    client_hello@,
                    admission(
                        old(self)@,
                        client_hello@,
                        difficulty,
                        client_ip.text@,
                        *now,
                        *pow,
                        first_use,
                    ),
                ) && final(self)@ == #[trigger] after_admission(
                    old(self)@,
                    client_hello@,
                    difficulty,
                    client_ip.text@,
                    *now,
                    *pow,
                    first_use,
                ),
    {
        let asked: Option<ResumptionTicket> = if client_hello.version == PROTOCOL_VERSION
            && same_bytes(
            client_hello.protocol_variant.as_slice(),
            protocol_variant().as_slice(),
        ) {
            self.peek_claim(client_hello, now.mono_ms)
        } else {
            None
        };
        let first_use: bool = self.is_first_use(&asked);
        self.admit_hello(client_hello, difficulty, client_ip, now, pow, first_use)
    }

    /// Admit a hello, or answer it. It is counted in any case; a hello of another variant
    /// fails, one of another version is refused with the version that the server speaks, and
    /// any other passes admission or is asked to retry. A hello that proves that it holds a
    /// ticket's secret uses that ticket up and, where this is its first use, bypasses
    /// admission; the ticket is put back when the hello is not admitted after all.
    pub fn admit_hello(
        &mut self,
        client_hello: &ClientHello,
        difficulty: u8,
        client_ip: &ClientIp,
        now: &Now,
        pow: &PowAnswer,
        first_use: bool,
    ) -> (step: HelloStep)
        ensures
            final(self).spec_store() == old(self).spec_store(),
            says_admission(
                step,
                old(self)@,
                client_hello@,
                admission(
                    old(self)@,
                    client_hello@,
                    difficulty,
                    client_ip.text@,
                    *now,
                    *pow,
                    first_use,
                ),
            ),
            final(self)@ == after_admission(
                old(self)@,
                client_hello@,
                difficulty,
                client_ip.text@,
                *now,
                *pow,
                first_use,
            ),
    {
        let ghost before = self@;
        self.record_handshake(now);
        if !same_bytes(
            client_hello.protocol_variant.as_slice(),
            protocol_variant().as_slice(),
        ) {
            return HelloStep::Answer(
                HandshakeResponse::Fail(
                    HandshakeError::ProtocolVariantMismatch {
                        expected: protocol_variant(),
                        received: copy_bytes(client_hello.protocol_variant.as_slice()),
                    },
                ),
            );
        }
        if client_hello.version != PROTOCOL_VERSION {
            return HelloStep::Answer(HandshakeResponse::Reject(ServerReject::unsupported_version()));
        }
        let claimed: Option<ResumptionTicket> = self.claim_ticket(client_hello, now.mono_ms);
        let resumed: Option<ResumptionTicket> = if first_use {
            claimed
        } else {
            None
        };
        if let Err(resp) = self.cookie_pow_gate(
            client_hello,
            difficulty,
            client_ip,
            now,
            resumed.is_some(),
            pow,
        ) {
            let resp: HandshakeResponse = self.fail_and_reinsert(&resumed, resp);
            return HelloStep::Answer(resp);
        }
        let early_data: Option<EarlyDataJob> = self.early_data_to_open(client_hello, &resumed);
        proof {
            lemma_claimed_id(before.tickets, client_hello@, now.mono_ms);
        }
        HelloStep::Admitted(AdmittedHello { resumed, early_data })
    }

    /// The early data of a hello that is to be opened.
    fn early_data_to_open(
        &self,
        client_hello: &ClientHello,
        resumed: &Option<ResumptionTicket>,
    ) -> (j: Option<EarlyDataJob>)
        ensures
            j is Some <==> opens_early_data(self@, client_hello@, *resumed),
            j matches Some(job) ==> early_job(
                job,
                (*resumed)->0.secret@,
                client_hello@.nonce,
                (*resumed)->0.id@,
                client_hello@.early->0,
            ),
    {
        if !self.early_data_enabled {
            return None;
        }
        match resumed {
            Some(t) => match &client_hello.early_data {
                Some(sealed) => {
                    if sealed.len() > EARLY_DATA_MAX_LEN + 16 {
                        return None;
                    }
                    Some(
                        early_data_job(
                            &t.secret,
                            &client_hello.nonce,
                            &t.id,
                            sealed.as_slice(),
                        ),
                    )
                },
                None => None,
            },
            None => None,
        }
    }

    /// Make the transcript of an answer, with the server nonce `server_nonce`. `opened` is
    /// what opening the early data gave, and `kem` the shared secret with its encapsulation,
    /// or the reason why there is none. A failure puts a claimed ticket back.
    pub fn answer_hello_from(
        &mut self,
        client_hello: &ClientHello,
        admitted: AdmittedHello,
        opened: Option<Vec<u8>>,
        kem: Result<([u8; 32], HybridCiphertext), String>,
        server_nonce: [u8; 32],
    ) -> (step: SignStep)
        ensures
            final(self).spec_store() == old(self).spec_store(),
            match kem {
                Err(why) => {
                    &&& step matches SignStep::Answer(HandshakeResponse::Fail(
                        HandshakeError::KemFailed(m),
                    )) && m@ == why@
                    &&& final(self)@ == (ServerState {
                        tickets: handed_back(
                            old(self)@.tickets,
                            old(self)@.capacity,
                            admitted.resumed,
                        ),
                        ..old(self)@
                    })
                },
                Ok((secret, ciphertext)) => {
                    let t = answer_transcript(
                        old(self)@,
                        client_hello@,
                        server_nonce@,
                        secret@,
                        ciphertext@,
                        accepted_early_data(admitted, opened) is Some,
                    );
                    if t.fits() {
                        &&& step matches SignStep::Sign(u) && unsigned_answer(
                            u,
                            old(self)@,
                            client_hello@,
                            admitted,
                            opened,
                            secret,
                            ciphertext@,
                            server_nonce,
                        )
                        &&& final(self)@ == old(self)@
                    } else {
                        &&& step matches SignStep::Answer(HandshakeResponse::Fail(e))
                            && serialization_error(e, "invalid data"@)
                        &&& final(self)@ == (ServerState {
                            tickets: handed_back(
                                old(self)@.tickets,
                                old(self)@.capacity,
                                admitted.resumed,
                            ),
                            ..old(self)@
                        })
                    }
                },
            },
    {
        let early_data: Option<Vec<u8>> = if admitted.early_data.is_some() {
            opened
        } else {
            None
        };
        let (shared_secret, ciphertext): ([u8; 32], HybridCiphertext) = match kem {
            Ok((secret, ct)) => (secret, ct),
            Err(why) => {
                return SignStep::Answer(
                    self.fail_and_reinsert(
                        &admitted.resumed,
                        HandshakeResponse::Fail(HandshakeError::KemFailed(why)),
                    ),
                );
            },
        };
        let session_id: [u8; 32] = derive_session_id(&shared_secret, &client_hello.nonce);
        match compute_transcript_hash(
            client_hello,
            &server_nonce,
            &ciphertext,
            &self.verifying_key,
            &session_id,
            early_data.is_some(),
        ) {
            Ok(transcript_hash) => SignStep::Sign(
                UnsignedHello {
                    transcript_hash,
                    server_nonce,
                    ciphertext,
                    session_id,
                    shared_secret,
                    early_data,
                    resumed: admitted.resumed,
                },
            ),
            Err(e) => SignStep::Answer(
                self.fail_and_reinsert(&admitted.resumed, HandshakeResponse::Fail(e)),
            ),
        }
    }

    /// Make the transcript of an answer, as `answer_hello_from` does, with a fresh server
    /// nonce. When the operating system has no random bytes the handshake fails and a
    /// claimed ticket is put back.
    pub fn answer_hello(
        &mut self,
        client_hello: &ClientHello,
        admitted: AdmittedHello,
        opened: Option<Vec<u8>>,
        kem: Result<([u8; 32], HybridCiphertext), String>,
    ) -> (step: SignStep)
        ensures
            final(self).spec_store() == old(self).spec_store(),
            match kem {
                Err(why) => {
                    &&& step matches SignStep::Answer(HandshakeResponse::Fail(
                        HandshakeError::KemFailed(m),
                    )) && m@ == why@
                    &&& final(self)@ == (ServerState {
                        tickets: handed_back(
                            old(self)@.tickets,
                            old(self)@.capacity,
                            admitted.resumed,
                        ),
                        ..old(self)@
                    })
                },
                Ok((secret, ciphertext)) => match step {
                    SignStep::Sign(u) => unsigned_answer(
                        u,
                        old(self)@,
                        client_hello@,
                        admitted,
                        opened,
                        secret,
                        ciphertext@,
                        u.server_nonce,
                    ) && answer_fits(old(self)@, client_hello@, ciphertext@) && final(self)@
                        == old(self)@,
                    SignStep::Answer(r) => {
                        &&& r matches HandshakeResponse::Fail(e) && (e is RngError || (
                        !answer_fits(old(self)@, client_hello@, ciphertext@)
                            && serialization_error(e, "invalid data"@)))
                        &&& final(self)@ == (ServerState {
                            tickets: handed_back(
                                old(self)@.tickets,
                                old(self)@.capacity,
                                admitted.resumed,
                            ),
                            ..old(self)@
                        })
                    },
                },
            },
    {
        match random_array::<32>() {
            Ok(nonce) => self.answer_hello_from(client_hello, admitted, opened, kem, nonce),
            Err(_) => {
                let e: HandshakeError = match kem {
                    Ok(_) => rng_failure(),
                    Err(why) => HandshakeError::KemFailed(why),
                };
                SignStep::Answer(
                    self.fail_and_reinsert(&admitted.resumed, HandshakeResponse::Fail(e)),
                )
            },
        }
    }

    /// Make the answer of its signature, and set up the session. `keys` says whether the
    /// traffic keys could be made. A new ticket for the session is kept; a failure puts a
    /// claimed one back.
    pub fn finish_hello(
        &mut self,
        unsigned: UnsignedHello,
        signature: HybridSignature,
        keys: Result<(), String>,
        now: &Now,
    ) -> (r: HandshakeResponse)
        ensures
            final(self).spec_store() == old(self).spec_store(),
            match keys {
                Err(why) => {
                    &&& r matches HandshakeResponse::Fail(HandshakeError::KemFailed(m)) && m@
                        == why@
                    &&& final(self)@ == (ServerState {
                        tickets: handed_back(
                            old(self)@.tickets,
                            old(self)@.capacity,
                            unsigned.resumed,
                        ),
                        ..old(self)@
                    })
                },
                Ok(_) => {
                    &&& r matches HandshakeResponse::Success(h, session, early)
                        && h.server_nonce == unsigned.server_nonce && h.ciphertext
                        == unsigned.ciphertext && h.server_verify_key@ == old(self)@.key
                        && h.signature == signature && h.session_id == unsigned.session_id
                        && h.early_data_accepted == (unsigned.early_data is Some)
                        && server_session(unsigned, session) && early == unsigned.early_data
                        && final(self)@ == (ServerState {
                        tickets: put(
                            old(self)@.tickets,
                            old(self)@.capacity,
                            new_ticket(
                                unsigned.session_id,
                                session.resumption_secret->0,
                                CipherSuite::Aes256Gcm,
                                now.mono_ms,
                            ),
                        ),
                        ..old(self)@
                    })
                },
            },
    {
        if let Err(why) = keys {
            return self.fail_and_reinsert(
                &unsigned.resumed,
                HandshakeResponse::Fail(HandshakeError::KemFailed(why)),
            );
        }
        let accepted: bool = unsigned.early_data.is_some();
        let mut session: Session = Session::from_derived(
            SessionId::from_bytes(unsigned.session_id),
            SchedulerMode::LowLatency,
            unsigned.shared_secret,
            true,
        );
        let resumption_secret: [u8; 32] = derive_resumption_secret(&unsigned.shared_secret);
        session.set_resumption_secret(resumption_secret);
        self.session_cache.store(
            unsigned.session_id,
            &resumption_secret,
            CipherSuite::Aes256Gcm,
            now.mono_ms,
        );
        let server_hello: ServerHello = ServerHello {
            server_nonce: unsigned.server_nonce,
            ciphertext: unsigned.ciphertext,
            server_verify_key: self.verifying_key.copy(),
            signature,
            session_id: unsigned.session_id,
            early_data_accepted: accepted,
        };
        HandshakeResponse::Success(server_hello, session, unsigned.early_data)
    }
}

fn secs_or_zero(now: &Now) -> (t: u64)
    ensures
        t == now.secs_or_zero(),
{
    match now.unix_secs {
        Some(t) => t,
        None => 0,
    }
}

fn rng_failure() -> (e: HandshakeError)
    ensures
        e is RngError,
{
    HandshakeError::RngError("the operating system has no random bytes".to_owned())
}

fn any_verdict(v: &Vec<bool>) -> (b: bool)
    ensures
        b == any_good(v@),
{
    let mut i: usize = 0;
    while i < v.len()
        invariant
            i <= v@.len(),
            forall|k: int| 0 <= k < i ==> !v@[k],
        decreases v@.len() - i,
    {
        if v[i] {
            assert(v@[i as int]);
            return true;
        }
        i += 1;
    }
    false
}

proof fn lemma_ticket_has_its_id(tickets: Seq<ResumptionTicket>, id: Seq<u8>)
    ensures
        ticket_of(tickets, id) matches Some(t) ==> t.id@ == id,
    decreases tickets.len(),
{
    if tickets.len() > 0 && tickets.last().id@ != id {
        lemma_ticket_has_its_id(tickets.drop_last(), id);
    }
}

proof fn lemma_claimed_id(tickets: Seq<ResumptionTicket>, hello: HelloView, now_ms: u64)
    ensures
        claimable(tickets, hello, now_ms) matches Some(t) ==> Some(t.id@) == hello.resume,
{
    if let Some(rid) = hello.resume {
        lemma_ticket_has_its_id(tickets, rid);
    }
}

/// A ticket is good for one resumption: a hello that claimed its ticket cannot claim it
/// again.
pub proof fn law_ticket_is_used_once(tickets: Seq<ResumptionTicket>, hello: HelloView, now_ms: u64, later_ms: u64)
    requires
        claimable(tickets, hello, now_ms) is Some,
    ensures
        claimable(after_claim(tickets, hello, now_ms), hello, later_ms) is None,
{
    let t = claimable(tickets, hello, now_ms)->0;
    crate::session_cache::law_cache_finds_what_was_put(tickets, 0, t, hello.resume->0);
}

/// A resumption is good once: when a hello was admitted with the ticket that it claimed, and
/// the handshake was finished with the session id `session_id`, the same hello without a good
/// cookie is asked for one, whatever the shared store says of it then.
pub proof fn law_resumption_is_good_once(
    s: ServerState,
    hello: HelloView,
    difficulty: u8,
    ip: Seq<u8>,
    now: Now,
    answer: PowAnswer,
    session_id: [u8; 32],
    secret: [u8; 32],
    finished_ms: u64,
    later_difficulty: u8,
    later_ip: Seq<u8>,
    later: Now,
    later_answer: PowAnswer,
    later_first_use: bool,
)
    requires
        admission(s, hello, difficulty, ip, now, answer, true) matches Admission::Admitted(
            Some(_),
        ),
        Some(session_id@) != hello.resume,
        later.unix_secs is Some,
        !cookie_in_order(s.master, hello, later_ip, later.unix_secs->0),
    ensures
        ({
            let admitted = after_admission(s, hello, difficulty, ip, now, answer, true);
            let finished = ServerState {
                tickets: put(
                    admitted.tickets,
                    admitted.capacity,
                    new_ticket(session_id, secret, CipherSuite::Aes256Gcm, finished_ms),
                ),
                ..admitted
            };
            admission(
                finished,
                hello,
                later_difficulty,
                later_ip,
                later,
                later_answer,
                later_first_use,
            ) matches Admission::Stopped(Gate::Retry { cookie: Some(c), .. }) && c == cookie_of(
                s.master,
                later_ip,
                hour_of(later.unix_secs->0),
                bucket_of(later.unix_secs->0),
            )
        }),
{
    let rid = hello.resume->0;
    let t = claimable(s.tickets, hello, now.mono_ms)->0;
    let tickets = after_claim(s.tickets, hello, now.mono_ms);
    let next = new_ticket(session_id, secret, CipherSuite::Aes256Gcm, finished_ms);
    crate::session_cache::law_cache_finds_what_was_put(s.tickets, 0, t, rid);
    crate::session_cache::law_cache_invents_no_ticket(tickets, s.capacity, next, rid);
}

/// A handshake that fails after it claimed a ticket gives it back: the same hello can claim
/// it again, with the same lifetime.
pub proof fn law_failure_gives_the_ticket_back(
    tickets: Seq<ResumptionTicket>,
    capacity: nat,
    hello: HelloView,
    now_ms: u64,
)
    requires
        claimable(tickets, hello, now_ms) is Some,
    ensures
        ({
            let t = claimable(tickets, hello, now_ms);
            claimable(
                handed_back(after_claim(tickets, hello, now_ms), capacity, t),
                hello,
                now_ms,
            ) == t
        }),
{
    let t = claimable(tickets, hello, now_ms)->0;
    lemma_claimed_id(tickets, hello, now_ms);
    crate::session_cache::law_cache_finds_what_was_put(
        after_claim(tickets, hello, now_ms),
        capacity,
        t,
        t.id@,
    );
}

/// Without a ticket that it may claim, a hello gets through only with a good cookie and with
/// the proof of work that the difficulty calls for.
pub proof fn law_admission_needs_proof(
    s: ServerState,
    hello: HelloView,
    difficulty: u8,
    ip: Seq<u8>,
    now: Now,
    answer: PowAnswer,
    first_use: bool,
)
    requires
        admission(s, hello, difficulty, ip, now, answer, first_use) is Admitted,
    ensures
        hello.variant == variant_tag(),
        hello.version == PROTOCOL_VERSION,
        (claimable(s.tickets, hello, now.mono_ms) is Some && first_use) || (cookie_in_order(
            s.master,
            hello,
            ip,
            now.unix_secs->0,
        ) && pow_in_order(hello, difficulty, answer)),
{
}

/// A client that is asked for a cookie and sends it back within five minutes, from the same
/// address and without proof of work to do, is admitted.
pub proof fn law_cookie_round_admits(
    s: ServerState,
    hello: HelloView,
    ip: Seq<u8>,
    asked: Now,
    now: Now,
    answer: PowAnswer,
    first_use: bool,
)
    requires
        asked.unix_secs is Some,
        now.unix_secs is Some,
        asked.unix_secs->0 <= now.unix_secs->0 <= asked.unix_secs->0
            + crate::handshake::cookie::COOKIE_BUCKET_SECONDS,
        gate(s.master, hello, 0, ip, asked.unix_secs, false, answer) is Retry,
        hello.variant == variant_tag(),
        hello.version == PROTOCOL_VERSION,
    ensures
        ({
            let cookie = gate(
                s.master,
                hello,
                0,
                ip,
                asked.unix_secs,
                false,
                answer,
            )->Retry_cookie;
            let again = HelloView { cookie, ..hello };
            admission(s, again, 0, ip, now, answer, first_use) is Admitted
        }),
{
    crate::handshake::cookie::law_cookie_is_accepted(
        s.master,
        ip,
        asked.unix_secs->0,
        now.unix_secs->0,
    );
}

/// Heavier load never lowers the difficulty, which stays between 0 and 16.
pub proof fn law_load_difficulty_grows(few: u64, many: u64)
    ensures
        few <= many ==> load_difficulty(few) <= load_difficulty(many),
        load_difficulty(few) <= 16,
{
}

/// Early data of up to 16 KiB, sealed with a tag of 16 bytes, is opened for a hello that was
/// admitted with a ticket by a server that takes early data; the job holds the sealed bytes, the
/// secret of the ticket, and is bound to the resumed session and the nonce of the hello. Longer
/// early data, or that of a hello without a ticket, is not opened.
pub proof fn law_early_data_is_opened(
    a: AdmittedHello,
    s: ServerState,
    hello: HelloView,
    resumed: Option<ResumptionTicket>,
    sealed: Seq<u8>,
)
    requires
        admits(a, s, hello, resumed),
        hello.early == Some(sealed),
    ensures
        a.resumed == resumed,
        s.early_data_enabled && resumed is Some && sealed.len() <= 16_400 ==> (a.early_data matches Some(
            job,
        ) && job.text@ == sealed && job.secret == resumed->0.secret && job.client_nonce@
            == hello.nonce && job.aad@ == resumed->0.id@ + hello.nonce),
        !s.early_data_enabled ==> a.early_data is None,
        resumed is None ==> a.early_data is None,
        sealed.len() > 16_400 ==> a.early_data is None,
{
    if let Some(job) = a.early_data {
        assert(job.secret =~= resumed->0.secret);
    }
}

/// How the load sets the difficulty: none below 100 hellos in the minute, then 4, from 500 on 8, from
/// 2000 on 12 and from 10000 on 16. Each hello counts one; sixty seconds after the minute began the count
/// starts anew.
pub proof fn law_load_is_counted_by_the_minute(s: ServerState, now: u64, count: u64)
    requires
        s.count < u64::MAX,
    ensures
        count < 100 ==> load_difficulty(count) == 0,
        100 <= count < 500 ==> load_difficulty(count) == 4,
        500 <= count < 2000 ==> load_difficulty(count) == 8,
        2000 <= count < 10000 ==> load_difficulty(count) == 12,
        10000 <= count ==> load_difficulty(count) == 16,
        now < s.minute_start + 60 ==> counted(s, now).count == s.count + 1 && counted(s, now).minute_start
            == s.minute_start,
        now >= s.minute_start + 60 ==> counted(s, now).count == 1 && counted(s, now).minute_start == now,
        counted(s, now).tickets == s.tickets,
        counted(s, now).violations == s.violations,
        counted(s, now).master == s.master,
        counted(s, now).key == s.key,
{
}

/// Who is admitted. A hello of this variant and version gets through with a cookie that is in order and,
/// where there is a difficulty, a solution that one of the verdicts confirms; or with a ticket that it may
/// claim for the first time. A hello of another variant or version does not, whatever else it holds.
pub proof fn law_who_is_admitted(
    s: ServerState,
    hello: HelloView,
    difficulty: u8,
    ip: Seq<u8>,
    now: Now,
    answer: PowAnswer,
    first_use: bool,
)
    ensures
        ({
            let a = admission(s, hello, difficulty, ip, now, answer, first_use);
            let ours = hello.variant == variant_tag() && hello.version == 3;
            let ticket = claimable(s.tickets, hello, now.mono_ms);
            let resumes = first_use && ticket is Some;
            let cookie = now.unix_secs is Some && hello.cookie is Some && cookie_accepted(
                s.master,
                ip,
                hello.cookie->0,
                now.unix_secs->0,
            );
            let worked = difficulty == 0 || (hello.pow is Some && answer is Verified && exists|i: int|
                0 <= i < answer->Verified_0@.len() && #[trigger] answer->Verified_0@[i]);
            &&& hello.variant != variant_tag() ==> a is VariantMismatch
            &&& hello.variant == variant_tag() && hello.version != 3 ==> a is UnknownVersion
            &&& ours && now.unix_secs is None ==> a == Admission::Stopped(Gate::ClockFault)
            &&& a is Admitted <==> ours && now.unix_secs is Some && (resumes || (cookie && worked))
            &&& a is Admitted && resumes ==> a == Admission::Admitted(ticket)
            &&& a is Admitted && !resumes ==> a == Admission::Admitted(None)
        }),
{
    if let PowAnswer::Verified(v) = answer {
        assert(any_good(v@) <==> exists|i: int| 0 <= i < v@.len() && #[trigger] v@[i]);
    }
}

/// What a client that is turned away is told: the cookie of its address for the present, unless its own is
/// in order, and a challenge where it owes work and sent none.
pub proof fn law_what_a_retry_asks_for(
    s: ServerState,
    hello: HelloView,
    difficulty: u8,
    ip: Seq<u8>,
    now: Now,
    answer: PowAnswer,
    first_use: bool,
    challenge: Option<(Seq<u8>, u8)>,
    cookie: Option<Seq<u8>>,
)
    requires
        admission(s, hello, difficulty, ip, now, answer, first_use) == Admission::Stopped(
            (Gate::Retry { challenge, cookie }),
        ),
    ensures
        ({
            let good = hello.cookie is Some && cookie_accepted(
                s.master,
                ip,
                hello.cookie->0,
                now.unix_secs->0,
            );
            &&& good ==> cookie is None && difficulty > 0
            &&& !good ==> cookie == Some(
                cookie_of(
                    s.master,
                    ip,
                    (now.unix_secs->0 / 3600) as u64,
                    (now.unix_secs->0 / 300) as u64,
                ),
            )
            &&& difficulty == 0 || hello.pow is Some ==> challenge is None
            &&& difficulty > 0 && hello.pow is None && answer is Issued ==> challenge == Some(
                (answer->Issued_0.nonce@, answer->Issued_0.difficulty),
            )
        }),
{
}

/// Which ticket a hello may claim: the one of the session that it names, while it lasts, and only with the
/// proof that the client holds its secret, which is made of the secret, the session and the nonce.
pub proof fn law_claim_needs_the_secret(
    tickets: Seq<ResumptionTicket>,
    hello: HelloView,
    now_ms: u64,
    t: ResumptionTicket,
)
    ensures
        claimable(tickets, hello, now_ms) == Some(t) ==> hello.resume == Some(t.id@) && now_ms
            < t.expires_at && ticket_of(tickets, t.id@) == Some(t) && hello.binder == Some(
            crate::hash::blake3_key_of(
                "phantom-resume-binder-v1"@,
                t.secret@ + t.id@ + hello.nonce,
            ),
        ),
        ticket_of(tickets, t.id@) == Some(t) && hello.resume == Some(t.id@) && now_ms < t.expires_at
            && hello.binder == Some(
            crate::hash::blake3_key_of(
                "phantom-resume-binder-v1"@,
                t.secret@ + t.id@ + hello.nonce,
            ),
        ) ==> claimable(tickets, hello, now_ms) == Some(t),
        hello.resume is None || hello.binder is None ==> claimable(tickets, hello, now_ms) is None,
{
    lemma_claimed_id(tickets, hello, now_ms);
}

/// What admission leaves behind: the hello is counted, and nothing else changes but the tickets. An
/// admitted hello has used up the ticket that it may claim; one that is turned away keeps it where it was
/// its first use; a refused one touches none.
pub proof fn law_what_admission_changes(
    s: ServerState,
    hello: HelloView,
    difficulty: u8,
    ip: Seq<u8>,
    now: Now,
    answer: PowAnswer,
    first_use: bool,
)
    ensures
        ({
            let next = after_admission(s, hello, difficulty, ip, now, answer, first_use);
            let a = admission(s, hello, difficulty, ip, now, answer, first_use);
            let claim = claimable(s.tickets, hello, now.mono_ms);
            &&& next.key == s.key && next.master == s.master && next.violations == s.violations
            &&& next.early_data_enabled == s.early_data_enabled && next.capacity == s.capacity
            &&& next.count == counted(s, now.secs_or_zero()).count
            &&& claim is None || a is VariantMismatch || a is UnknownVersion ==> next.tickets
                == s.tickets
            &&& claim is Some && a is Admitted ==> next.tickets == without(s.tickets, hello.resume->0)
                && ticket_of(next.tickets, hello.resume->0) is None
            &&& claim is Some && a is Stopped && first_use ==> ticket_of(
                next.tickets,
                hello.resume->0,
            ) == claim
            &&& claim is Some && a is Stopped && !first_use ==> ticket_of(
                next.tickets,
                hello.resume->0,
            ) is None
        }),
{
    if let Some(t) = claimable(s.tickets, hello, now.mono_ms) {
        lemma_claimed_id(s.tickets, hello, now.mono_ms);
        crate::session_cache::law_cache_finds_what_was_put(
            after_claim(s.tickets, hello, now.mono_ms),
            s.capacity,
            t,
            t.id@,
        );
        crate::session_cache::law_cache_finds_what_was_put(s.tickets, s.capacity, t, t.id@);
    }
}

/// What the server signs and sets up: the session id is the digest of the shared secret and the client's
/// nonce, the transcript holds the whole hello and every field of the answer, and the session has the
/// shared secret, the server's role and the secret that it can be resumed with.
pub proof fn law_answer_is_made_of_the_exchange(
    u: UnsignedHello,
    s: ServerState,
    hello: HelloView,
    a: AdmittedHello,
    opened: Option<Vec<u8>>,
    secret: [u8; 32],
    ciphertext: Halves,
    server_nonce: [u8; 32],
    session: Session,
)
    requires
        unsigned_answer(u, s, hello, a, opened, secret, ciphertext, server_nonce),
        server_session(u, session),
    ensures
        u.shared_secret == secret,
        u.server_nonce == server_nonce,
        u.ciphertext@ == ciphertext,
        u.resumed == a.resumed,
        u.session_id@ == crate::hash::sha256_of(
            "phantom-session-id-v1"@.map_values(|c: char| c as u8) + secret@ + hello.nonce,
        ),
        a.early_data is None || opened is None ==> u.early_data is None,
        a.early_data is Some && opened is Some ==> u.early_data is Some && u.early_data->0@
            == opened->0@,
        u.transcript_hash@ == (Transcript {
            hello,
            server_nonce: server_nonce@,
            ciphertext,
            server_key: s.key,
            session_id: u.session_id@,
            early_data_accepted: u.early_data is Some,
        }).digest(),
        session.id.0 == u.session_id,
        session.traffic_secret == secret,
        session.role == SessionRole::Server,
        session.scheduler_mode == SchedulerMode::LowLatency,
        session.resumption_secret is Some && session.resumption_secret->0@
            == crate::hash::hkdf_sha256_of(
            secret@,
            "phantom-resumption-secret-v1"@.map_values(|c: char| c as u8),
        ),
{
    crate::handshake::resumption::law_labels_are_texts();
}

/// What a client is told: of a retry, the challenge and the cookie that admission asks for; of a clock that runs
/// backwards, that; of a hello of another version, a refusal with code 1 and the version 3; and of a hello of
/// another variant, both variants.
pub proof fn law_refusals_say_why(
    r: HandshakeResponse,
    challenge: Option<(Seq<u8>, u8)>,
    cookie: Option<Seq<u8>>,
    step: HelloStep,
    s: ServerState,
    hello: HelloView,
)
    ensures
        says_gate(r, Gate::Retry { challenge, cookie }) ==> r is Retry && ({
            let q = r->Retry_0;
            &&& q.challenge is Some <==> challenge is Some
            &&& challenge is Some ==> q.challenge->0.nonce@ == (challenge->0).0
                && q.challenge->0.difficulty == (challenge->0).1
            &&& q.cookie is Some <==> cookie is Some
            &&& cookie is Some ==> q.cookie->0@ == cookie->0
        }),
        says_gate(r, Gate::ClockFault) ==> r == HandshakeResponse::Fail(
            HandshakeError::ClockBackwards,
        ),
        says_admission(step, s, hello, Admission::UnknownVersion) ==> (
        step matches HelloStep::Answer(HandshakeResponse::Reject(j)) && j.marker@ == "PRJ1"@.map_values(
            |c: char| c as u8,
        ) && j.code == 1 && j.supported_version == 3),
        says_admission(step, s, hello, Admission::VariantMismatch) ==> (
        step matches HelloStep::Answer(HandshakeResponse::Fail(
            HandshakeError::ProtocolVariantMismatch { expected, received },
        )) && expected@ == "phantom-default-1"@.map_values(|c: char| c as u8) && received@
            == hello.variant),
{
    crate::handshake::messages::law_protocol_constants(hello);
}

/// How a server starts: it counts from nought at the present minute, holds no tickets and room for 4096, knows of no
/// violations and has room for 100000 addresses, takes early data, and asks no shared store.
pub proof fn law_server_starts_empty(s: ServerState, key: Halves, now: Now, k: (bool, u128))
    requires
        fresh_server(s, key, now),
    ensures
        s.key == key,
        s.master.len() == 32,
        s.count == 0,
        now.unix_secs is Some ==> s.minute_start == now.unix_secs->0,
        now.unix_secs is None ==> s.minute_start == 0,
        s.tickets.len() == 0,
        s.capacity == 4096,
        !s.violations.contains_key(k),
        s.violations_capacity == 100_000,
        s.early_data_enabled,
        !s.shared_store,
        load_difficulty(s.count) == 0,
{
}

/// Which ticket the shared store is asked about: the one that a hello of this variant and of version 3 may claim, and
/// no other. Nothing but the tickets and the count of hellos changes on admission.
pub proof fn law_which_ticket_is_asked_about(
    s: ServerState,
    hello: HelloView,
    difficulty: u8,
    ip: Seq<u8>,
    now: Now,
    answer: PowAnswer,
    first_use: bool,
)
    ensures
        hello.variant == "phantom-default-1"@.map_values(|c: char| c as u8) && hello.version == 3
            ==> asked_ticket(s, hello, now.mono_ms) == claimable(s.tickets, hello, now.mono_ms),
        hello.variant != "phantom-default-1"@.map_values(|c: char| c as u8) || hello.version != 3
            ==> asked_ticket(s, hello, now.mono_ms) is None,
        ({
            let next = after_admission(s, hello, difficulty, ip, now, answer, first_use);
            next == (ServerState {
                tickets: next.tickets,
                count: next.count,
                minute_start: next.minute_start,
                ..s
            })
        }),
        s.count == u64::MAX && now.secs_or_zero() < s.minute_start + 60 ==> counted(
            s,
            now.secs_or_zero(),
        ).count == 0,
{
    crate::handshake::messages::law_protocol_constants(hello);
}

} // verus!
