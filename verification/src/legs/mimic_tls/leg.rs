//! The state machines of the mimicry leg: which record comes next in the prelude, and what
//! may be sent afterwards. The caller owns the socket.

use super::record::{
    frame_message, message_entry, next_record, record_bytes, records_of, Deframing,
    RecordDeframer, RecordStep, CT_APPLICATION_DATA, CT_CHANGE_CIPHER_SPEC, CT_HANDSHAKE,
    HANDSHAKE_FRAME_CAP, MAX_RECORD_FRAGMENT_WIRE, VER_TLS12,
};
use super::server_hello::{fault_text, parse_client_hello, read_client_hello, ParsedClientHello};
use super::theater::{
    change_cipher_spec, client_finished_type_list, client_finished_types, law_sent_record_is_taken,
    opaque, refusal_text, server_flight_type_list, server_flight_types, take_record, FINISHED_MAX,
    OPAQUE_FLIGHT_MAX, TICKET_MAX,
};
use crate::bytebuf::{buffered, buffer_slice, extend_buffer, new_buffer};
use crate::errors::CoreError;
use crate::text::{two_numbers, two_numbers_text};
use bytes::BytesMut;
use vstd::prelude::*;

verus! {

/// Largest message that may be sent.
pub const SEND_CAP: usize = 4194304;

/// How old the hello profile may be, in months, before it is reported as stale.
pub const PROFILE_STALE_MONTHS: u32 = 6;

/// The wall-clock budget of the whole prelude, in milliseconds.
pub const PRELUDE_DEADLINE_MS: u64 = 10000;

/// Per-connection configuration.
#[derive(Clone, Debug)]
pub struct MimicConfig {
    /// The server name presented in the ClientHello.
    pub sni: String,
}

impl MimicConfig {
    /// A configuration that presents `sni`.
    pub fn new(sni: String) -> (c: Self)
        ensures
            c.sni@ == sni@,
    {
        MimicConfig { sni }
    }
}

/// The records that carry `data`, or the error of a message above the send cap.
pub fn records_for_send(data: &[u8]) -> (r: Result<Vec<u8>, CoreError>)
    ensures
        data@.len() <= SEND_CAP ==> (r matches Ok(out) && out@ == records_of(message_entry(data@))),
        data@.len() > SEND_CAP ==> (r matches Err(e) && e.says(
            two_numbers("frame too large: "@, data@.len(), " > "@, SEND_CAP as nat),
        )),
{
    if data.len() > SEND_CAP {
        return Err(
            CoreError::NetworkError(
                two_numbers_text("frame too large: ", data.len() as u64, " > ", SEND_CAP as u64),
            ),
        );
    }
    frame_message(data)
}

/// How many milliseconds a refused connection is still held open, so that the whole hold
/// does not tell where the prelude failed.
pub fn black_hole_remaining_ms(elapsed_ms: u64) -> (ms: u64)
    ensures
        elapsed_ms <= PRELUDE_DEADLINE_MS ==> elapsed_ms + ms == PRELUDE_DEADLINE_MS,
        elapsed_ms > PRELUDE_DEADLINE_MS ==> ms == 0,
{
    PRELUDE_DEADLINE_MS.saturating_sub(elapsed_ms)
}

/// What the bytes received so far amount to, when records of `types` are expected in order.
pub enum Consumed {
    /// More bytes are needed: how many records were consumed, and the bytes after them.
    NeedMore(nat, Seq<u8>),
    /// Every record was consumed: the bytes after them.
    Done(Seq<u8>),
    /// The next record is refused: the reason, how many records were consumed, and the bytes
    /// after them, the refused record with them.
    Refused(Seq<char>, nat, Seq<u8>),
}

/// Consume the records of `types` from `done` on.
pub open spec fn consume(buf: Seq<u8>, types: Seq<u8>, done: nat) -> Consumed
    decreases types.len() - done,
{
    if done >= types.len() {
        Consumed::Done(buf)
    } else {
        match next_record(buf, types[done as int]) {
            RecordStep::Incomplete => Consumed::NeedMore(done, buf),
            RecordStep::Complete(_, rest) => consume(rest, types, done + 1),
            step => Consumed::Refused(refusal_text(step, types[done as int]), done, buf),
        }
    }
}

/// Consumes a fixed run of records.
pub struct RecordRun {
    buf: BytesMut,
    types: Vec<u8>,
    done: usize,
}

impl RecordRun {
    /// The bytes received and not consumed.
    pub closed spec fn pending(&self) -> Seq<u8> {
        buffered(self.buf)
    }

    /// The types of the whole run.
    pub closed spec fn run(&self) -> Seq<u8> {
        self.types@
    }

    /// How many records were consumed.
    pub closed spec fn done(&self) -> nat {
        self.done as nat
    }

    /// No more records were consumed than the run has.
    pub open spec fn wf(&self) -> bool {
        self.done() <= self.run().len()
    }

    /// The run of records that answers a ClientHello.
    pub fn server_flight() -> (p: Self)
        ensures
            p.wf(),
            p.done() == 0,
            p.pending() == Seq::<u8>::empty(),
            p.run() == server_flight_type_list(),
    {
        RecordRun { buf: new_buffer(), types: server_flight_types(), done: 0 }
    }

    /// Feed bytes read from the peer. `Ok(true)` once the whole run was consumed; a record
    /// of another type or above the wire bound is refused.
    pub fn feed(&mut self, data: &[u8]) -> (r: Result<bool, CoreError>)
        requires
            old(self).wf(),
            old(self).pending().len() + data@.len() <= isize::MAX,
        ensures
            final(self).wf(),
            final(self).run() == old(self).run(),
            match consume(old(self).pending() + data@, old(self).run(), old(self).done()) {
                Consumed::Done(rest) => r == Ok::<bool, CoreError>(true) && final(self).pending()
                    == rest && final(self).done() == old(self).run().len(),
                Consumed::NeedMore(n, rest) => r == Ok::<bool, CoreError>(false)
                    && final(self).pending() == rest && final(self).done() == n,
                Consumed::Refused(text, n, rest) => (r matches Err(e) && e.says(text))
                    && final(self).pending() == rest && final(self).done() == n,
            },
    {
        extend_buffer(&mut self.buf, data);
        while self.done < self.types.len()
            invariant
                self.wf(),
                self.run() == old(self).run(),
                consume(self.pending(), self.run(), self.done()) == consume(
                    old(self).pending() + data@,
                    old(self).run(),
                    old(self).done(),
                ),
            decreases self.run().len() - self.done(),
        {
            let expected: u8 = self.types[self.done];
            match take_record(&mut self.buf, expected) {
                Err(e) => {
                    return Err(e);
                },
                Ok(None) => {
                    return Ok(false);
                },
                Ok(Some(_)) => {
                    self.done = self.done + 1;
                },
            }
        }
        Ok(true)
    }

    /// The data de-framer that takes over after the run, holding what was already received.
    pub fn into_deframer(self) -> (d: RecordDeframer)
        requires
            self.pending().len() <= isize::MAX,
        ensures
            d.wf(),
            d@ == (Deframing {
                wire: self.pending(),
                stream: Seq::empty(),
                cap: HANDSHAKE_FRAME_CAP as nat,
                empties: 0,
            }),
    {
        let mut d: RecordDeframer = RecordDeframer::new();
        d.push(buffer_slice(&self.buf));
        assert(d@.wire =~= self.pending());
        d
    }
}

/// The server's view of the prelude before it answers.
pub struct HelloWait {
    buf: BytesMut,
}

impl HelloWait {
    /// The bytes received so far.
    pub closed spec fn pending(&self) -> Seq<u8> {
        buffered(self.buf)
    }

    /// Nothing was received yet.
    pub fn new() -> (w: Self)
        ensures
            w.pending() == Seq::<u8>::empty(),
    {
        HelloWait { buf: new_buffer() }
    }

    /// Feed bytes read from the client. Once its hello record is whole, the parsed hello
    /// comes back; anything that is no well-formed hello record is refused.
    pub fn feed(&mut self, data: &[u8]) -> (r: Result<Option<ParsedClientHello>, CoreError>)
        requires
            old(self).pending().len() + data@.len() <= isize::MAX,
        ensures
            match next_record(old(self).pending() + data@, CT_HANDSHAKE) {
                RecordStep::Incomplete => (r matches Ok(None)) && final(self).pending() == old(
                    self,
                ).pending() + data@,
                RecordStep::Complete(fragment, rest) => final(self).pending() == rest
                    && match read_client_hello(fragment) {
                    Ok(fields) => r matches Ok(Some(p)) && p@ == fields,
                    Err(f) => r matches Err(e) && e.says(fault_text(f)),
                },
                step => (r matches Err(e) && e.says(refusal_text(step, CT_HANDSHAKE)))
                    && final(self).pending() == old(self).pending() + data@,
            },
    {
        extend_buffer(&mut self.buf, data);
        match take_record(&mut self.buf, CT_HANDSHAKE) {
            Err(e) => Err(e),
            Ok(None) => Ok(None),
            Ok(Some(fragment)) => match parse_client_hello(fragment.as_slice()) {
                Err(e) => Err(e),
                Ok(p) => Ok(Some(p)),
            },
        }
    }

    /// The run of records that the client sends after the server flight; what was received
    /// past the hello stays.
    pub fn into_finished_run(self) -> (p: RecordRun)
        ensures
            p.wf(),
            p.done() == 0,
            p.pending() == self.pending(),
            p.run() == client_finished_type_list(),
    {
        RecordRun { buf: self.buf, types: client_finished_types(), done: 0 }
    }
}

/// The client consumes exactly the flight that a server sends, and keeps what follows it.
pub proof fn law_server_flight_is_consumed(
    hello: Seq<u8>,
    flight: Seq<u8>,
    ticket: Seq<u8>,
    rest: Seq<u8>,
)
    requires
        hello.len() <= MAX_RECORD_FRAGMENT_WIRE,
        flight.len() <= OPAQUE_FLIGHT_MAX,
        ticket.len() <= TICKET_MAX,
    ensures
        consume(
            record_bytes(CT_HANDSHAKE, VER_TLS12, hello) + change_cipher_spec() + opaque(flight)
                + opaque(ticket) + rest,
            server_flight_type_list(),
            0,
        ) == Consumed::Done(rest),
{
    let types = server_flight_type_list();
    let first = record_bytes(CT_HANDSHAKE, VER_TLS12, hello);
    let after_flight = opaque(ticket) + rest;
    let after_change = opaque(flight) + after_flight;
    let after_hello = change_cipher_spec() + after_change;
    lemma_joined(first, change_cipher_spec(), opaque(flight), opaque(ticket), rest);
    lemma_record_is_consumed(CT_HANDSHAKE, hello, after_hello, types, 0);
    lemma_change_is_consumed(after_change, types, 1);
    lemma_record_is_consumed(CT_APPLICATION_DATA, flight, after_flight, types, 2);
    lemma_record_is_consumed(CT_APPLICATION_DATA, ticket, rest, types, 3);
}

proof fn lemma_joined(a: Seq<u8>, b: Seq<u8>, c: Seq<u8>, d: Seq<u8>, rest: Seq<u8>)
    ensures
        a + b + c + d + rest == a + (b + (c + (d + rest))),
{
    assert(a + b + c + d + rest =~= a + (b + (c + (d + rest))));
}

proof fn lemma_record_is_consumed(
    content_type: u8,
    fragment: Seq<u8>,
    rest: Seq<u8>,
    types: Seq<u8>,
    done: nat,
)
    requires
        done < types.len(),
        types[done as int] == content_type,
        fragment.len() <= MAX_RECORD_FRAGMENT_WIRE,
    ensures
        consume(record_bytes(content_type, VER_TLS12, fragment) + rest, types, done) == consume(
            rest,
            types,
            done + 1,
        ),
{
    law_sent_record_is_taken(content_type, VER_TLS12, fragment, rest);
}

/// The server consumes exactly what a client sends after the flight, and keeps what follows.
pub proof fn law_client_finished_is_consumed(finished: Seq<u8>, rest: Seq<u8>)
    requires
        finished.len() <= FINISHED_MAX,
    ensures
        consume(
            change_cipher_spec() + opaque(finished) + rest,
            client_finished_type_list(),
            0,
        ) == Consumed::Done(rest),
{
    let types = client_finished_type_list();
    let after_change = opaque(finished) + rest;
    assert(change_cipher_spec() + opaque(finished) + rest =~= change_cipher_spec() + after_change);
    lemma_change_is_consumed(after_change, types, 0);
    lemma_record_is_consumed(CT_APPLICATION_DATA, finished, rest, types, 1);
}

proof fn lemma_change_is_consumed(rest: Seq<u8>, types: Seq<u8>, done: nat)
    requires
        done < types.len(),
        types[done as int] == CT_CHANGE_CIPHER_SPEC,
    ensures
        consume(change_cipher_spec() + rest, types, done) == consume(rest, types, done + 1),
{
    let wire = change_cipher_spec() + rest;
    assert(wire.skip(6) =~= rest);
    assert(next_record(wire, CT_CHANGE_CIPHER_SPEC) == RecordStep::Complete(
        wire.subrange(5, 6),
        rest,
    ));
}

/// How the bytes of the prelude are cut into reads does not matter: consuming after each of
/// two reads comes to the same as consuming once after both.
pub proof fn law_prelude_may_be_cut_anywhere(
    buf: Seq<u8>,
    more: Seq<u8>,
    types: Seq<u8>,
    done: nat,
)
    ensures
        consume(buf + more, types, done) == (match consume(buf, types, done) {
            Consumed::NeedMore(n, rest) => consume(rest + more, types, n),
            Consumed::Done(rest) => Consumed::Done(rest + more),
            Consumed::Refused(text, n, rest) => Consumed::Refused(text, n, rest + more),
        }),
    decreases types.len() - done,
{
    if done < types.len() {
        let expected = types[done as int];
        if let RecordStep::Complete(fragment, rest) = next_record(buf, expected) {
            let n = fragment.len() as int;
            let whole = buf + more;
            assert(whole.subrange(5, 5 + n) =~= buf.subrange(5, 5 + n));
            assert(whole.skip(5 + n) =~= rest + more);
            assert(next_record(whole, expected) == RecordStep::Complete(fragment, rest + more));
            law_prelude_may_be_cut_anywhere(rest, more, types, done + 1);
        }
    }
}

/// The limits of the leg: messages of up to 4 MiB are sent, the prelude has ten seconds, and the profile is stale
/// after six months.
pub proof fn law_leg_in_numbers()
    ensures
        SEND_CAP == 4_194_304,
        PRELUDE_DEADLINE_MS == 10_000,
        PROFILE_STALE_MONTHS == 6,
{
}

/// How a run of records is consumed: a record of the expected type takes the run one further, any other stops it
/// where it is, and a record that is not whole is awaited.
pub proof fn law_run_goes_record_by_record(buf: Seq<u8>, types: Seq<u8>, done: nat)
    ensures
        done >= types.len() ==> consume(buf, types, done) == Consumed::Done(buf),
        done < types.len() && next_record(buf, types[done as int]) is Incomplete ==> consume(
            buf,
            types,
            done,
        ) == Consumed::NeedMore(done, buf),
        done < types.len() ==> (next_record(buf, types[done as int]) matches RecordStep::Complete(
            _,
            rest,
        ) ==> consume(buf, types, done) == consume(rest, types, done + 1)),
        done < types.len() && (next_record(buf, types[done as int]) is Oversized || next_record(
            buf,
            types[done as int],
        ) is WrongType) ==> (consume(buf, types, done) matches Consumed::Refused(_, n, rest) && n
            == done && rest == buf),
{
}

} // verus!
