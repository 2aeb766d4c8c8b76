//! The one-time prelude exchanged before data flows.
//!
//! ```text
//! client -> ClientHello        0x16 0x0301
//! server -> ServerHello        0x16 0x0303
//! server -> ChangeCipherSpec   0x14 0x0303 00 01 01
//! server -> opaque flight      0x17 0x0303   (1500 to 4000 random bytes)
//! server -> session ticket     0x17 0x0303   (150 to 300 random bytes)
//! client -> ChangeCipherSpec   0x14 0x0303 00 01 01
//! client -> Finished           0x17 0x0303   (36 to 64 random bytes)
//! ```
//!
//! The count and the types of the records are fixed for each direction, so each side
//! consumes an exact prelude; the sizes of the opaque records are drawn.

use super::client_hello::{
    build_client_hello, client_hello_message, key_exchange_len, ClientHelloDraws,
};
use super::record::{
    encode_record, fragment_too_large_text, next_record, record_bytes, RecordStep,
    CT_APPLICATION_DATA, CT_CHANGE_CIPHER_SPEC, CT_HANDSHAKE, MAX_RECORD_FRAGMENT_WIRE,
    TLS_RECORD_HEADER_LEN, VER_TLS10, VER_TLS12,
};
use super::server_hello::{
    build_server_hello, fault_text, plain_random, selected_cipher, selected_group,
    server_hello_message, HelloFault, ParsedClientHello,
};
use crate::bytebuf::{advance_buffer, buffer_slice, buffered, split_buffer};
use crate::errors::CoreError;
use crate::random::{os_random, random_u64};
use crate::text::{hex_byte, push_hex_byte, two_numbers, two_numbers_text};
use crate::wire::{append, read_u16};
use bytes::BytesMut;
use vstd::prelude::*;
use vstd::string::StringSliceAdditionalSpecFns;

verus! {

pub const OPAQUE_FLIGHT_MIN: usize = 1500;

pub const OPAQUE_FLIGHT_MAX: usize = 4000;

pub const TICKET_MIN: usize = 150;

pub const TICKET_MAX: usize = 300;

pub const FINISHED_MIN: usize = 36;

pub const FINISHED_MAX: usize = 64;

pub const CLOSE_NOTIFY_MIN: usize = 19;

pub const CLOSE_NOTIFY_MAX: usize = 31;

/// The middlebox-compatibility record.
pub open spec fn change_cipher_spec() -> Seq<u8> {
    seq![0x14u8, 0x03u8, 0x03u8, 0x00u8, 0x01u8, 0x01u8]
}

/// The record types of the server flight, in order.
pub open spec fn server_flight_type_list() -> Seq<u8> {
    seq![CT_HANDSHAKE, CT_CHANGE_CIPHER_SPEC, CT_APPLICATION_DATA, CT_APPLICATION_DATA]
}

/// The record types that the client sends after the server flight, in order.
pub open spec fn client_finished_type_list() -> Seq<u8> {
    seq![CT_CHANGE_CIPHER_SPEC, CT_APPLICATION_DATA]
}

/// The record types of the server flight, in order.
pub fn server_flight_types() -> (t: Vec<u8>)
    ensures
        t@ == server_flight_type_list(),
{
    let t: Vec<u8> = vec![
        CT_HANDSHAKE, CT_CHANGE_CIPHER_SPEC, CT_APPLICATION_DATA, CT_APPLICATION_DATA,
    ];
    assert(t@ =~= server_flight_type_list());
    t
}

/// The record types that the client sends after the server flight, in order.
pub fn client_finished_types() -> (t: Vec<u8>)
    ensures
        t@ == client_finished_type_list(),
{
    let t: Vec<u8> = vec![CT_CHANGE_CIPHER_SPEC, CT_APPLICATION_DATA];
    assert(t@ =~= client_finished_type_list());
    t
}

/// The length in `min..=max` that a random number selects.
pub fn rand_len(draw: u64, min: usize, max: usize) -> (n: usize)
    requires
        min <= max,
        max - min < u64::MAX,
        max - min < usize::MAX,
    ensures
        n == min + draw % ((max - min + 1) as u64),
        min <= n <= max,
{
    let span: u64 = (max - min) as u64 + 1;
    min + (draw % span) as usize
}

/// An ApplicationData record with the opaque bytes `fragment`.
pub open spec fn opaque(fragment: Seq<u8>) -> Seq<u8> {
    record_bytes(CT_APPLICATION_DATA, VER_TLS12, fragment)
}

/// Draw random bytes, as many as are drawn in `min..=max`.
fn draw_opaque(min: usize, max: usize) -> (r: Result<Vec<u8>, CoreError>)
    requires
        min <= max <= MAX_RECORD_FRAGMENT_WIRE,
    ensures
        match r {
            Ok(f) => min <= f@.len() <= max,
            Err(e) => e is RngError,
        },
{
    let draw: u64 = match random_u64() {
        Ok(v) => v,
        Err(_) => {
            return Err(CoreError::RngError);
        },
    };
    match os_random(rand_len(draw, min, max)) {
        Ok(b) => Ok(b),
        Err(_) => Err(CoreError::RngError),
    }
}

/// Append an ApplicationData record with these opaque bytes.
fn push_opaque_record(fragment: &[u8], out: &mut Vec<u8>)
    requires
        fragment@.len() <= MAX_RECORD_FRAGMENT_WIRE,
    ensures
        final(out)@ == old(out)@ + opaque(fragment@),
{
    let r: Result<(), CoreError> = encode_record(CT_APPLICATION_DATA, VER_TLS12, fragment, out);
    assert(r is Ok);
}

fn push_change_cipher_spec(out: &mut Vec<u8>)
    ensures
        final(out)@ == old(out)@ + change_cipher_spec(),
{
    out.push(0x14);
    out.push(0x03);
    out.push(0x03);
    out.push(0x00);
    out.push(0x01);
    out.push(0x01);
    assert(out@ =~= old(out)@ + change_cipher_spec());
}

/// The record of the ClientHello `hello`. Only a hello above the wire bound is refused.
pub fn hello_record(hello: &[u8]) -> (r: Result<Vec<u8>, CoreError>)
    ensures
        hello@.len() <= MAX_RECORD_FRAGMENT_WIRE ==> (r matches Ok(rec) && rec@ == record_bytes(
            CT_HANDSHAKE,
            VER_TLS10,
            hello@,
        )),
        hello@.len() > MAX_RECORD_FRAGMENT_WIRE ==> (r matches Err(e) && e.says(
            fragment_too_large_text(hello@.len()),
        )),
{
    let mut out: Vec<u8> = Vec::new();
    match encode_record(CT_HANDSHAKE, VER_TLS10, hello, &mut out) {
        Err(e) => Err(e),
        Ok(()) => {
            assert(out@ =~= record_bytes(CT_HANDSHAKE, VER_TLS10, hello@));
            Ok(out)
        },
    }
}

/// The record of a fresh ClientHello for the server name `sni`.
pub fn client_hello_record(sni: &str) -> (r: Result<Vec<u8>, CoreError>)
    ensures
        match r {
            Ok(rec) => exists|d: ClientHelloDraws|
                {
                    let hello = #[trigger] client_hello_message(sni.spec_bytes(), d);
                    &&& d.wf()
                    &&& hello.len() <= MAX_RECORD_FRAGMENT_WIRE
                    &&& rec@ == record_bytes(CT_HANDSHAKE, VER_TLS10, hello)
                },
            Err(e) => e is RngError || exists|d: ClientHelloDraws|
                {
                    let n = (#[trigger] client_hello_message(sni.spec_bytes(), d)).len();
                    d.wf() && n > MAX_RECORD_FRAGMENT_WIRE && e.says(fragment_too_large_text(n))
                },
        },
{
    match build_client_hello(sni) {
        Err(e) => Err(e),
        Ok(hello) => hello_record(hello.as_slice()),
    }
}

/// The length of a ServerHello message that echoes a session id of `session_id_len` bytes.
pub open spec fn server_hello_len(session_id_len: nat, group: u16) -> nat {
    58 + session_id_len + key_exchange_len(group)
}

/// The server flight of a ServerHello and of the bytes that were drawn for the opaque flight
/// and for the ticket. Only a hello above the wire bound is refused.
pub fn server_flight_from(hello: &[u8], flight: &[u8], ticket: &[u8]) -> (r: Result<
    Vec<u8>,
    CoreError,
>)
    requires
        flight@.len() <= MAX_RECORD_FRAGMENT_WIRE,
        ticket@.len() <= MAX_RECORD_FRAGMENT_WIRE,
    ensures
        hello@.len() <= MAX_RECORD_FRAGMENT_WIRE ==> (r matches Ok(out) && out@ == record_bytes(
            CT_HANDSHAKE,
            VER_TLS12,
            hello@,
        ) + change_cipher_spec() + opaque(flight@) + opaque(ticket@)),
        hello@.len() > MAX_RECORD_FRAGMENT_WIRE ==> (r matches Err(e) && e.says(
            fragment_too_large_text(hello@.len()),
        )),
{
    let mut out: Vec<u8> = Vec::new();
    if let Err(e) = encode_record(CT_HANDSHAKE, VER_TLS12, hello, &mut out) {
        return Err(e);
    }
    assert(out@ =~= record_bytes(CT_HANDSHAKE, VER_TLS12, hello@));
    push_change_cipher_spec(&mut out);
    push_opaque_record(flight, &mut out);
    push_opaque_record(ticket, &mut out);
    Ok(out)
}

/// The server flight that answers `client`: the ServerHello, a ChangeCipherSpec, an opaque
/// flight and a ticket-shaped record.
pub fn server_flight(client: &ParsedClientHello) -> (r: Result<Vec<u8>, CoreError>)
    ensures
        match (selected_cipher(client@.suites), selected_group(client@)) {
            (None, _) => r matches Err(e) && e.says(fault_text(HelloFault::NoCipher)),
            (Some(_), None) => r matches Err(e) && e.says(fault_text(HelloFault::NoGroup)),
            (Some(c), Some(g)) => match r {
                Err(e) => e is RngError || (server_hello_len(client@.session_id.len(), g)
                    > MAX_RECORD_FRAGMENT_WIRE && e.says(
                    fragment_too_large_text(server_hello_len(client@.session_id.len(), g)),
                )),
                Ok(out) => server_hello_len(client@.session_id.len(), g)
                    <= MAX_RECORD_FRAGMENT_WIRE && exists|
                    random: Seq<u8>,
                    share: Seq<u8>,
                    flight: Seq<u8>,
                    ticket: Seq<u8>,
                |
                    #![trigger server_hello_message(client@.session_id, c, g, random, share), opaque(flight), opaque(ticket)]
                    {
                        &&& random.len() == 32 && plain_random(random)
                        &&& share.len() == key_exchange_len(g)
                        &&& OPAQUE_FLIGHT_MIN <= flight.len() <= OPAQUE_FLIGHT_MAX
                        &&& TICKET_MIN <= ticket.len() <= TICKET_MAX
                        &&& out@ == record_bytes(
                            CT_HANDSHAKE,
                            VER_TLS12,
                            server_hello_message(client@.session_id, c, g, random, share),
                        ) + change_cipher_spec() + opaque(flight) + opaque(ticket)
                    },
            },
        },
{
    let hello: Vec<u8> = match build_server_hello(client) {
        Err(e) => {
            return Err(e);
        },
        Ok(h) => h,
    };
    if hello.len() > MAX_RECORD_FRAGMENT_WIRE {
        let nothing: Vec<u8> = Vec::new();
        return server_flight_from(hello.as_slice(), nothing.as_slice(), nothing.as_slice());
    }
    let flight: Vec<u8> = match draw_opaque(OPAQUE_FLIGHT_MIN, OPAQUE_FLIGHT_MAX) {
        Err(e) => {
            return Err(e);
        },
        Ok(f) => f,
    };
    let ticket: Vec<u8> = match draw_opaque(TICKET_MIN, TICKET_MAX) {
        Err(e) => {
            return Err(e);
        },
        Ok(t) => t,
    };
    server_flight_from(hello.as_slice(), flight.as_slice(), ticket.as_slice())
}

/// What the client sends after the server flight, with the bytes that were drawn for its
/// Finished record.
pub fn client_finished_flight_from(finished: &[u8]) -> (out: Vec<u8>)
    requires
        finished@.len() <= MAX_RECORD_FRAGMENT_WIRE,
    ensures
        out@ == change_cipher_spec() + opaque(finished@),
{
    let mut out: Vec<u8> = Vec::new();
    push_change_cipher_spec(&mut out);
    assert(out@ =~= change_cipher_spec());
    push_opaque_record(finished, &mut out);
    out
}

/// What the client sends after the server flight: a ChangeCipherSpec and an opaque
/// Finished record.
pub fn client_finished_flight() -> (r: Result<Vec<u8>, CoreError>)
    ensures
        match r {
            Ok(out) => exists|f: Seq<u8>|
                FINISHED_MIN <= f.len() <= FINISHED_MAX && out@ == change_cipher_spec()
                    + #[trigger] opaque(f),
            Err(e) => e is RngError,
        },
{
    match draw_opaque(FINISHED_MIN, FINISHED_MAX) {
        Err(e) => Err(e),
        Ok(f) => Ok(client_finished_flight_from(f.as_slice())),
    }
}

/// An opaque record of the bytes that were drawn for a close notification.
pub fn close_notify_from(fragment: &[u8]) -> (out: Vec<u8>)
    requires
        fragment@.len() <= MAX_RECORD_FRAGMENT_WIRE,
    ensures
        out@ == opaque(fragment@),
{
    let mut out: Vec<u8> = Vec::new();
    push_opaque_record(fragment, &mut out);
    assert(out@ =~= opaque(fragment@));
    out
}

/// An opaque record shaped like a close notification.
pub fn close_notify_record() -> (r: Result<Vec<u8>, CoreError>)
    ensures
        match r {
            Ok(out) => exists|f: Seq<u8>|
                CLOSE_NOTIFY_MIN <= f.len() <= CLOSE_NOTIFY_MAX && out@ == #[trigger] opaque(f),
            Err(e) => e is RngError,
        },
{
    match draw_opaque(CLOSE_NOTIFY_MIN, CLOSE_NOTIFY_MAX) {
        Err(e) => Err(e),
        Ok(f) => Ok(close_notify_from(f.as_slice())),
    }
}

/// Why the bytes in front are refused where a record of type `expected` is due.
pub open spec fn refusal_text(step: RecordStep, expected: u8) -> Seq<char> {
    match step {
        RecordStep::Oversized(n) => two_numbers(
            "prelude record too large: "@,
            n,
            " > "@,
            MAX_RECORD_FRAGMENT_WIRE as nat,
        ),
        RecordStep::WrongType(t) => "unexpected prelude record type: 0x"@ + hex_byte(t)
            + ", expected 0x"@ + hex_byte(expected),
        _ => Seq::empty(),
    }
}

/// Consume one record of `expected_type` from the front of `buf` and return its fragment,
/// or nothing while the record has not arrived whole.
pub fn take_record(buf: &mut BytesMut, expected_type: u8) -> (r: Result<Option<Vec<u8>>, CoreError>)
    ensures
        match next_record(buffered(*old(buf)), expected_type) {
            RecordStep::Incomplete => r == Ok::<Option<Vec<u8>>, CoreError>(None) && buffered(
                *final(buf),
            ) == buffered(*old(buf)),
            RecordStep::Complete(fragment, rest) => (r matches Ok(Some(f)) && f@ == fragment)
                && buffered(*final(buf)) == rest,
            step => (r matches Err(e) && e.says(refusal_text(step, expected_type))) && buffered(
                *final(buf),
            ) == buffered(*old(buf)),
        },
{
    let held: &[u8] = buffer_slice(buf);
    if held.len() < TLS_RECORD_HEADER_LEN {
        return Ok(None);
    }
    let content_type: u8 = held[0];
    let frag_len: usize = read_u16(held, 3) as usize;
    if frag_len > MAX_RECORD_FRAGMENT_WIRE {
        return Err(
            CoreError::NetworkError(
                two_numbers_text(
                    "prelude record too large: ",
                    frag_len as u64,
                    " > ",
                    MAX_RECORD_FRAGMENT_WIRE as u64,
                ),
            ),
        );
    }
    if content_type != expected_type {
        let mut text: String = "unexpected prelude record type: 0x".to_owned();
        push_hex_byte(&mut text, content_type);
        text.append(", expected 0x");
        push_hex_byte(&mut text, expected_type);
        return Err(CoreError::NetworkError(text));
    }
    if held.len() < TLS_RECORD_HEADER_LEN + frag_len {
        return Ok(None);
    }
    let ghost before = buffered(*buf);
    advance_buffer(buf, TLS_RECORD_HEADER_LEN);
    let fragment: Vec<u8> = split_buffer(buf, frag_len);
    proof {
        assert(fragment@ =~= before.subrange(5, 5 + frag_len));
        assert(buffered(*buf) =~= before.skip(5 + frag_len));
    }
    Ok(Some(fragment))
}

/// Consuming a record that was sent whole gives its fragment back and leaves what follows.
pub proof fn law_sent_record_is_taken(content_type: u8, version: u16, fragment: Seq<u8>, rest: Seq<u8>)
    requires
        fragment.len() <= MAX_RECORD_FRAGMENT_WIRE,
    ensures
        next_record(record_bytes(content_type, version, fragment) + rest, content_type)
            == RecordStep::Complete(fragment, rest),
{
    let wire = record_bytes(content_type, version, fragment) + rest;
    let n = fragment.len() as int;
    crate::wire::lemma_be_round_trip(n);
    assert(wire[3] == crate::wire::be16(n)[0]);
    assert(wire[4] == crate::wire::be16(n)[1]);
    assert(wire.subrange(5, 5 + n) =~= fragment);
    assert(wire.skip(5 + n) =~= rest);
}

/// The prelude in numbers: which records each side sends, and how long its opaque ones are drawn.
pub proof fn law_prelude_in_numbers(fragment: Seq<u8>, n: nat)
    requires
        fragment.len() <= 65_535,
    ensures
        server_flight_type_list() == seq![0x16u8, 0x14, 0x17, 0x17],
        client_finished_type_list() == seq![0x14u8, 0x17],
        change_cipher_spec() == seq![0x14u8, 3, 3, 0, 1, 1],
        opaque(fragment) == record_bytes(0x17, 0x0303, fragment),
        OPAQUE_FLIGHT_MIN == 1500 && OPAQUE_FLIGHT_MAX == 4000,
        TICKET_MIN == 150 && TICKET_MAX == 300,
        FINISHED_MIN == 36 && FINISHED_MAX == 64,
        CLOSE_NOTIFY_MIN == 19 && CLOSE_NOTIFY_MAX == 31,
        VER_TLS10 == 0x0301,
        MAX_RECORD_FRAGMENT_WIRE == 16_640,
        server_hello_len(n, 0x001d) == 90 + n,
        server_hello_len(n, 0x0017) == 123 + n,
        server_hello_len(n, 0x0018) == 155 + n,
        server_hello_len(n, 0x11ec) == 1274 + n,
{
}

} // verus!
