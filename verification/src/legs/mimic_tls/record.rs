//! TLS 1.3 record-layer framing.
//!
//! Each record is `content_type(1) | version(2) | length(2) | fragment`. The fragment of
//! an ApplicationData record is `chunk_len(2) | chunk | padding`, and the chunks of
//! successive records concatenate into a stream of `message_len(4) | message` entries.
//! A message may span records, a record may carry padding, and a record without a chunk
//! is a decoy.

use crate::bytebuf::{
    advance_buffer, buffer_slice, buffered, extend_buffer, new_buffer, split_buffer,
};
use crate::errors::{network_error, CoreError};
use crate::text::{decimal, hex_byte, push_decimal, push_hex_byte, two_numbers, two_numbers_text};
use crate::wire::{append, be16, be16_at, be32, be32_at, push_u16, push_u32, read_u16, read_u32};
use bytes::BytesMut;
use vstd::prelude::*;

verus! {

/// Content type of the middlebox-compatibility record.
pub const CT_CHANGE_CIPHER_SPEC: u8 = 0x14;

/// Content type of the cleartext hello records.
pub const CT_HANDSHAKE: u8 = 0x16;

/// Content type of every record that carries opaque data.
pub const CT_APPLICATION_DATA: u8 = 0x17;

/// Record version of the initial ClientHello record.
pub const VER_TLS10: u16 = 0x0301;

/// Record version of every other record.
pub const VER_TLS12: u16 = 0x0303;

/// Length of the record header.
pub const TLS_RECORD_HEADER_LEN: usize = 5;

/// Largest fragment that the framer emits.
pub const MAX_RECORD_FRAGMENT: usize = 16384;

/// Largest fragment that is accepted from a peer.
pub const MAX_RECORD_FRAGMENT_WIRE: usize = 16640;

/// Largest message accepted while the peer is not authenticated.
pub const HANDSHAKE_FRAME_CAP: usize = 65536;

/// Largest message accepted once the session is established.
pub const STEADY_STATE_FRAME_CAP: usize = 4194304;

/// What the reassembly buffer may hold beyond the message cap.
pub const STREAM_SLACK: usize = 262144;

/// How many records without a chunk may follow one another.
pub const MAX_CONSECUTIVE_EMPTY: u32 = 64;

/// Largest chunk that one emitted record carries.
pub const MAX_STREAM_CHUNK: usize = 16382;

/// Whether the session is still in its handshake.
#[derive(Debug, Clone, Copy, PartialEq, Eq, Structural)]
pub enum FramePhase {
    /// The peer is not authenticated yet.
    Handshake,
    /// The session is established.
    Established,
}

/// The bytes of one record.
pub open spec fn record_bytes(content_type: u8, version: u16, fragment: Seq<u8>) -> Seq<u8> {
    seq![content_type] + be16(version as int) + be16(fragment.len() as int) + fragment
}

/// The text of the error for a fragment that no record may carry.
pub open spec fn fragment_too_large_text(len: nat) -> Seq<char> {
    two_numbers("TLS record fragment too large: "@, len, " > "@, MAX_RECORD_FRAGMENT_WIRE as nat)
}

/// Append one record to `out`. A fragment above the wire bound is refused and nothing is
/// written.
pub fn encode_record(
    content_type: u8,
    version: u16,
    fragment: &[u8],
    out: &mut Vec<u8>,
) -> (r: Result<(), CoreError>)
    ensures
        fragment@.len() <= MAX_RECORD_FRAGMENT_WIRE ==> r is Ok && final(out)@ == old(out)@
            + record_bytes(content_type, version, fragment@),
        fragment@.len() > MAX_RECORD_FRAGMENT_WIRE ==> final(out)@ == old(out)@ && (r matches Err(e)
            && e.says(fragment_too_large_text(fragment@.len()))),
{
    if fragment.len() > MAX_RECORD_FRAGMENT_WIRE {
        return Err(
            CoreError::NetworkError(
                two_numbers_text(
                    "TLS record fragment too large: ",
                    fragment.len() as u64,
                    " > ",
                    MAX_RECORD_FRAGMENT_WIRE as u64,
                ),
            ),
        );
    }
    out.push(content_type);
    push_u16(out, version);
    push_u16(out, fragment.len() as u16);
    append(out, fragment);
    assert(out@ =~= old(out)@ + record_bytes(content_type, version, fragment@));
    Ok(())
}

/// The inner stream entry of one message.
pub open spec fn message_entry(message: Seq<u8>) -> Seq<u8> {
    be32(message.len() as int) + message
}

/// The ApplicationData records that carry `stream`, each with a chunk of at most
/// `MAX_STREAM_CHUNK` bytes.
pub open spec fn records_of(stream: Seq<u8>) -> Seq<u8>
    decreases stream.len(),
{
    if stream.len() == 0 {
        Seq::empty()
    } else {
        let n = chunk_size(stream);
        chunk_record(stream.take(n)) + records_of(stream.skip(n))
    }
}

/// The size of the first chunk of `stream`.
pub open spec fn chunk_size(stream: Seq<u8>) -> int {
    if stream.len() <= MAX_STREAM_CHUNK {
        stream.len() as int
    } else {
        MAX_STREAM_CHUNK as int
    }
}

/// The ApplicationData record that carries `chunk` without padding.
pub open spec fn chunk_record(chunk: Seq<u8>) -> Seq<u8> {
    record_bytes(CT_APPLICATION_DATA, VER_TLS12, be16(chunk.len() as int) + chunk)
}

/// Frame one message as a run of ApplicationData records. Only a message whose length
/// does not fit four bytes is refused.
pub fn frame_message(message: &[u8]) -> (r: Result<Vec<u8>, CoreError>)
    ensures
        message@.len() <= u32::MAX ==> (r matches Ok(out) && out@ == records_of(
            message_entry(message@),
        )),
        message@.len() > u32::MAX ==> (r matches Err(e) && e.says(
            "message too large to frame: "@ + decimal(message@.len()),
        )),
{
    if message.len() as u64 > 0xffff_ffff {
        let mut text: String = "message too large to frame: ".to_owned();
        push_decimal(&mut text, message.len() as u64);
        return Err(CoreError::NetworkError(text));
    }
    let mut stream: Vec<u8> = Vec::new();
    push_u32(&mut stream, message.len() as u32);
    append(&mut stream, message);
    assert(stream@ =~= message_entry(message@));
    let mut out: Vec<u8> = Vec::new();
    let mut at: usize = 0;
    assert(stream@.skip(0) =~= stream@);
    assert(out@ + records_of(stream@.skip(0)) =~= records_of(stream@));
    while at < stream.len()
        invariant
            at <= stream@.len(),
            stream@ == message_entry(message@),
            out@ + records_of(stream@.skip(at as int)) == records_of(stream@),
        decreases stream@.len() - at,
    {
        let n: usize = if stream.len() - at <= MAX_STREAM_CHUNK {
            stream.len() - at
        } else {
            MAX_STREAM_CHUNK
        };
        let chunk: &[u8] = vstd::slice::slice_subrange(stream.as_slice(), at, at + n);
        let mut fragment: Vec<u8> = Vec::new();
        push_u16(&mut fragment, n as u16);
        append(&mut fragment, chunk);
        proof {
            let rest = stream@.skip(at as int);
            assert(rest.take(n as int) =~= chunk@);
            assert(rest.skip(n as int) =~= stream@.skip(at + n));
            assert(fragment@ =~= be16(n as int) + chunk@);
            assert(records_of(rest) == chunk_record(chunk@) + records_of(stream@.skip(at + n)));
        }
        let ghost before = out@;
        let pushed: Result<(), CoreError> = encode_record(
            CT_APPLICATION_DATA,
            VER_TLS12,
            fragment.as_slice(),
            &mut out,
        );
        if let Err(e) = pushed {
            return Err(e);
        }
        proof {
            assert(out@ + records_of(stream@.skip(at + n)) =~= before + (chunk_record(chunk@)
                + records_of(stream@.skip(at + n))));
        }
        at += n;
    }
    assert(stream@.skip(at as int) =~= Seq::<u8>::empty());
    assert(out@ =~= records_of(stream@));
    Ok(out)
}

/// What the front of the received bytes holds.
pub enum RecordStep {
    /// Not a whole record yet.
    Incomplete,
    /// A record that declares a fragment above the wire bound.
    Oversized(nat),
    /// A record of another content type.
    WrongType(u8),
    /// A whole record: its fragment, and the bytes after it.
    Complete(Seq<u8>, Seq<u8>),
}

/// Read the record of type `expected` at the front of `wire`.
pub open spec fn next_record(wire: Seq<u8>, expected: u8) -> RecordStep {
    if wire.len() < TLS_RECORD_HEADER_LEN {
        RecordStep::Incomplete
    } else {
        let n = be16_at(wire, 3);
        if n > MAX_RECORD_FRAGMENT_WIRE {
            RecordStep::Oversized(n as nat)
        } else if wire[0] != expected {
            RecordStep::WrongType(wire[0])
        } else if wire.len() < TLS_RECORD_HEADER_LEN + n {
            RecordStep::Incomplete
        } else {
            RecordStep::Complete(wire.subrange(5, 5 + n), wire.skip(5 + n))
        }
    }
}

/// What a fragment carries.
pub enum FragmentStep {
    /// No chunk.
    Empty,
    /// Too short for its chunk length.
    TooSmall,
    /// A chunk length above what is left of the fragment: the two lengths.
    Overrun(nat, nat),
    /// A chunk.
    Chunk(Seq<u8>),
}

/// The chunk inside a fragment; what follows the chunk is padding.
pub open spec fn chunk_of(fragment: Seq<u8>) -> FragmentStep {
    if fragment.len() == 0 {
        FragmentStep::Empty
    } else if fragment.len() < 2 {
        FragmentStep::TooSmall
    } else if be16_at(fragment, 0) > fragment.len() - 2 {
        FragmentStep::Overrun(be16_at(fragment, 0) as nat, (fragment.len() - 2) as nat)
    } else if be16_at(fragment, 0) == 0 {
        FragmentStep::Empty
    } else {
        FragmentStep::Chunk(fragment.subrange(2, 2 + be16_at(fragment, 0)))
    }
}

/// What a de-framer holds.
#[verifier::ext_equal]
pub struct Deframing {
    /// Received bytes that are not parsed yet.
    pub wire: Seq<u8>,
    /// Reassembled stream bytes that are not delivered yet.
    pub stream: Seq<u8>,
    /// The largest message accepted.
    pub cap: nat,
    /// How many records without a chunk came last.
    pub empties: nat,
}

/// Parse every whole record of `s.wire` into `s.stream`, up to the first fault. The
/// second component is the text of that fault.
pub open spec fn drain(s: Deframing) -> (Deframing, Option<Seq<char>>)
    decreases s.wire.len(),
{
    match next_record(s.wire, CT_APPLICATION_DATA) {
        RecordStep::Incomplete => (s, None),
        RecordStep::Oversized(n) => (
            s,
            Some(
                two_numbers(
                    "oversized TLS record from peer: "@,
                    n,
                    " > "@,
                    MAX_RECORD_FRAGMENT_WIRE as nat,
                ),
            ),
        ),
        RecordStep::WrongType(t) => (
            s,
            Some("unexpected TLS content_type in data phase: 0x"@ + hex_byte(t)),
        ),
        RecordStep::Complete(fragment, rest) => match chunk_of(fragment) {
            FragmentStep::Empty => {
                let s1 = Deframing { wire: rest, empties: one_more(s.empties), ..s };
                if s1.empties > MAX_CONSECUTIVE_EMPTY {
                    (s1, Some("too many consecutive empty TLS records (livelock defense)"@))
                } else {
                    drain(s1)
                }
            },
            FragmentStep::TooSmall => (
                Deframing { wire: rest, ..s },
                Some("TLS record fragment too small for inner framing"@),
            ),
            FragmentStep::Overrun(chunk, body) => (
                Deframing { wire: rest, ..s },
                Some(two_numbers("inner chunk_len "@, chunk, " exceeds fragment body "@, body)),
            ),
            FragmentStep::Chunk(chunk) => {
                let s1 = Deframing {
                    wire: rest,
                    stream: s.stream + chunk,
                    empties: 0,
                    ..s
                };
                if s1.stream.len() > s.cap + STREAM_SLACK {
                    (
                        s1,
                        Some(
                            two_numbers(
                                "inner reassembly buffer exceeded cap: "@,
                                s1.stream.len(),
                                " > "@,
                                s.cap,
                            ) + " + "@ + decimal(STREAM_SLACK as nat),
                        ),
                    )
                } else {
                    drain(s1)
                }
            },
        },
    }
}

/// The count after one more record without a chunk; it stops at the counter's limit.
pub open spec fn one_more(n: nat) -> nat {
    if n < u32::MAX {
        n + 1
    } else {
        n
    }
}

/// What a stream buffer holds at its front.
pub enum EntryStep {
    /// Not a whole message yet.
    Incomplete,
    /// A message that declares a length above the cap.
    Oversized(nat),
    /// A whole message, and the stream bytes after it.
    Complete(Seq<u8>, Seq<u8>),
}

/// Read the message at the front of `stream`.
pub open spec fn next_entry(stream: Seq<u8>, cap: nat) -> EntryStep {
    if stream.len() < 4 {
        EntryStep::Incomplete
    } else {
        let n = be32_at(stream, 0);
        if n > cap {
            EntryStep::Oversized(n as nat)
        } else if stream.len() < 4 + n {
            EntryStep::Incomplete
        } else {
            EntryStep::Complete(stream.subrange(4, 4 + n), stream.skip(4 + n))
        }
    }
}

/// The receive side: record bytes in, whole messages out.
pub struct RecordDeframer {
    wire: BytesMut,
    stream: BytesMut,
    cap: usize,
    consecutive_empty: u32,
}

impl View for RecordDeframer {
    type V = Deframing;

    closed spec fn view(&self) -> Deframing {
        Deframing {
            wire: buffered(self.wire),
            stream: buffered(self.stream),
            cap: self.cap as nat,
            empties: self.consecutive_empty as nat,
        }
    }
}

/// The message cap of a phase.
pub open spec fn phase_cap(phase: FramePhase) -> nat {
    match phase {
        FramePhase::Handshake => HANDSHAKE_FRAME_CAP as nat,
        FramePhase::Established => STEADY_STATE_FRAME_CAP as nat,
    }
}

impl RecordDeframer {
    /// An empty de-framer with the cap of the handshake phase.
    pub fn new() -> (d: Self)
        ensures
            d@ == (Deframing {
                wire: Seq::empty(),
                stream: Seq::empty(),
                cap: HANDSHAKE_FRAME_CAP as nat,
                empties: 0,
            }),
            d.wf(),
    {
        RecordDeframer {
            wire: new_buffer(),
            stream: new_buffer(),
            cap: HANDSHAKE_FRAME_CAP,
            consecutive_empty: 0,
        }
    }

    /// The cap is within the larger phase cap, and what is held fits one allocation.
    pub open spec fn wf(&self) -> bool {
        &&& self@.cap <= STEADY_STATE_FRAME_CAP
        &&& self@.wire.len() + self@.stream.len() <= isize::MAX
    }

    /// Set the message cap of `phase`.
    pub fn set_phase(&mut self, phase: FramePhase)
        ensures
            final(self)@ == (Deframing { cap: phase_cap(phase), ..old(self)@ }),
            old(self).wf() ==> final(self).wf(),
    {
        self.cap = match phase {
            FramePhase::Handshake => HANDSHAKE_FRAME_CAP,
            FramePhase::Established => STEADY_STATE_FRAME_CAP,
        };
    }

    /// Feed bytes read from the peer.
    pub fn push(&mut self, data: &[u8])
        requires
            old(self)@.wire.len() + old(self)@.stream.len() + data@.len() <= isize::MAX,
        ensures
            final(self)@ == (Deframing { wire: old(self)@.wire + data@, ..old(self)@ }),
            old(self).wf() ==> final(self).wf(),
    {
        extend_buffer(&mut self.wire, data);
    }

    /// Parse every whole record that has arrived.
    fn drain_records(&mut self) -> (r: Result<(), CoreError>)
        requires
            old(self).wf(),
        ensures
            final(self)@ == drain(old(self)@).0,
            match drain(old(self)@).1 {
                None => r is Ok,
                Some(text) => r matches Err(e) && e.says(text),
            },
            final(self).wf(),
    {
        loop
            invariant
                self.wf(),
                drain(self@) == drain(old(self)@),
            decreases self@.wire.len(),
        {
            let wire: &[u8] = buffer_slice(&self.wire);
            if wire.len() < TLS_RECORD_HEADER_LEN {
                return Ok(());
            }
            let content_type: u8 = wire[0];
            let frag_len: usize = read_u16(wire, 3) as usize;
            if frag_len > MAX_RECORD_FRAGMENT_WIRE {
                return Err(
                    CoreError::NetworkError(
                        two_numbers_text(
                            "oversized TLS record from peer: ",
                            frag_len as u64,
                            " > ",
                            MAX_RECORD_FRAGMENT_WIRE as u64,
                        ),
                    ),
                );
            }
            if content_type != CT_APPLICATION_DATA {
                let mut text: String = "unexpected TLS content_type in data phase: 0x".to_owned();
                push_hex_byte(&mut text, content_type);
                return Err(CoreError::NetworkError(text));
            }
            if wire.len() < TLS_RECORD_HEADER_LEN + frag_len {
                return Ok(());
            }
            let ghost before = self@;
            advance_buffer(&mut self.wire, TLS_RECORD_HEADER_LEN);
            let fragment: Vec<u8> = split_buffer(&mut self.wire, frag_len);
            proof {
                assert(fragment@ =~= before.wire.subrange(5, 5 + frag_len));
                assert(self@.wire =~= before.wire.skip(5 + frag_len));
            }
            if frag_len == 0 {
                if let Err(e) = self.note_empty() {
                    return Err(e);
                }
                continue;
            }
            if frag_len < 2 {
                return Err(network_error("TLS record fragment too small for inner framing"));
            }
            let chunk_len: usize = read_u16(fragment.as_slice(), 0) as usize;
            if chunk_len > frag_len - 2 {
                return Err(
                    CoreError::NetworkError(
                        two_numbers_text(
                            "inner chunk_len ",
                            chunk_len as u64,
                            " exceeds fragment body ",
                            (frag_len - 2) as u64,
                        ),
                    ),
                );
            }
            if chunk_len == 0 {
                if let Err(e) = self.note_empty() {
                    return Err(e);
                }
                continue;
            }
            self.consecutive_empty = 0;
            extend_buffer(
                &mut self.stream,
                vstd::slice::slice_subrange(fragment.as_slice(), 2, 2 + chunk_len),
            );
            let held: usize = buffer_slice(&self.stream).len();
            if held > self.cap + STREAM_SLACK {
                let mut text: String = two_numbers_text(
                    "inner reassembly buffer exceeded cap: ",
                    held as u64,
                    " > ",
                    self.cap as u64,
                );
                text.append(" + ");
                push_decimal(&mut text, STREAM_SLACK as u64);
                return Err(CoreError::NetworkError(text));
            }
        }
    }

    /// Count a record without a chunk, and refuse the peer past the bound.
    fn note_empty(&mut self) -> (r: Result<(), CoreError>)
        ensures
            final(self)@ == (Deframing { empties: one_more(old(self)@.empties), ..old(self)@ }),
            final(self)@.empties <= MAX_CONSECUTIVE_EMPTY ==> r is Ok,
            final(self)@.empties > MAX_CONSECUTIVE_EMPTY ==> (r matches Err(e) && e.says(
                "too many consecutive empty TLS records (livelock defense)"@,
            )),
    {
        self.consecutive_empty = self.consecutive_empty.saturating_add(1);
        if self.consecutive_empty > MAX_CONSECUTIVE_EMPTY {
            return Err(network_error("too many consecutive empty TLS records (livelock defense)"));
        }
        Ok(())
    }

    /// Parse what has arrived, then pop one whole message if the stream holds one.
    pub fn next_message(&mut self) -> (r: Result<Option<Vec<u8>>, CoreError>)
        requires
            old(self).wf(),
        ensures
            final(self).wf(),
            match drain(old(self)@) {
                (s, Some(text)) => (r matches Err(e) && e.says(text)) && final(self)@ == s,
                (s, None) => match next_entry(s.stream, s.cap) {
                    EntryStep::Incomplete => r == Ok::<Option<Vec<u8>>, CoreError>(None)
                        && final(self)@ == s,
                    EntryStep::Oversized(n) => (r matches Err(e) && e.says(
                        two_numbers("oversized inner message from peer: "@, n, " > "@, s.cap),
                    )) && final(self)@ == s,
                    EntryStep::Complete(message, rest) => (r matches Ok(Some(m)) && m@ == message)
                        && final(self)@ == (Deframing { stream: rest, ..s }),
                },
            },
    {
        if let Err(e) = self.drain_records() {
            return Err(e);
        }
        let stream: &[u8] = buffer_slice(&self.stream);
        if stream.len() < 4 {
            return Ok(None);
        }
        let msg_len: usize = read_u32(stream, 0) as usize;
        if msg_len > self.cap {
            return Err(
                CoreError::NetworkError(
                    two_numbers_text(
                        "oversized inner message from peer: ",
                        msg_len as u64,
                        " > ",
                        self.cap as u64,
                    ),
                ),
            );
        }
        if stream.len() < 4 + msg_len {
            return Ok(None);
        }
        let ghost before = self@;
        advance_buffer(&mut self.stream, 4);
        let message: Vec<u8> = split_buffer(&mut self.stream, msg_len);
        proof {
            assert(message@ =~= before.stream.subrange(4, 4 + msg_len));
            assert(self@.stream =~= before.stream.skip(4 + msg_len));
        }
        Ok(Some(message))
    }
}

/// A chunk record is read back as its chunk, whatever follows it on the wire.
proof fn lemma_chunk_record_read(chunk: Seq<u8>, rest: Seq<u8>)
    requires
        0 < chunk.len() <= MAX_STREAM_CHUNK,
    ensures
        next_record(chunk_record(chunk) + rest, CT_APPLICATION_DATA) == RecordStep::Complete(
            be16(chunk.len() as int) + chunk,
            rest,
        ),
        chunk_of(be16(chunk.len() as int) + chunk) == FragmentStep::Chunk(chunk),
{
    let fragment = be16(chunk.len() as int) + chunk;
    let wire = chunk_record(chunk) + rest;
    let n = fragment.len() as int;
    assert(wire[3] == be16(n as int)[0]);
    assert(wire[4] == be16(n as int)[1]);
    assert(be16_at(wire, 3) == n);
    assert(wire.subrange(5, 5 + n) =~= fragment);
    assert(wire.skip(5 + n) =~= rest);
    assert(fragment[0] == be16(chunk.len() as int)[0]);
    assert(fragment[1] == be16(chunk.len() as int)[1]);
    assert(be16_at(fragment, 0) == chunk.len());
    assert(fragment.subrange(2, 2 + chunk.len() as int) =~= chunk);
}

/// No record of a framed message carries a fragment above `MAX_RECORD_FRAGMENT`: the first
/// one keeps to the bound, and those of the rest of the stream follow it.
pub proof fn law_framed_records_keep_to_the_bound(stream: Seq<u8>)
    requires
        stream.len() > 0,
    ensures
        next_record(records_of(stream), CT_APPLICATION_DATA) matches RecordStep::Complete(
            fragment,
            rest,
        ) && fragment.len() <= MAX_RECORD_FRAGMENT && rest == records_of(
            stream.skip(chunk_size(stream)),
        ),
{
    let n = chunk_size(stream);
    lemma_chunk_record_read(stream.take(n), records_of(stream.skip(n)));
}

/// The reassembled stream stays within the cap and its slack as long as the peer meets no
/// fault; the chunk that exceeds them is the last one that is taken in.
pub proof fn law_stream_is_bounded(s: Deframing)
    requires
        s.stream.len() <= s.cap + STREAM_SLACK,
    ensures
        drain(s).1 is None ==> drain(s).0.stream.len() <= s.cap + STREAM_SLACK,
        drain(s).0.stream.len() <= s.cap + STREAM_SLACK + MAX_RECORD_FRAGMENT_WIRE,
        drain(s).0.cap == s.cap,
    decreases s.wire.len(),
{
    if let RecordStep::Complete(fragment, rest) = next_record(s.wire, CT_APPLICATION_DATA) {
        match chunk_of(fragment) {
            FragmentStep::Empty => {
                let s1 = Deframing { wire: rest, empties: one_more(s.empties), ..s };
                law_stream_is_bounded(s1);
            },
            FragmentStep::Chunk(chunk) => {
                let s1 = Deframing { wire: rest, stream: s.stream + chunk, empties: 0, ..s };
                if s1.stream.len() <= s.cap + STREAM_SLACK {
                    law_stream_is_bounded(s1);
                }
            },
            _ => {},
        }
    }
}

/// Draining the records of `stream` appends `stream`, as long as the buffer has room.
proof fn lemma_drain_records_of(s: Deframing, stream: Seq<u8>)
    requires
        s.wire == records_of(stream),
        stream.len() > 0,
        s.stream.len() + stream.len() <= s.cap + STREAM_SLACK,
    ensures
        drain(s) == (
            Deframing { wire: Seq::empty(), stream: s.stream + stream, empties: 0, ..s },
            None::<Seq<char>>,
        ),
    decreases stream.len(),
{
    let n = chunk_size(stream);
    let chunk = stream.take(n);
    let rest = stream.skip(n);
    lemma_chunk_record_read(chunk, records_of(rest));
    let s1 = Deframing { wire: records_of(rest), stream: s.stream + chunk, empties: 0, ..s };
    assert(drain(s) == drain(s1));
    if rest.len() == 0 {
        assert(chunk =~= stream);
        assert(drain(s1) == (s1, None::<Seq<char>>));
    } else {
        lemma_drain_records_of(s1, rest);
        assert(s1.stream + rest =~= s.stream + stream);
    }
}

/// A message within the cap that is framed and fed to an idle de-framer comes back whole,
/// and the de-framer is idle again.
pub proof fn law_framed_message_comes_back(s: Deframing, message: Seq<u8>)
    requires
        s.wire == records_of(message_entry(message)),
        s.stream.len() == 0,
        message.len() <= s.cap,
        s.cap <= STEADY_STATE_FRAME_CAP,
    ensures
        drain(s).1 is None,
        next_entry(drain(s).0.stream, s.cap) == EntryStep::Complete(message, Seq::<u8>::empty()),
        drain(s).0.wire == Seq::<u8>::empty(),
        drain(s).0.cap == s.cap,
        drain(s).0.empties == 0,
{
    let entry = message_entry(message);
    lemma_drain_records_of(s, entry);
    let stream = s.stream + entry;
    assert(stream =~= entry);
    crate::wire::lemma_be_round_trip(message.len() as int);
    assert(entry[0] == be32(message.len() as int)[0]);
    assert(entry[1] == be32(message.len() as int)[1]);
    assert(entry[2] == be32(message.len() as int)[2]);
    assert(entry[3] == be32(message.len() as int)[3]);
    assert(be32_at(entry, 0) == message.len());
    assert(entry.subrange(4, 4 + message.len() as int) =~= message);
    assert(entry.skip(4 + message.len() as int) =~= Seq::<u8>::empty());
}

/// Draining a strict prefix of the records of `stream` meets no fault and appends a strict
/// prefix of `stream`.
proof fn lemma_drain_prefix(s: Deframing, stream: Seq<u8>, k: int)
    requires
        0 <= k < records_of(stream).len(),
        s.wire == records_of(stream).take(k),
        s.stream.len() + stream.len() <= s.cap + STREAM_SLACK,
    ensures
        drain(s).1 is None,
        drain(s).0.cap == s.cap,
        s.stream.len() <= drain(s).0.stream.len() < s.stream.len() + stream.len(),
        drain(s).0.stream == s.stream + stream.take(
            drain(s).0.stream.len() - s.stream.len(),
        ),
    decreases stream.len(),
{
    let n = chunk_size(stream);
    let chunk = stream.take(n);
    let rest = stream.skip(n);
    let record = chunk_record(chunk);
    let all = record + records_of(rest);
    assert(records_of(stream) == all);
    lemma_chunk_record_read(chunk, records_of(rest));
    if k < record.len() {
        if k >= TLS_RECORD_HEADER_LEN {
            assert(s.wire[3] == all[3] && s.wire[4] == all[4] && s.wire[0] == all[0]);
            assert(be16_at(s.wire, 3) == be16_at(all, 3));
        }
        assert(drain(s).0 == s);
        assert(s.stream + stream.take(0) =~= s.stream);
    } else {
        let left = records_of(rest).take(k - record.len());
        assert(s.wire =~= record + left);
        lemma_chunk_record_read(chunk, left);
        let s1 = Deframing { wire: left, stream: s.stream + chunk, empties: 0, ..s };
        assert(drain(s) == drain(s1));
        lemma_drain_prefix(s1, rest, k - record.len());
        let got = drain(s).0.stream;
        assert(s1.stream + rest.take(got.len() - s1.stream.len()) =~= s.stream + stream.take(
            got.len() - s.stream.len(),
        ));
    }
}

/// A strict prefix of a framed message that is fed to an idle de-framer yields no message and
/// no fault: the de-framer waits for the rest.
pub proof fn law_partial_message_is_awaited(s: Deframing, message: Seq<u8>, k: int)
    requires
        0 <= k < records_of(message_entry(message)).len(),
        s.wire == records_of(message_entry(message)).take(k),
        s.stream.len() == 0,
        message.len() <= s.cap,
        s.cap <= STEADY_STATE_FRAME_CAP,
    ensures
        drain(s).1 is None,
        drain(s).0.cap == s.cap,
        next_entry(drain(s).0.stream, s.cap) is Incomplete,
{
    let entry = message_entry(message);
    lemma_drain_prefix(s, entry, k);
    let got = drain(s).0.stream;
    assert(got =~= entry.take(got.len() as int));
    if got.len() >= 4 {
        crate::wire::lemma_be_round_trip(message.len() as int);
        assert(got[0] == be32(message.len() as int)[0]);
        assert(got[1] == be32(message.len() as int)[1]);
        assert(got[2] == be32(message.len() as int)[2]);
        assert(got[3] == be32(message.len() as int)[3]);
        assert(be32_at(got, 0) == message.len());
    }
}

/// A whole record at the front stays the same record when more bytes follow.
proof fn lemma_record_prefix(wire: Seq<u8>, more: Seq<u8>, expected: u8)
    ensures
        next_record(wire, expected) matches RecordStep::Complete(f, rest) ==> next_record(
            wire + more,
            expected,
        ) == RecordStep::Complete(f, rest + more),
{
    if let RecordStep::Complete(f, rest) = next_record(wire, expected) {
        let n = be16_at(wire, 3);
        assert(be16_at(wire + more, 3) == n);
        assert((wire + more).subrange(5, 5 + n) =~= wire.subrange(5, 5 + n));
        assert((wire + more).skip(5 + n) =~= wire.skip(5 + n) + more);
    }
}

/// How the bytes are cut into reads does not matter: draining after each of two reads
/// leaves the same state and the same fault as draining once after both.
pub proof fn law_reads_may_be_cut_anywhere(s: Deframing, more: Seq<u8>)
    requires
        drain(s).1 is None,
    ensures
        ({
            let first = drain(s).0;
            drain(Deframing { wire: first.wire + more, ..first }) == drain(
                Deframing { wire: s.wire + more, ..s },
            )
        }),
    decreases s.wire.len(),
{
    lemma_record_prefix(s.wire, more, CT_APPLICATION_DATA);
    let both = Deframing { wire: s.wire + more, ..s };
    match next_record(s.wire, CT_APPLICATION_DATA) {
        RecordStep::Complete(fragment, rest) => {
            match chunk_of(fragment) {
                FragmentStep::Empty => {
                    let s1 = Deframing { wire: rest, empties: one_more(s.empties), ..s };
                    law_reads_may_be_cut_anywhere(s1, more);
                },
                FragmentStep::Chunk(chunk) => {
                    let s1 = Deframing {
                        wire: rest,
                        stream: s.stream + chunk,
                        empties: 0,
                        ..s
                    };
                    law_reads_may_be_cut_anywhere(s1, more);
                },
                _ => {},
            }
        },
        _ => {},
    }
}

/// What a reader makes of the front of the wire, in numbers: nothing of less than five bytes or of a record that
/// is not whole, a refusal of a fragment above 16640 bytes or of another type, and else the fragment.
pub proof fn law_record_in_numbers(wire: Seq<u8>, expected: u8)
    ensures
        wire.len() < 5 ==> next_record(wire, expected) is Incomplete,
        wire.len() >= 5 ==> {
            let n = wire[3] * 256 + wire[4];
            &&& n > 16_640 ==> next_record(wire, expected) == RecordStep::Oversized(n as nat)
            &&& n <= 16_640 && wire[0] != expected ==> next_record(wire, expected)
                == RecordStep::WrongType(wire[0])
            &&& n <= 16_640 && wire[0] == expected && wire.len() < 5 + n ==> next_record(
                wire,
                expected,
            ) is Incomplete
            &&& n <= 16_640 && wire[0] == expected && wire.len() >= 5 + n ==> next_record(
                wire,
                expected,
            ) == RecordStep::Complete(wire.subrange(5, 5 + n), wire.skip(5 + n))
        },
{
}

/// What a fragment carries: the chunk of the length in front, whatever padding follows it; nothing where that
/// length is zero or the fragment is empty. A fragment of one byte, or of less than its chunk, is refused.
pub proof fn law_padding_is_ignored(chunk: Seq<u8>, padding: Seq<u8>, fragment: Seq<u8>)
    ensures
        0 < chunk.len() <= 65_535 ==> chunk_of(be16(chunk.len() as int) + chunk + padding)
            == FragmentStep::Chunk(chunk),
        chunk_of(be16(0) + padding) is Empty,
        chunk_of(Seq::empty()) is Empty,
        fragment.len() == 1 ==> chunk_of(fragment) is TooSmall,
        fragment.len() >= 2 && fragment[0] * 256 + fragment[1] > fragment.len() - 2 ==> chunk_of(
            fragment,
        ) is Overrun,
{
    let f = be16(chunk.len() as int) + chunk + padding;
    assert(f[0] == be16(chunk.len() as int)[0]);
    assert(f[1] == be16(chunk.len() as int)[1]);
    if 0 < chunk.len() <= 65_535 {
        assert(f.subrange(2, 2 + chunk.len() as int) =~= chunk);
    }
    let z = be16(0) + padding;
    assert(z[0] == be16(0)[0] && z[1] == be16(0)[1]);
}

/// How many decoys are borne: a record without a chunk is dropped while no more than 64 come in a row, and the
/// 65th is a fault; a chunk starts the count anew, and joins the stream, unless that grows by more than 256 KiB
/// above the cap.
pub proof fn law_decoys_and_chunks(s: Deframing, fragment: Seq<u8>, rest: Seq<u8>)
    requires
        next_record(s.wire, 0x17) == RecordStep::Complete(fragment, rest),
        s.empties <= 64,
    ensures
        chunk_of(fragment) is Empty && s.empties < 64 ==> drain(s) == drain(
            Deframing { wire: rest, empties: (s.empties + 1) as nat, ..s },
        ),
        chunk_of(fragment) is Empty && s.empties == 64 ==> drain(s).1 is Some && drain(s).0.stream
            == s.stream,
        chunk_of(fragment) matches FragmentStep::Chunk(chunk) ==> if s.stream.len() + chunk.len()
            <= s.cap + 262_144 {
            drain(s) == drain(
                Deframing { wire: rest, stream: s.stream + chunk, empties: 0, ..s },
            )
        } else {
            drain(s).1 is Some
        },
        chunk_of(fragment) is TooSmall || chunk_of(fragment) is Overrun ==> drain(s).1 is Some
            && drain(s).0.stream == s.stream,
{
}

/// What stops the de-framer: a record that is too large or of another type than application data is a fault and
/// stays; one that is not whole is awaited.
pub proof fn law_what_stops_the_deframer(s: Deframing)
    ensures
        next_record(s.wire, 0x17) is Incomplete ==> drain(s) == (s, None::<Seq<char>>),
        next_record(s.wire, 0x17) is Oversized || next_record(s.wire, 0x17) is WrongType ==> drain(
            s,
        ).0 == s && drain(s).1 is Some,
{
}

/// The message caps: 64 KiB before the session is established, and 4 MiB after. A message within the cap comes
/// out once it is whole, and one that announces more is refused at once.
pub proof fn law_message_caps(stream: Seq<u8>, phase: FramePhase)
    ensures
        phase_cap(FramePhase::Handshake) == 65_536,
        phase_cap(FramePhase::Established) == 4_194_304,
        stream.len() < 4 ==> next_entry(stream, phase_cap(phase)) is Incomplete,
        stream.len() >= 4 ==> {
            let n = stream[0] * 16777216 + stream[1] * 65536 + stream[2] * 256 + stream[3];
            let cap = phase_cap(phase);
            &&& n > cap ==> next_entry(stream, cap) == EntryStep::Oversized(n as nat)
            &&& n <= cap && stream.len() < 4 + n ==> next_entry(stream, cap) is Incomplete
            &&& n <= cap && stream.len() >= 4 + n ==> next_entry(stream, cap) == EntryStep::Complete(
                stream.subrange(4, 4 + n),
                stream.skip(4 + n),
            )
        },
{
}

/// What a record looks like: its type, its version, the length of its fragment, and the fragment. Records of data
/// are of type 0x17 and version 0x0303, and carry a chunk of up to 16382 bytes behind its length.
pub proof fn law_record_layout(content_type: u8, version: u16, fragment: Seq<u8>, chunk: Seq<u8>)
    requires
        fragment.len() <= 65_535,
        chunk.len() <= 65_533,
    ensures
        ({
            let r = record_bytes(content_type, version, fragment);
            &&& r.len() == 5 + fragment.len()
            &&& r[0] == content_type
            &&& r[1] * 256 + r[2] == version
            &&& r[3] * 256 + r[4] == fragment.len()
            &&& r.skip(5) == fragment
        }),
        chunk_record(chunk) == record_bytes(0x17, 0x0303, be16(chunk.len() as int) + chunk),
        chunk_size(chunk) == (if chunk.len() <= 16_382 {
            chunk.len() as int
        } else {
            16_382
        }),
{
    let r = record_bytes(content_type, version, fragment);
    assert(r[1] == be16(version as int)[0] && r[2] == be16(version as int)[1]);
    assert(r[3] == be16(fragment.len() as int)[0] && r[4] == be16(fragment.len() as int)[1]);
    assert(r.skip(5) =~= fragment);
}

} // verus!
