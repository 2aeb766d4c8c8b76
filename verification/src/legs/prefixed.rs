//! Length-prefixed messages over a byte stream: `[len u32 be][message]`, and their
//! reassembly from whatever pieces the stream delivers.

use crate::bytebuf::{advance_buffer, buffer_slice, buffered, extend_buffer, new_buffer};
use crate::bytebuf::split_buffer;
use crate::wire::{append, be32, be32_at, push_u32, read_u32};
use bytes::BytesMut;
use vstd::prelude::*;

verus! {

/// Width of the length prefix.
pub const PREFIX_LEN: usize = 4;

/// Most bytes of a message that are asked for at once, so that a prefix alone commits
/// no memory for the length it announces.
pub const RECV_CHUNK: usize = 65536;

/// The stream form of a message. The prefix holds the low 32 bits of the length.
pub open spec fn prefixed_message(data: Seq<u8>) -> Seq<u8> {
    be32(data.len() as int) + data
}

/// The stream form of a message.
pub fn prefix_message(data: &[u8]) -> (out: Vec<u8>)
    ensures
        out@ == prefixed_message(data@),
{
    let mut out: Vec<u8> = Vec::new();
    let len: u32 = (data.len() as u64 % 4294967296) as u32;
    push_u32(&mut out, len);
    assert(out@ =~= be32(len as int));
    proof {
        crate::wire::lemma_be32_low_bits(data@.len() as int);
    }
    append(&mut out, data);
    out
}

/// What the bytes received so far amount to.
#[verifier::ext_equal]
pub enum Arrived {
    /// The next message is not complete.
    Incomplete,
    /// A message is complete, and `rest` is behind it.
    Message { message: Seq<u8>, rest: Seq<u8> },
    /// The prefix announces more than the cap.
    TooLarge(int),
}

/// What received bytes amount to where messages have at most `cap` bytes.
pub open spec fn arrived(received: Seq<u8>, cap: nat) -> Arrived {
    if received.len() < PREFIX_LEN {
        Arrived::Incomplete
    } else {
        let len = be32_at(received, 0);
        if len > cap {
            Arrived::TooLarge(len)
        } else if received.len() < PREFIX_LEN + len {
            Arrived::Incomplete
        } else {
            Arrived::Message {
                message: received.subrange(4, 4 + len),
                rest: received.skip(4 + len),
            }
        }
    }
}

/// How many bytes to ask the stream for next: those that the prefix misses, or those that
/// the message misses, up to a chunk.
pub open spec fn bytes_wanted(received: Seq<u8>) -> int {
    if received.len() < PREFIX_LEN {
        PREFIX_LEN - received.len()
    } else {
        let missing = 4 + be32_at(received, 0) - received.len();
        if missing < 0 {
            0
        } else if missing <= RECV_CHUNK {
            missing
        } else {
            RECV_CHUNK as int
        }
    }
}

/// The next step of reassembly.
#[derive(Debug)]
pub enum PrefixStep {
    /// More bytes are needed.
    NeedMore,
    /// A message.
    Message(Vec<u8>),
    /// The announced length exceeds the cap.
    TooLarge(u32),
}

/// Reassembles length-prefixed messages.
pub struct PrefixReader {
    buf: BytesMut,
    cap: usize,
}

impl View for PrefixReader {
    type V = Seq<u8>;

    closed spec fn view(&self) -> Seq<u8> {
        buffered(self.buf)
    }
}

impl PrefixReader {
    /// The largest message.
    pub closed spec fn spec_cap(&self) -> nat {
        self.cap as nat
    }

    /// A reader of messages of at most `cap` bytes.
    pub fn new(cap: usize) -> (r: Self)
        ensures
            r@ == Seq::<u8>::empty(),
            r.spec_cap() == cap,
    {
        PrefixReader { buf: new_buffer(), cap }
    }

    /// Add bytes that the stream delivered.
    pub fn feed(&mut self, data: &[u8])
        requires
            old(self)@.len() + data@.len() <= isize::MAX,
        ensures
            final(self)@ == old(self)@ + data@,
            final(self).spec_cap() == old(self).spec_cap(),
    {
        extend_buffer(&mut self.buf, data);
    }

    /// How many bytes to ask the stream for next.
    pub fn wanted(&self) -> (n: usize)
        ensures
            n == bytes_wanted(self@),
    {
        let s = buffer_slice(&self.buf);
        if s.len() < PREFIX_LEN {
            return PREFIX_LEN - s.len();
        }
        let total: u64 = 4 + read_u32(s, 0) as u64;
        let have: u64 = s.len() as u64;
        if total <= have {
            0
        } else if total - have <= RECV_CHUNK as u64 {
            (total - have) as usize
        } else {
            RECV_CHUNK
        }
    }

    /// Take the next message out, if it is complete.
    pub fn next_message(&mut self) -> (step: PrefixStep)
        ensures
            final(self).spec_cap() == old(self).spec_cap(),
            match arrived(old(self)@, old(self).spec_cap()) {
                Arrived::Incomplete => step is NeedMore && final(self)@ == old(self)@,
                Arrived::Message { message, rest } => step matches PrefixStep::Message(m) && m@
                    == message && final(self)@ == rest,
                Arrived::TooLarge(len) => {
                    &&& step matches PrefixStep::TooLarge(n) && n == len
                    &&& final(self)@ == old(self)@
                },
            },
    {
        let s = buffer_slice(&self.buf);
        if s.len() < PREFIX_LEN {
            return PrefixStep::NeedMore;
        }
        let len: u32 = read_u32(s, 0);
        if len as u64 > self.cap as u64 {
            return PrefixStep::TooLarge(len);
        }
        if s.len() - PREFIX_LEN < len as usize {
            return PrefixStep::NeedMore;
        }
        let ghost all = self@;
        advance_buffer(&mut self.buf, PREFIX_LEN);
        let message = split_buffer(&mut self.buf, len as usize);
        assert(message@ =~= all.subrange(4, 4 + len as int));
        assert(self@ =~= all.skip(4 + len as int));
        PrefixStep::Message(message)
    }

    /// Take out the prefix in front, without its message.
    pub fn drop_prefix(&mut self)
        requires
            old(self)@.len() >= PREFIX_LEN,
        ensures
            final(self)@ == old(self)@.skip(PREFIX_LEN as int),
            final(self).spec_cap() == old(self).spec_cap(),
    {
        advance_buffer(&mut self.buf, PREFIX_LEN);
    }

    /// Forget the bytes that were received.
    pub fn clear(&mut self)
        ensures
            final(self)@ == Seq::<u8>::empty(),
            final(self).spec_cap() == old(self).spec_cap(),
    {
        self.buf = new_buffer();
    }
}

/// A message that fits the cap is read back from its stream form, and what follows it stays.
pub proof fn law_message_is_read_back(data: Seq<u8>, rest: Seq<u8>, cap: nat)
    requires
        data.len() <= cap,
        data.len() <= u32::MAX,
    ensures
        arrived(prefixed_message(data) + rest, cap) == (Arrived::Message { message: data, rest }),
{
    let all = prefixed_message(data) + rest;
    assert(all.subrange(0, 4) =~= be32(data.len() as int));
    crate::wire::lemma_be32_inside(all, 0, data.len() as int);
    assert(all.subrange(4, 4 + data.len() as int) =~= data);
    assert(all.skip(4 + data.len() as int) =~= rest);
}

/// A strict prefix of the stream form of a message amounts to nothing yet, and the reader
/// asks for at most what is missing.
pub proof fn law_pieces_wait(data: Seq<u8>, n: int, cap: nat)
    requires
        data.len() <= cap,
        data.len() <= u32::MAX,
        0 <= n < prefixed_message(data).len(),
    ensures
        arrived(prefixed_message(data).take(n), cap) == Arrived::Incomplete,
        0 < bytes_wanted(prefixed_message(data).take(n)) <= prefixed_message(data).len() - n,
{
    let all = prefixed_message(data);
    let part = all.take(n);
    if n >= 4 {
        assert(part.subrange(0, 4) =~= be32(data.len() as int));
        crate::wire::lemma_be32_inside(part, 0, data.len() as int);
    }
}

/// What a reader makes of bytes, in numbers: nothing of less than four, a refusal where the big-endian number in
/// front exceeds the cap, and else the message of that length once it is there.
pub proof fn law_prefix_in_numbers(received: Seq<u8>, cap: nat)
    ensures
        received.len() < 4 ==> arrived(received, cap) is Incomplete && bytes_wanted(received) == 4
            - received.len(),
        received.len() >= 4 ==> {
            let n = received[0] * 16777216 + received[1] * 65536 + received[2] * 256 + received[3];
            &&& n > cap ==> arrived(received, cap) == Arrived::TooLarge(n)
            &&& n <= cap && received.len() < 4 + n ==> arrived(received, cap) is Incomplete
            &&& n <= cap && received.len() >= 4 + n ==> arrived(received, cap) == (Arrived::Message {
                message: received.subrange(4, 4 + n),
                rest: received.skip(4 + n),
            })
            &&& received.len() >= 4 + n ==> bytes_wanted(received) == 0
            &&& 0 < 4 + n - received.len() <= 65_536 ==> bytes_wanted(received) == 4 + n
                - received.len()
            &&& 4 + n - received.len() > 65_536 ==> bytes_wanted(received) == 65_536
        },
{
}

} // verus!
