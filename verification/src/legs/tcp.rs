//! The TCP leg: length-prefixed messages over a stream. The caller owns the socket.

use super::prefixed::{arrived, prefix_message, prefixed_message, Arrived, PrefixReader, PrefixStep};
use vstd::prelude::*;

verus! {

/// Largest message that is received.
pub const MAX_MESSAGE: usize = 10485760;

/// The round-trip estimate before the first sample, in milliseconds.
pub const INITIAL_RTT_MS: u32 = 100;

/// A failure of a stream leg.
#[derive(Debug, Clone, Copy, PartialEq, Eq, Structural)]
pub enum LegError {
    /// The leg is not connected.
    NotConnected,
    /// The peer closed the connection.
    ConnectionClosed,
    /// The peer announced a message above the cap.
    MessageTooLarge,
}

impl LegError {
    /// The message of the error.
    pub open spec fn spec_text(self) -> Seq<char> {
        match self {
            LegError::NotConnected => "TCP not connected"@,
            LegError::ConnectionClosed => "Connection closed"@,
            LegError::MessageTooLarge => "Message too large"@,
        }
    }

    /// The message of the error.
    pub fn to_text(&self) -> (s: String)
        ensures
            s@ == self.spec_text(),
    {
        match self {
            LegError::NotConnected => "TCP not connected".to_owned(),
            LegError::ConnectionClosed => "Connection closed".to_owned(),
            LegError::MessageTooLarge => "Message too large".to_owned(),
        }
    }
}

/// A round-trip estimate after a sample: seven parts of the old one and one of the sample.
pub open spec fn smoothed(current: u32, sample: u32) -> int {
    (7 * current + sample) / 8
}

/// A round-trip estimate after a sample.
pub fn smooth(current: u32, sample: u32) -> (rtt: u32)
    ensures
        rtt == smoothed(current, sample),
{
    ((7 * current as u64 + sample as u64) / 8) as u32
}

/// The TCP leg.
pub struct TcpLeg {
    rtt_ms: u32,
    available: bool,
    reader: PrefixReader,
}

/// The state of a TCP leg.
#[verifier::ext_equal]
pub struct TcpState {
    pub rtt_ms: u32,
    pub available: bool,
    /// Bytes received and not consumed.
    pub received: Seq<u8>,
}

impl View for TcpLeg {
    type V = TcpState;

    closed spec fn view(&self) -> TcpState {
        TcpState { rtt_ms: self.rtt_ms, available: self.available, received: self.reader@ }
    }
}

impl TcpLeg {
    #[verifier::type_invariant]
    spec fn caps_messages(self) -> bool {
        self.reader.spec_cap() == MAX_MESSAGE
    }

    /// A leg that is not connected.
    pub fn new() -> (leg: Self)
        ensures
            leg@ == (TcpState {
                rtt_ms: INITIAL_RTT_MS,
                available: false,
                received: Seq::empty(),
            }),
    {
        TcpLeg {
            rtt_ms: INITIAL_RTT_MS,
            available: false,
            reader: PrefixReader::new(MAX_MESSAGE),
        }
    }

    /// A leg that is connected, with `rtt_ms` as what connecting took.
    pub fn connected(rtt_ms: u32) -> (leg: Self)
        ensures
            leg@ == (TcpState { rtt_ms, available: true, received: Seq::empty() }),
    {
        TcpLeg { rtt_ms, available: true, reader: PrefixReader::new(MAX_MESSAGE) }
    }

    /// A leg over a stream that was connected elsewhere.
    pub fn from_stream() -> (leg: Self)
        ensures
            leg@ == (TcpState {
                rtt_ms: INITIAL_RTT_MS,
                available: true,
                received: Seq::empty(),
            }),
    {
        TcpLeg::connected(INITIAL_RTT_MS)
    }

    /// Take a round-trip sample into the estimate.
    pub fn update_rtt(&mut self, sample_ms: u32)
        ensures
            final(self)@ == (TcpState {
                rtt_ms: smoothed(old(self)@.rtt_ms, sample_ms) as u32,
                ..old(self)@
            }),
    {
        proof {
            use_type_invariant(&*self);
        }
        self.rtt_ms = smooth(self.rtt_ms, sample_ms);
    }

    /// Whether the leg is connected.
    pub fn is_available(&self) -> (b: bool)
        ensures
            b == self@.available,
    {
        self.available
    }

    /// The round-trip estimate in milliseconds.
    pub fn rtt_ms(&self) -> (ms: u32)
        ensures
            ms == self@.rtt_ms,
    {
        self.rtt_ms
    }

    /// The loss in percent, which a reliable stream has none of.
    pub fn loss_percent(&self) -> (p: u8)
        ensures
            p == 0,
    {
        0
    }

    /// Close the leg.
    pub fn close(&mut self)
        ensures
            final(self)@ == (TcpState { available: false, ..old(self)@ }),
    {
        proof {
            use_type_invariant(&*self);
        }
        self.available = false;
    }

    /// The bytes to write for a message.
    pub fn send(&self, data: &[u8]) -> (r: Result<Vec<u8>, LegError>)
        ensures
            self@.available ==> (r matches Ok(out) && out@ == prefixed_message(data@)),
            !self@.available ==> r == Err::<Vec<u8>, LegError>(LegError::NotConnected),
    {
        if !self.available {
            return Err(LegError::NotConnected);
        }
        Ok(prefix_message(data))
    }

    /// Add bytes that the socket delivered. None at all means that the peer closed.
    pub fn feed(&mut self, data: &[u8]) -> (r: Result<(), LegError>)
        requires
            old(self)@.received.len() + data@.len() <= isize::MAX,
        ensures
            data@.len() == 0 ==> r == Err::<(), LegError>(LegError::ConnectionClosed),
            data@.len() > 0 ==> r == Ok::<(), LegError>(()),
            final(self)@ == (TcpState { received: old(self)@.received + data@, ..old(self)@ }),
    {
        proof {
            use_type_invariant(&*self);
        }
        if data.len() == 0 {
            assert(self@.received + data@ =~= self@.received);
            return Err(LegError::ConnectionClosed);
        }
        let mut fresh = TcpLeg::new();
        std::mem::swap(&mut fresh, self);
        proof {
            use_type_invariant(&fresh);
        }
        let TcpLeg { rtt_ms, available, mut reader } = fresh;
        reader.feed(data);
        *self = TcpLeg { rtt_ms, available, reader };
        Ok(())
    }

    /// The next message, if it is complete.
    pub fn recv(&mut self) -> (r: Result<Option<Vec<u8>>, LegError>)
        ensures
            !old(self)@.available ==> r == Err::<Option<Vec<u8>>, LegError>(
                LegError::NotConnected,
            ) && final(self)@ == old(self)@,
            old(self)@.available ==> (match arrived(
                old(self)@.received,
                MAX_MESSAGE as nat,
            ) {
                Arrived::Incomplete => r == Ok::<Option<Vec<u8>>, LegError>(None) && final(self)@
                    == old(self)@,
                Arrived::Message { message, rest } => {
                    &&& r matches Ok(Some(m)) && m@ == message
                    &&& final(self)@ == (TcpState { received: rest, ..old(self)@ })
                },
                Arrived::TooLarge(_) => r == Err::<Option<Vec<u8>>, LegError>(
                    LegError::MessageTooLarge,
                ) && final(self)@ == old(self)@,
            }),
    {
        if !self.available {
            return Err(LegError::NotConnected);
        }
        let mut fresh = TcpLeg::new();
        std::mem::swap(&mut fresh, self);
        proof {
            use_type_invariant(&fresh);
        }
        let TcpLeg { rtt_ms, available, mut reader } = fresh;
        let step = reader.next_message();
        *self = TcpLeg { rtt_ms, available, reader };
        match step {
            PrefixStep::NeedMore => Ok(None),
            PrefixStep::Message(m) => Ok(Some(m)),
            PrefixStep::TooLarge(_) => Err(LegError::MessageTooLarge),
        }
    }
}

impl Default for TcpLeg {
    fn default() -> (leg: Self)
        ensures
            leg@ == (TcpState {
                rtt_ms: INITIAL_RTT_MS,
                available: false,
                received: Seq::empty(),
            }),
    {
        TcpLeg::new()
    }
}

/// The round-trip estimate stays between what it was and the sample.
pub proof fn law_estimate_moves_towards_the_sample(current: u32, sample: u32)
    ensures
        current <= sample ==> current <= smoothed(current, sample) <= sample,
        current >= sample ==> sample <= smoothed(current, sample) <= current,
{
}

/// What crosses a TCP leg: every message of up to 10 MiB comes out as it went in, with what follows it left
/// behind, and no longer one is accepted.
pub proof fn law_message_crosses_the_leg(data: Seq<u8>, rest: Seq<u8>)
    requires
        data.len() <= u32::MAX,
    ensures
        data.len() <= 10_485_760 ==> arrived(prefixed_message(data) + rest, MAX_MESSAGE as nat) == (
        Arrived::Message { message: data, rest }),
        data.len() > 10_485_760 ==> arrived(prefixed_message(data) + rest, MAX_MESSAGE as nat)
            == Arrived::TooLarge(data.len() as int),
        INITIAL_RTT_MS == 100,
{
    if data.len() <= 10_485_760 {
        super::prefixed::law_message_is_read_back(data, rest, MAX_MESSAGE as nat);
    } else {
        let all = prefixed_message(data) + rest;
        assert(all.subrange(0, 4) =~= crate::wire::be32(data.len() as int));
        crate::wire::lemma_be32_inside(all, 0, data.len() as int);
    }
}

/// A sample weighs one eighth in the round-trip estimate, rounded down.
pub proof fn law_sample_weighs_an_eighth(current: u32, sample: u32)
    ensures
        8 * smoothed(current, sample) <= 7 * current + sample < 8 * smoothed(current, sample) + 8,
{
}

} // verus!
