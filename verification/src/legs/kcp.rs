//! The KCP leg: length-prefixed messages over a reliable datagram stream. The caller owns
//! the stream.

use super::prefixed::{arrived, prefix_message, prefixed_message, Arrived, PrefixReader, PrefixStep};
use super::tcp::{smooth, smoothed};
use kcp_tokio::KcpConfig;
use vstd::prelude::*;

verus! {

/// Largest message that is received.
pub const KCP_MAX_FRAME_BYTES: usize = 4194304;

/// How long a message may take to arrive, in milliseconds.
pub const KCP_READ_TIMEOUT_MS: u64 = 30_000;

/// The round-trip estimate before the first sample, in milliseconds.
pub const KCP_INITIAL_RTT_MS: u32 = 50;

/// How eagerly KCP retransmits.
#[derive(Debug, Clone, Copy, PartialEq, Eq, Structural)]
pub struct KcpDelay {
    pub nodelay: bool,
    /// Update interval in milliseconds.
    pub interval: u32,
    /// How many later acknowledgements trigger a retransmission.
    pub resend: u32,
    pub no_congestion_control: bool,
}

/// Calls `KcpConfig::fast_mode`, and reads the delay settings that it makes.
#[verifier::external_body]
fn fast_mode() -> (d: KcpDelay)
    ensures
        d == (KcpDelay { nodelay: true, interval: 8, resend: 2, no_congestion_control: false }),
{
    let delay = KcpConfig::new().fast_mode().nodelay;
    KcpDelay {
        nodelay: delay.nodelay,
        interval: delay.interval,
        resend: delay.resend,
        no_congestion_control: delay.no_congestion_control,
    }
}

/// Calls `KcpConfig::turbo_mode`, and reads the delay settings that it makes.
#[verifier::external_body]
fn turbo_mode() -> (d: KcpDelay)
    ensures
        d == (KcpDelay { nodelay: true, interval: 4, resend: 1, no_congestion_control: true }),
{
    let delay = KcpConfig::new().turbo_mode().nodelay;
    KcpDelay {
        nodelay: delay.nodelay,
        interval: delay.interval,
        resend: delay.resend,
        no_congestion_control: delay.no_congestion_control,
    }
}

/// A performance mode.
#[derive(Debug, Clone, Copy, PartialEq, Eq, Structural)]
pub enum KcpMode {
    /// Balanced.
    Normal,
    /// Lower latency.
    Fast,
    /// Aggressive retransmission.
    Turbo,
}

impl Default for KcpMode {
    fn default() -> (m: Self)
        ensures
            m == KcpMode::Normal,
    {
        KcpMode::Normal
    }
}

impl KcpMode {
    /// The delay settings of the mode: the normal one keeps what is set.
    pub fn apply(&self, delay: KcpDelay) -> (d: KcpDelay)
        ensures
            d == (match self {
                KcpMode::Normal => delay,
                KcpMode::Fast => KcpDelay {
                    nodelay: true,
                    interval: 8,
                    resend: 2,
                    no_congestion_control: false,
                },
                KcpMode::Turbo => KcpDelay {
                    nodelay: true,
                    interval: 4,
                    resend: 1,
                    no_congestion_control: true,
                },
            }),
    {
        match self {
            KcpMode::Normal => delay,
            KcpMode::Fast => fast_mode(),
            KcpMode::Turbo => turbo_mode(),
        }
    }
}

/// The configuration of a KCP leg.
#[derive(Debug, Clone, Copy, PartialEq, Eq, Structural)]
pub struct KcpLegConfig {
    pub mtu: u32,
    /// Send window.
    pub snd_wnd: u32,
    /// Receive window.
    pub rcv_wnd: u32,
    pub mode: KcpMode,
}

impl KcpLegConfig {
    /// The default configuration.
    pub open spec fn standard() -> KcpLegConfig {
        KcpLegConfig { mtu: 1400, snd_wnd: 256, rcv_wnd: 256, mode: KcpMode::Fast }
    }
}

impl Default for KcpLegConfig {
    fn default() -> (c: Self)
        ensures
            c == KcpLegConfig::standard(),
    {
        KcpLegConfig { mtu: 1400, snd_wnd: 256, rcv_wnd: 256, mode: KcpMode::Fast }
    }
}

/// A failure of the KCP leg.
#[derive(Debug, Clone, Copy, PartialEq, Eq, Structural)]
pub enum KcpError {
    NotConnected,
    MessageTooLarge,
    TimedOut,
}

impl KcpError {
    /// The message of the error.
    pub open spec fn spec_text(self) -> Seq<char> {
        match self {
            KcpError::NotConnected => "KCP not connected"@,
            KcpError::MessageTooLarge => "Message too large"@,
            KcpError::TimedOut => "KCP read timed out"@,
        }
    }

    /// The message of the error.
    pub fn to_text(&self) -> (s: String)
        ensures
            s@ == self.spec_text(),
    {
        match self {
            KcpError::NotConnected => "KCP not connected".to_owned(),
            KcpError::MessageTooLarge => "Message too large".to_owned(),
            KcpError::TimedOut => "KCP read timed out".to_owned(),
        }
    }
}

/// A byte counter after a message of `len` bytes and its prefix. It wraps at its limit.
pub open spec fn counted(counter: u32, len: nat) -> u32 {
    ((counter + len + 4) % 4294967296) as u32
}

fn count(counter: u32, len: usize) -> (c: u32)
    ensures
        c == counted(counter, len as nat),
{
    ((counter as u128 + len as u128 + 4) % 4294967296) as u32
}

/// The state of a KCP leg.
#[verifier::ext_equal]
pub struct KcpState {
    pub config: KcpLegConfig,
    pub rtt_ms: u32,
    pub loss_percent: u8,
    pub available: bool,
    /// Bytes sent, prefixes counted.
    pub bytes_sent: u32,
    /// Bytes received, prefixes counted.
    pub bytes_received: u32,
    /// Bytes received and not consumed.
    pub received: Seq<u8>,
}

impl KcpState {
    /// A leg at its start.
    pub open spec fn fresh(config: KcpLegConfig, rtt_ms: u32, available: bool) -> KcpState {
        KcpState {
            config,
            rtt_ms,
            loss_percent: 0,
            available,
            bytes_sent: 0,
            bytes_received: 0,
            received: Seq::empty(),
        }
    }
}

/// The KCP leg.
pub struct KcpLeg {
    config: KcpLegConfig,
    rtt_ms: u32,
    loss_percent: u8,
    available: bool,
    bytes_sent: u32,
    bytes_received: u32,
    reader: PrefixReader,
}

impl View for KcpLeg {
    type V = KcpState;

    closed spec fn view(&self) -> KcpState {
        KcpState {
            config: self.config,
            rtt_ms: self.rtt_ms,
            loss_percent: self.loss_percent,
            available: self.available,
            bytes_sent: self.bytes_sent,
            bytes_received: self.bytes_received,
            received: self.reader@,
        }
    }
}

impl KcpLeg {
    /// Whether the leg caps messages as it should.
    pub closed spec fn wf(&self) -> bool {
        self.reader.spec_cap() == KCP_MAX_FRAME_BYTES
    }

    fn make(config: KcpLegConfig, rtt_ms: u32, available: bool) -> (leg: Self)
        ensures
            leg.wf(),
            leg@ == KcpState::fresh(config, rtt_ms, available),
    {
        KcpLeg {
            config,
            rtt_ms,
            loss_percent: 0,
            available,
            bytes_sent: 0,
            bytes_received: 0,
            reader: PrefixReader::new(KCP_MAX_FRAME_BYTES),
        }
    }

    /// A leg that is not connected, with the default configuration.
    pub fn new() -> (leg: Self)
        ensures
            leg.wf(),
            leg@ == KcpState::fresh(KcpLegConfig::standard(), KCP_INITIAL_RTT_MS, false),
    {
        KcpLeg::with_config(
            KcpLegConfig { mtu: 1400, snd_wnd: 256, rcv_wnd: 256, mode: KcpMode::Fast },
        )
    }

    /// A leg that is not connected.
    pub fn with_config(config: KcpLegConfig) -> (leg: Self)
        ensures
            leg.wf(),
            leg@ == KcpState::fresh(config, KCP_INITIAL_RTT_MS, false),
    {
        KcpLeg::make(config, KCP_INITIAL_RTT_MS, false)
    }

    /// A leg that is connected, with `rtt_ms` as what connecting took.
    pub fn connected(config: KcpLegConfig, rtt_ms: u32) -> (leg: Self)
        ensures
            leg.wf(),
            leg@ == KcpState::fresh(config, rtt_ms, true),
    {
        KcpLeg::make(config, rtt_ms, true)
    }

    /// A leg over a stream that was connected elsewhere.
    pub fn from_stream(config: KcpLegConfig) -> (leg: Self)
        ensures
            leg.wf(),
            leg@ == KcpState::fresh(config, KCP_INITIAL_RTT_MS, true),
    {
        KcpLeg::make(config, KCP_INITIAL_RTT_MS, true)
    }

    /// Take a round-trip sample into the estimate.
    pub fn update_rtt(&mut self, sample_ms: u32)
        ensures
            final(self).wf() == old(self).wf(),
            final(self)@ == (KcpState {
                rtt_ms: smoothed(old(self)@.rtt_ms, sample_ms) as u32,
                ..old(self)@
            }),
    {
        self.rtt_ms = smooth(self.rtt_ms, sample_ms);
    }

    /// Set the loss, at most a hundred percent.
    pub fn update_loss(&mut self, percent: u8)
        ensures
            final(self).wf() == old(self).wf(),
            final(self)@ == (KcpState {
                loss_percent: if percent <= 100 {
                    percent
                } else {
                    100
                },
                ..old(self)@
            }),
    {
        self.loss_percent = if percent <= 100 {
            percent
        } else {
            100
        };
    }

    /// Bytes sent, prefixes counted.
    pub fn bytes_sent(&self) -> (n: u32)
        ensures
            n == self@.bytes_sent,
    {
        self.bytes_sent
    }

    /// Bytes received, prefixes counted.
    pub fn bytes_received(&self) -> (n: u32)
        ensures
            n == self@.bytes_received,
    {
        self.bytes_received
    }

    /// Whether the leg is connected.
    pub fn is_available(&self) -> (b: bool)
        ensures
            b == self@.available,
    {
        self.available
    }

    /// The round-trip estimate in milliseconds.
    pub fn rtt_ms(&self) -> (ms: u32)
        ensures
            ms == self@.rtt_ms,
    {
        self.rtt_ms
    }

    /// The loss in percent.
    pub fn loss_percent(&self) -> (p: u8)
        ensures
            p == self@.loss_percent,
    {
        self.loss_percent
    }

    /// The configuration.
    pub fn config(&self) -> (c: KcpLegConfig)
        ensures
            c == self@.config,
    {
        self.config
    }

    /// Close the leg.
    pub fn close(&mut self)
        ensures
            final(self).wf() == old(self).wf(),
            final(self)@ == (KcpState { available: false, ..old(self)@ }),
    {
        self.available = false;
    }

    /// The bytes to write for a message.
    pub fn send(&self, data: &[u8]) -> (r: Result<Vec<u8>, KcpError>)
        ensures
            self@.available ==> (r matches Ok(out) && out@ == prefixed_message(data@)),
            !self@.available ==> r == Err::<Vec<u8>, KcpError>(KcpError::NotConnected),
    {
        if !self.available {
            return Err(KcpError::NotConnected);
        }
        Ok(prefix_message(data))
    }

    /// Note that a message of `len` bytes was written, which took `elapsed_ms`. Returns how
    /// many bytes a bandwidth estimate has to count.
    pub fn sent(&mut self, len: usize, elapsed_ms: u32) -> (bytes: u64)
        requires
            len + 4 <= u64::MAX,
        ensures
            final(self).wf() == old(self).wf(),
            final(self)@ == (KcpState {
                rtt_ms: smoothed(old(self)@.rtt_ms, elapsed_ms) as u32,
                bytes_sent: counted(old(self)@.bytes_sent, len as nat),
                ..old(self)@
            }),
            bytes == len + 4,
    {
        self.update_rtt(elapsed_ms);
        self.bytes_sent = count(self.bytes_sent, len);
        len as u64 + 4
    }

    /// How many bytes to read next.
    pub fn wanted(&self) -> (n: usize)
        ensures
            n == super::prefixed::bytes_wanted(self@.received),
    {
        self.reader.wanted()
    }

    /// Add bytes that the stream delivered.
    pub fn feed(&mut self, data: &[u8])
        requires
            old(self)@.received.len() + data@.len() <= isize::MAX,
        ensures
            final(self).wf() == old(self).wf(),
            final(self)@ == (KcpState { received: old(self)@.received + data@, ..old(self)@ }),
    {
        self.reader.feed(data);
    }

    /// The next message, if it is complete. A prefix that is refused is consumed.
    pub fn recv(&mut self) -> (r: Result<Option<Vec<u8>>, KcpError>)
        requires
            old(self).wf(),
        ensures
            final(self).wf(),
            !old(self)@.available ==> r == Err::<Option<Vec<u8>>, KcpError>(
                KcpError::NotConnected,
            ) && final(self)@ == old(self)@,
            old(self)@.available ==> (match arrived(
                old(self)@.received,
                KCP_MAX_FRAME_BYTES as nat,
            ) {
                Arrived::Incomplete => r == Ok::<Option<Vec<u8>>, KcpError>(None) && final(self)@
                    == old(self)@,
                Arrived::Message { message, rest } => {
                    &&& r matches Ok(Some(m)) && m@ == message
                    &&& final(self)@ == (KcpState {
                        received: rest,
                        bytes_received: counted(old(self)@.bytes_received, message.len()),
                        ..old(self)@
                    })
                },
                Arrived::TooLarge(_) => r == Err::<Option<Vec<u8>>, KcpError>(
                    KcpError::MessageTooLarge,
                ) && final(self)@ == (KcpState {
                    received: old(self)@.received.skip(4),
                    ..old(self)@
                }),
            }),
    {
        if !self.available {
            return Err(KcpError::NotConnected);
        }
        match self.reader.next_message() {
            PrefixStep::NeedMore => Ok(None),
            PrefixStep::Message(m) => {
                self.bytes_received = count(self.bytes_received, m.len());
                Ok(Some(m))
            },
            PrefixStep::TooLarge(_) => {
                self.reader.drop_prefix();
                Err(KcpError::MessageTooLarge)
            },
        }
    }

    /// Give up the message that is being read, which ran out of time: what came of it is lost,
    /// and the stream is out of step.
    pub fn timed_out(&mut self) -> (e: KcpError)
        ensures
            final(self).wf() == old(self).wf(),
            final(self)@ == (KcpState { received: Seq::empty(), ..old(self)@ }),
            e == KcpError::TimedOut,
    {
        self.reader.clear();
        KcpError::TimedOut
    }
}

impl Default for KcpLeg {
    fn default() -> (leg: Self)
        ensures
            leg.wf(),
            leg@ == KcpState::fresh(KcpLegConfig::standard(), KCP_INITIAL_RTT_MS, false),
    {
        KcpLeg::new()
    }
}

/// What crosses a KCP leg: every message of up to 4 MiB comes out as it went in, with what follows it left
/// behind, and no longer one is accepted. Each counts its bytes and the four of its prefix.
pub proof fn law_message_crosses_the_leg(data: Seq<u8>, rest: Seq<u8>, counter: u32)
    requires
        data.len() <= u32::MAX,
    ensures
        data.len() <= 4_194_304 ==> arrived(
            prefixed_message(data) + rest,
            KCP_MAX_FRAME_BYTES as nat,
        ) == (Arrived::Message { message: data, rest }),
        data.len() > 4_194_304 ==> arrived(
            prefixed_message(data) + rest,
            KCP_MAX_FRAME_BYTES as nat,
        ) == Arrived::TooLarge(data.len() as int),
        counter + data.len() + 4 <= u32::MAX ==> counted(counter, data.len()) == counter + data.len()
            + 4,
        KCP_READ_TIMEOUT_MS == 30_000,
        KCP_INITIAL_RTT_MS == 50,
        KcpLegConfig::standard() == (KcpLegConfig {
            mtu: 1400,
            snd_wnd: 256,
            rcv_wnd: 256,
            mode: KcpMode::Fast,
        }),
{
    if data.len() <= 4_194_304 {
        super::prefixed::law_message_is_read_back(data, rest, KCP_MAX_FRAME_BYTES as nat);
    } else {
        let all = prefixed_message(data) + rest;
        assert(all.subrange(0, 4) =~= crate::wire::be32(data.len() as int));
        crate::wire::lemma_be32_inside(all, 0, data.len() as int);
    }
}

/// A leg at its start has sent, received and lost nothing.
pub proof fn law_leg_starts_empty(config: KcpLegConfig, rtt_ms: u32, available: bool)
    ensures
        ({
            let s = KcpState::fresh(config, rtt_ms, available);
            &&& s.config == config && s.rtt_ms == rtt_ms && s.available == available
            &&& s.loss_percent == 0 && s.bytes_sent == 0 && s.bytes_received == 0
            &&& s.received.len() == 0
        }),
{
}

} // verus!
