//! The leg over a WASI TCP socket: length-prefixed messages, and the address form that the
//! socket interface takes. The caller owns the socket.

use super::prefixed::{arrived, prefix_message, prefixed_message, Arrived, PrefixReader, PrefixStep};
use crate::errors::CoreError;
use crate::text::{two_numbers, two_numbers_text};
use vstd::prelude::*;

verus! {

/// Largest message in either direction.
pub const MAX_FRAME_BYTES: usize = 4194304;

/// A socket address: the octets or segments of the host, and the port.
#[derive(Debug, Clone, Copy)]
pub enum SocketAddress {
    V4 { octets: [u8; 4], port: u16 },
    V6 { segments: [u16; 8], port: u16, flow_info: u32, scope_id: u32 },
}

/// The family of an address.
#[derive(Debug, Clone, Copy, PartialEq, Eq, Structural)]
pub enum IpAddressFamily {
    Ipv4,
    Ipv6,
}

/// An IPv4 address as the socket interface takes it.
#[derive(Debug, Clone, Copy, PartialEq, Eq)]
pub struct Ipv4SocketAddress {
    pub port: u16,
    pub address: (u8, u8, u8, u8),
}

/// An IPv6 address as the socket interface takes it.
#[derive(Debug, Clone, Copy, PartialEq, Eq)]
pub struct Ipv6SocketAddress {
    pub port: u16,
    pub flow_info: u32,
    pub address: (u16, u16, u16, u16, u16, u16, u16, u16),
    pub scope_id: u32,
}

/// An address as the socket interface takes it.
#[derive(Debug, Clone, Copy, PartialEq, Eq)]
pub enum IpSocketAddress {
    Ipv4(Ipv4SocketAddress),
    Ipv6(Ipv6SocketAddress),
}

/// An address in the form that the socket interface takes.
pub fn ip_socket_address_from_std(addr: SocketAddress) -> (r: (IpAddressFamily, IpSocketAddress))
    ensures
        match addr {
            SocketAddress::V4 { octets, port } => r == (
                IpAddressFamily::Ipv4,
                IpSocketAddress::Ipv4(
                    Ipv4SocketAddress {
                        port,
                        address: (octets@[0], octets@[1], octets@[2], octets@[3]),
                    },
                ),
            ),
            SocketAddress::V6 { segments, port, flow_info, scope_id } => r == (
                IpAddressFamily::Ipv6,
                IpSocketAddress::Ipv6(
                    Ipv6SocketAddress {
                        port,
                        flow_info,
                        address: (
                            segments@[0],
                            segments@[1],
                            segments@[2],
                            segments@[3],
                            segments@[4],
                            segments@[5],
                            segments@[6],
                            segments@[7],
                        ),
                        scope_id,
                    },
                ),
            ),
        },
{
    match addr {
        SocketAddress::V4 { octets, port } => (
            IpAddressFamily::Ipv4,
            IpSocketAddress::Ipv4(
                Ipv4SocketAddress {
                    port,
                    address: (octets[0], octets[1], octets[2], octets[3]),
                },
            ),
        ),
        SocketAddress::V6 { segments, port, flow_info, scope_id } => (
            IpAddressFamily::Ipv6,
            IpSocketAddress::Ipv6(
                Ipv6SocketAddress {
                    port,
                    flow_info,
                    address: (
                        segments[0],
                        segments[1],
                        segments[2],
                        segments[3],
                        segments[4],
                        segments[5],
                        segments[6],
                        segments[7],
                    ),
                    scope_id,
                },
            ),
        ),
    }
}

/// The framing of a WASI leg.
pub struct WasiLeg {
    reader: PrefixReader,
}

impl View for WasiLeg {
    type V = Seq<u8>;

    /// Bytes received and not consumed.
    closed spec fn view(&self) -> Seq<u8> {
        self.reader@
    }
}

impl WasiLeg {
    /// Whether the leg caps messages as it should.
    pub closed spec fn wf(&self) -> bool {
        self.reader.spec_cap() == MAX_FRAME_BYTES
    }

    /// The framing of a connected leg.
    pub fn connected() -> (leg: Self)
        ensures
            leg.wf(),
            leg@ == Seq::<u8>::empty(),
    {
        WasiLeg { reader: PrefixReader::new(MAX_FRAME_BYTES) }
    }

    /// The bytes to write for a message.
    pub fn send_bytes(&self, data: &[u8]) -> (r: Result<Vec<u8>, CoreError>)
        ensures
            data@.len() <= MAX_FRAME_BYTES ==> (r matches Ok(out) && out@ == prefixed_message(
                data@,
            )),
            data@.len() > MAX_FRAME_BYTES ==> (r matches Err(e) && e.says(
                two_numbers("frame too large: "@, data@.len(), " > "@, MAX_FRAME_BYTES as nat),
            )),
    {
        if data.len() > MAX_FRAME_BYTES {
            return Err(
                CoreError::NetworkError(
                    two_numbers_text(
                        "frame too large: ",
                        data.len() as u64,
                        " > ",
                        MAX_FRAME_BYTES as u64,
                    ),
                ),
            );
        }
        Ok(prefix_message(data))
    }

    /// How many bytes to read next.
    pub fn wanted(&self) -> (n: usize)
        ensures
            n == super::prefixed::bytes_wanted(self@),
    {
        self.reader.wanted()
    }

    /// Add bytes that the socket delivered. None at all means that the peer closed: what came
    /// of a message is then lost.
    pub fn feed(&mut self, data: &[u8]) -> (r: Result<(), CoreError>)
        requires
            old(self)@.len() + data@.len() <= isize::MAX,
        ensures
            final(self).wf() == old(self).wf(),
            data@.len() > 0 ==> r is Ok && final(self)@ == old(self)@ + data@,
            data@.len() == 0 ==> (r matches Err(e) && e.says(
                "peer closed the WASI TCP stream (EOF)"@,
            )) && final(self)@ == Seq::<u8>::empty(),
    {
        if data.len() == 0 {
            self.reader.clear();
            return Err(crate::errors::network_error("peer closed the WASI TCP stream (EOF)"));
        }
        self.reader.feed(data);
        Ok(())
    }

    /// The next message, if it is complete. A prefix that is refused is consumed.
    pub fn recv_bytes(&mut self) -> (r: Result<Option<Vec<u8>>, CoreError>)
        requires
            old(self).wf(),
        ensures
            final(self).wf(),
            match arrived(old(self)@, MAX_FRAME_BYTES as nat) {
                Arrived::Incomplete => r == Ok::<Option<Vec<u8>>, CoreError>(None) && final(self)@
                    == old(self)@,
                Arrived::Message { message, rest } => {
                    &&& r matches Ok(Some(m)) && m@ == message
                    &&& final(self)@ == rest
                },
                Arrived::TooLarge(len) => {
                    &&& r matches Err(e) && e.says(
                        two_numbers(
                            "oversized frame from peer: "@,
                            len as nat,
                            " > "@,
                            MAX_FRAME_BYTES as nat,
                        ),
                    )
                    &&& final(self)@ == old(self)@.skip(4)
                },
            },
    {
        match self.reader.next_message() {
            PrefixStep::NeedMore => Ok(None),
            PrefixStep::Message(m) => Ok(Some(m)),
            PrefixStep::TooLarge(len) => {
                self.reader.drop_prefix();
                Err(
                    CoreError::NetworkError(
                        two_numbers_text(
                            "oversized frame from peer: ",
                            len as u64,
                            " > ",
                            MAX_FRAME_BYTES as u64,
                        ),
                    ),
                )
            },
        }
    }
}

/// What crosses a WASI leg: every message of up to 4 MiB comes out as it went in, with what follows it left
/// behind, and no longer one is accepted.
pub proof fn law_message_crosses_the_leg(data: Seq<u8>, rest: Seq<u8>)
    requires
        data.len() <= u32::MAX,
    ensures
        data.len() <= 4_194_304 ==> arrived(prefixed_message(data) + rest, MAX_FRAME_BYTES as nat) == (
        Arrived::Message { message: data, rest }),
        data.len() > 4_194_304 ==> arrived(prefixed_message(data) + rest, MAX_FRAME_BYTES as nat)
            == Arrived::TooLarge(data.len() as int),
{
    if data.len() <= 4_194_304 {
        super::prefixed::law_message_is_read_back(data, rest, MAX_FRAME_BYTES as nat);
    } else {
        let all = prefixed_message(data) + rest;
        assert(all.subrange(0, 4) =~= crate::wire::be32(data.len() as int));
        crate::wire::lemma_be32_inside(all, 0, data.len() as int);
    }
}

} // verus!
