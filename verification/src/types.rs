//! The wire types of a session packet.

use vstd::prelude::*;

verus! {

/// A stream within a session; stream 0 carries control frames.
pub type StreamId = u16;

/// A packet's position in its sequence space.
pub type SequenceNumber = u32;

/// The identifier of a session.
#[derive(Debug, Clone, Copy, PartialEq, Eq, Hash)]
pub struct SessionId(pub [u8; 32]);

impl SessionId {
    /// The identifier made of these bytes.
    pub fn from_bytes(bytes: [u8; 32]) -> (id: Self)
        ensures
            id.0 == bytes,
    {
        SessionId(bytes)
    }

    /// The bytes of the identifier.
    pub fn as_bytes(&self) -> (bytes: &[u8; 32])
        ensures
            bytes == self.0,
    {
        &self.0
    }
}

/// How a session picks among its paths.
#[derive(Debug, Clone, Copy, PartialEq, Eq, Structural)]
pub enum SchedulerMode {
    LowLatency,
    HighThroughput,
    Stealth,
}

/// An authenticated cipher.
#[derive(Debug, Clone, Copy, PartialEq, Eq, Structural)]
pub enum CipherSuite {
    Aes256Gcm,
    ChaCha20Poly1305,
}

/// The address of a client.
#[derive(Debug, Clone)]
pub struct ClientIp {
    pub is_v6: bool,
    /// The 32 or 128 bits of the address.
    pub bits: u128,
    /// The usual text form of the address.
    pub text: Vec<u8>,
}

impl ClientIp {
    /// What tells addresses apart: the family and the bits.
    pub open spec fn spec_key(self) -> (bool, u128) {
        (self.is_v6, self.bits)
    }

    /// What tells addresses apart: the family and the bits.
    pub fn key(&self) -> (k: (bool, u128))
        ensures
            k == self.spec_key(),
    {
        (self.is_v6, self.bits)
    }
}

/// The flag bits of a packet header.
#[derive(Debug, Clone, Copy, PartialEq, Eq, Structural)]
pub struct PacketFlags(pub u16);

impl PacketFlags {
    /// The packet is retransmitted until acknowledged.
    pub const RELIABLE: u16 = 1;

    /// The payload is sealed.
    pub const ENCRYPTED: u16 = 2;

    /// The payload acknowledges packets.
    pub const ACK: u16 = 4;

    /// The payload is a bundle of several packets.
    pub const COALESCED: u16 = 8;

    /// The payload is a path challenge or its echo.
    pub const PATH_VALIDATION: u16 = 16;

    /// The packet keeps an idle session alive.
    pub const KEEPALIVE: u16 = 32;

    /// The flags with exactly these bits.
    pub fn new(bits: u16) -> (f: Self)
        ensures
            f.0 == bits,
    {
        PacketFlags(bits)
    }

    /// Whether every bit of `bits` is set.
    pub open spec fn has(self, bits: u16) -> bool {
        self.0 & bits == bits
    }

    /// Whether every bit of `bits` is set.
    pub fn contains(&self, bits: u16) -> (b: bool)
        ensures
            b == self.has(bits),
    {
        self.0 & bits == bits
    }

    /// Set the bits of `bits`.
    pub fn set(&mut self, bits: u16)
        ensures
            final(self).0 == old(self).0 | bits,
    {
        self.0 = self.0 | bits;
    }
}

/// The header of a packet.
#[derive(Debug, Clone, Copy, PartialEq, Eq)]
pub struct PacketHeader {
    pub session_id: SessionId,
    pub stream_id: StreamId,
    pub sequence: SequenceNumber,
    pub flags: PacketFlags,
    /// The key epoch that sealed the payload.
    pub epoch: u8,
    /// The network path that the packet travels on.
    pub path_id: u8,
}

impl PacketHeader {
    /// A header of epoch 0 on path 0.
    pub fn new(
        session_id: SessionId,
        stream_id: StreamId,
        sequence: SequenceNumber,
        flags: PacketFlags,
    ) -> (h: Self)
        ensures
            h == (PacketHeader { session_id, stream_id, sequence, flags, epoch: 0, path_id: 0 }),
    {
        PacketHeader { session_id, stream_id, sequence, flags, epoch: 0, path_id: 0 }
    }

    /// The same header on path `path_id`.
    pub fn with_path_id(self, path_id: u8) -> (h: Self)
        ensures
            h == (PacketHeader { path_id, ..self }),
    {
        PacketHeader { path_id, ..self }
    }

    /// The same header of epoch `epoch`.
    pub fn with_epoch(self, epoch: u8) -> (h: Self)
        ensures
            h == (PacketHeader { epoch, ..self }),
    {
        PacketHeader { epoch, ..self }
    }
}

/// A packet.
#[derive(Debug, Clone, PartialEq, Eq)]
pub struct PhantomPacket {
    pub header: PacketHeader,
    pub payload: Vec<u8>,
}

impl PhantomPacket {
    /// A packet of a header and a payload.
    pub fn new(header: PacketHeader, payload: Vec<u8>) -> (p: Self)
        ensures
            p.header == header,
            p.payload == payload,
    {
        PhantomPacket { header, payload }
    }

    /// The packet tagged with its format version.
    pub fn into_versioned(self) -> (v: VersionedPacket)
        ensures
            v == VersionedPacket::V2(self),
    {
        VersionedPacket::V2(self)
    }
}

pub type PacketFlagsV2 = PacketFlags;

pub type PacketHeaderV2 = PacketHeader;

pub type PhantomPacketV2 = PhantomPacket;

/// The header of a packet of the first format, which has neither epochs nor paths.
#[derive(Debug, Clone, Copy, PartialEq, Eq)]
pub struct PacketHeaderV1 {
    pub session_id: SessionId,
    pub stream_id: StreamId,
    pub sequence: SequenceNumber,
    pub flags: PacketFlags,
}

/// A packet of the first format.
#[derive(Debug, Clone, PartialEq, Eq)]
pub struct PhantomPacketV1 {
    pub header: PacketHeaderV1,
    pub payload: Vec<u8>,
}

/// A packet tagged with its format version.
#[derive(Debug, Clone, PartialEq, Eq)]
pub enum VersionedPacket {
    V1(PhantomPacketV1),
    V2(PhantomPacketV2),
}

impl VersionedPacket {
    /// The packet, if it is of the second format.
    pub fn as_v2(&self) -> (p: Option<&PhantomPacketV2>)
        ensures
            match *self {
                VersionedPacket::V2(packet) => p == Some(&packet),
                VersionedPacket::V1(_) => p is None,
            },
    {
        match self {
            VersionedPacket::V2(packet) => Some(packet),
            VersionedPacket::V1(_) => None,
        }
    }

    /// The packet, if it is of the second format.
    pub fn into_v2(self) -> (p: Option<PhantomPacketV2>)
        ensures
            match self {
                VersionedPacket::V2(packet) => p == Some(packet),
                VersionedPacket::V1(_) => p is None,
            },
    {
        match self {
            VersionedPacket::V2(packet) => Some(packet),
            VersionedPacket::V1(_) => None,
        }
    }
}

/// The flags of a packet are bits of their own: each has a value of its own, and setting one clears no other.
pub proof fn law_flags_are_bits(bits: u16, set: u16)
    ensures
        PacketFlags::RELIABLE == 1,
        PacketFlags::ENCRYPTED == 2,
        PacketFlags::ACK == 4,
        PacketFlags::COALESCED == 8,
        PacketFlags::PATH_VALIDATION == 16,
        PacketFlags::KEEPALIVE == 32,
        PacketFlags(bits | set).has(set),
        PacketFlags(bits | set).has(bits),
        PacketFlags(0).has(set) <==> set == 0,
        PacketFlags(bits).has(set) ==> PacketFlags(bits | set) == PacketFlags(bits),
{
    assert((bits | set) & set == set) by (bit_vector);
    assert((bits | set) & bits == bits) by (bit_vector);
    assert(0u16 & set == 0) by (bit_vector);
    assert(bits & set == set ==> bits | set == bits) by (bit_vector);
}

} // verus!
