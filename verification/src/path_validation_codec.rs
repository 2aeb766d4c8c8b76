//! Packets that carry a path challenge or its echo.

use crate::path::PATH_CHALLENGE_LEN;
use crate::text::{decimal, push_decimal};
use crate::types::{
    PacketFlagsV2, PacketHeaderV2, PhantomPacketV2, SequenceNumber, SessionId, VersionedPacket,
};
use crate::wire::{copy_bytes, to_array};
use vstd::prelude::*;

verus! {

/// Whether a frame is a challenge or an echo. Only the sender knows: on the wire they are
/// the same.
#[derive(Debug, Clone, Copy, PartialEq, Eq, Structural)]
pub enum PathValidationKind {
    Challenge,
    Response,
}

/// Whether a packet validates path `path_id` with `payload`: it is flagged as such, goes
/// over the control stream and carries exactly the payload.
pub open spec fn is_validation_of(
    packet: PhantomPacketV2,
    session_id: SessionId,
    path_id: u8,
    sequence: SequenceNumber,
    payload: Seq<u8>,
) -> bool {
    &&& packet.header == (PacketHeaderV2 {
        session_id,
        stream_id: 0,
        sequence,
        flags: crate::types::PacketFlags(PacketFlagsV2::PATH_VALIDATION),
        epoch: 0,
        path_id,
    })
    &&& packet.payload@ == payload
}

/// Build the packet that carries a challenge or an echo for `path_id`.
pub fn build_path_validation_packet(
    session_id: SessionId,
    path_id: u8,
    sequence: SequenceNumber,
    payload: [u8; 32],
) -> (p: VersionedPacket)
    ensures
        p matches VersionedPacket::V2(packet) && is_validation_of(
            packet,
            session_id,
            path_id,
            sequence,
            payload@,
        ),
{
    let header: PacketHeaderV2 = PacketHeaderV2::new(
        session_id,
        0,
        sequence,
        PacketFlagsV2::new(PacketFlagsV2::PATH_VALIDATION),
    ).with_path_id(path_id);
    PhantomPacketV2::new(header, copy_bytes(payload.as_slice())).into_versioned()
}

/// A frame that was read.
#[derive(Debug, Clone, Copy, PartialEq, Eq)]
pub struct ParsedPathValidation {
    pub path_id: u8,
    pub payload: [u8; 32],
}

/// A frame that cannot be read.
#[derive(Debug, Clone, Copy, PartialEq, Eq, Structural)]
pub enum PathValidationParseError {
    /// The payload has not the length of a challenge.
    WrongPayloadLength { got: usize },
}

impl PathValidationParseError {
    /// The text of the error.
    pub open spec fn spec_text(self) -> Seq<char> {
        match self {
            PathValidationParseError::WrongPayloadLength { got } => "PATH_VALIDATION payload length is "@
                + decimal(got as nat) + ", expected "@ + decimal(32),
        }
    }

    /// The text of the error.
    pub fn to_text(&self) -> (s: String)
        ensures
            s@ == self.spec_text(),
    {
        match self {
            PathValidationParseError::WrongPayloadLength { got } => {
                let mut s: String = "PATH_VALIDATION payload length is ".to_owned();
                push_decimal(&mut s, *got as u64);
                s.append(", expected ");
                push_decimal(&mut s, 32);
                s
            },
        }
    }
}

/// Read a packet as a path validation. `Ok(None)` when it is none.
pub fn parse_path_validation(packet: &PhantomPacketV2) -> (r: Result<
    Option<ParsedPathValidation>,
    PathValidationParseError,
>)
    ensures
        match r {
            Ok(None) => !packet.header.flags.has(PacketFlagsV2::PATH_VALIDATION),
            Ok(Some(parsed)) => {
                &&& packet.header.flags.has(PacketFlagsV2::PATH_VALIDATION)
                &&& packet.payload@.len() == PATH_CHALLENGE_LEN
                &&& parsed.path_id == packet.header.path_id
                &&& parsed.payload@ == packet.payload@
            },
            Err(PathValidationParseError::WrongPayloadLength { got }) => {
                &&& packet.header.flags.has(PacketFlagsV2::PATH_VALIDATION)
                &&& packet.payload@.len() != PATH_CHALLENGE_LEN
                &&& got == packet.payload@.len()
            },
        },
{
    if !packet.header.flags.contains(PacketFlagsV2::PATH_VALIDATION) {
        return Ok(None);
    }
    if packet.payload.len() != PATH_CHALLENGE_LEN {
        return Err(PathValidationParseError::WrongPayloadLength { got: packet.payload.len() });
    }
    Ok(
        Some(
            ParsedPathValidation {
                path_id: packet.header.path_id,
                payload: to_array::<32>(packet.payload.as_slice()),
            },
        ),
    )
}

/// A built packet reads as a path validation: its flag is set and its payload has the length
/// of a challenge.
pub proof fn law_built_packet_is_a_validation(
    packet: PhantomPacketV2,
    session_id: SessionId,
    path_id: u8,
    sequence: SequenceNumber,
    payload: [u8; 32],
)
    requires
        is_validation_of(packet, session_id, path_id, sequence, payload@),
    ensures
        packet.header.flags.has(PacketFlagsV2::PATH_VALIDATION),
        packet.payload@.len() == PATH_CHALLENGE_LEN,
        packet.header.path_id == path_id,
        packet.payload@ == payload@,
{
    assert(16u16 & 16u16 == 16u16) by (bit_vector);
}

/// What a path validation is on the wire: a packet of the control stream in epoch 0, on the path that it is
/// about, with the flag of value 16 and no other, and 32 bytes of payload.
pub proof fn law_validation_in_numbers(
    packet: PhantomPacketV2,
    session_id: SessionId,
    path_id: u8,
    sequence: SequenceNumber,
    payload: [u8; 32],
)
    requires
        is_validation_of(packet, session_id, path_id, sequence, payload@),
    ensures
        packet.header.session_id == session_id,
        packet.header.stream_id == 0,
        packet.header.sequence == sequence,
        packet.header.flags.0 == 16,
        packet.header.epoch == 0,
        packet.header.path_id == path_id,
        packet.payload@ == payload@,
        packet.payload@.len() == 32,
{
}

} // verus!
