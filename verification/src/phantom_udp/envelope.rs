//! The outer datagram envelope: `[flags u8][connection id 8 bytes]`.

use crate::wire::{append, to_array};
use vstd::prelude::*;

verus! {

/// Length of a connection id.
pub const CID_LEN: usize = 8;

/// A connection id: a routing label that the client chooses.
pub type ConnId = [u8; 8];

/// Length of the outer header.
pub const HDR_LEN: usize = 9;

/// Payload budget of a path.
pub const PATH_MTU: usize = 1200;

/// Length of the fragment subheader.
pub const FRAG_SUBHDR_LEN: usize = 8;

/// Largest frame that fits one datagram.
pub const MAX_INNER_UNFRAGMENTED: usize = 1191;

/// Largest chunk of a fragmented datagram.
pub const MAX_INNER_FRAG_CHUNK: usize = 1183;

#[derive(Clone, Copy, PartialEq, Eq, Debug, Structural)]
pub enum PacketType {
    /// A handshake message.
    Initial,
    /// A session packet.
    OneRtt,
    /// An address-validation token.
    Retry,
}

#[derive(Clone, Copy, PartialEq, Eq, Debug)]
pub struct OuterHeader {
    pub ty: PacketType,
    pub fragmented: bool,
    pub cid: ConnId,
}

#[derive(Clone, Copy, PartialEq, Eq, Debug, Structural)]
pub enum EnvelopeError {
    Truncated,
    ReservedType,
    ReservedBitsSet,
    FrameTooLarge,
}

impl EnvelopeError {
    /// A description of the error.
    pub fn to_text(&self) -> (text: String)
        ensures
            text@ == match *self {
                EnvelopeError::Truncated
                    => "datagram too short for the PhantomUDP envelope header"@,
                EnvelopeError::ReservedType => "reserved PhantomUDP packet type"@,
                EnvelopeError::ReservedBitsSet => "reserved PhantomUDP flag bits set"@,
                EnvelopeError::FrameTooLarge => "frame exceeds the maximum fragmentable size"@,
            },
    {
        match self {
            EnvelopeError::Truncated
                => "datagram too short for the PhantomUDP envelope header".to_owned(),
            EnvelopeError::ReservedType => "reserved PhantomUDP packet type".to_owned(),
            EnvelopeError::ReservedBitsSet => "reserved PhantomUDP flag bits set".to_owned(),
            EnvelopeError::FrameTooLarge => "frame exceeds the maximum fragmentable size".to_owned(),
        }
    }
}

/// The number of a packet type, which stands in the two high bits of the flags.
pub open spec fn type_number(ty: PacketType) -> int {
    match ty {
        PacketType::Initial => 0,
        PacketType::OneRtt => 1,
        PacketType::Retry => 2,
    }
}

/// The flags byte: the type in bits 7 and 6, the fragment mark in bit 5, zeros below.
pub open spec fn flags_byte(ty: PacketType, fragmented: bool) -> u8 {
    (type_number(ty) * 64 + if fragmented {
        32int
    } else {
        0int
    }) as u8
}

/// The bytes of an outer header.
pub open spec fn header_bytes(ty: PacketType, fragmented: bool, cid: Seq<u8>) -> Seq<u8> {
    seq![flags_byte(ty, fragmented)] + cid
}

/// What the front of a datagram says.
pub open spec fn read_header(buf: Seq<u8>) -> Result<(PacketType, bool), EnvelopeError> {
    if buf.len() < HDR_LEN {
        Err(EnvelopeError::Truncated)
    } else if buf[0] % 32 != 0 {
        Err(EnvelopeError::ReservedBitsSet)
    } else if buf[0] / 64 == 3 {
        Err(EnvelopeError::ReservedType)
    } else {
        Ok(
            (
                if buf[0] / 64 == 0 {
                    PacketType::Initial
                } else if buf[0] / 64 == 1 {
                    PacketType::OneRtt
                } else {
                    PacketType::Retry
                },
                buf[0] / 32 % 2 == 1,
            ),
        )
    }
}

/// Append an outer header.
pub fn encode_header(buf: &mut Vec<u8>, ty: PacketType, fragmented: bool, cid: &ConnId)
    ensures
        final(buf)@ == old(buf)@ + header_bytes(ty, fragmented, cid@),
{
    let type_bits: u8 = match ty {
        PacketType::Initial => 0,
        PacketType::OneRtt => 64,
        PacketType::Retry => 128,
    };
    let flags: u8 = if fragmented {
        type_bits + 32
    } else {
        type_bits
    };
    buf.push(flags);
    append(buf, cid.as_slice());
    assert(buf@ =~= old(buf)@ + header_bytes(ty, fragmented, cid@));
}

/// Parse an outer header; the bytes after it come back too.
pub fn decode_header<'a>(buf: &'a [u8]) -> (r: Result<(OuterHeader, &'a [u8]), EnvelopeError>)
    ensures
        match read_header(buf@) {
            Err(e) => r matches Err(f) && f == e,
            Ok((ty, fragmented)) => r matches Ok((h, rest)) && h.ty == ty && h.fragmented
                == fragmented && h.cid@ == buf@.subrange(1, 9) && rest@ == buf@.skip(9),
        },
{
    if buf.len() < HDR_LEN {
        return Err(EnvelopeError::Truncated);
    }
    let flags: u8 = buf[0];
    if flags % 32 != 0 {
        return Err(EnvelopeError::ReservedBitsSet);
    }
    let ty: PacketType = if flags / 64 == 0 {
        PacketType::Initial
    } else if flags / 64 == 1 {
        PacketType::OneRtt
    } else if flags / 64 == 2 {
        PacketType::Retry
    } else {
        return Err(EnvelopeError::ReservedType);
    };
    let fragmented: bool = flags / 32 % 2 == 1;
    let cid: ConnId = to_array::<8>(vstd::slice::slice_subrange(buf, 1, 9));
    let rest: &[u8] = vstd::slice::slice_subrange(buf, 9, buf.len());
    assert(rest@ =~= buf@.skip(9));
    Ok((OuterHeader { ty, fragmented, cid }, rest))
}

/// A header that was encoded is read back, whatever follows it.
pub proof fn law_encoded_header_is_read_back(
    ty: PacketType,
    fragmented: bool,
    cid: Seq<u8>,
    rest: Seq<u8>,
)
    requires
        cid.len() == CID_LEN,
    ensures
        ({
            let buf = header_bytes(ty, fragmented, cid) + rest;
            &&& read_header(buf) == Ok::<(PacketType, bool), EnvelopeError>((ty, fragmented))
            &&& buf.subrange(1, 9) == cid
            &&& buf.skip(9) == rest
        }),
{
    let buf = header_bytes(ty, fragmented, cid) + rest;
    assert(buf[0] == flags_byte(ty, fragmented));
    assert(buf.subrange(1, 9) =~= cid);
    assert(buf.skip(9) =~= rest);
}

/// The flags byte in numbers: 0, 64 and 128 for the three types, and 32 more for a fragment. A reader
/// refuses a datagram of less than nine bytes, one with any of the five low bits set, and the fourth type.
pub proof fn law_flags_in_numbers(ty: PacketType, fragmented: bool, cid: Seq<u8>, buf: Seq<u8>)
    ensures
        header_bytes(ty, fragmented, cid).len() == 1 + cid.len(),
        header_bytes(PacketType::Initial, false, cid)[0] == 0,
        header_bytes(PacketType::Initial, true, cid)[0] == 32,
        header_bytes(PacketType::OneRtt, false, cid)[0] == 64,
        header_bytes(PacketType::OneRtt, true, cid)[0] == 96,
        header_bytes(PacketType::Retry, false, cid)[0] == 128,
        header_bytes(PacketType::Retry, true, cid)[0] == 160,
        buf.len() < 9 ==> read_header(buf) == Err::<(PacketType, bool), EnvelopeError>(
            EnvelopeError::Truncated,
        ),
        buf.len() >= 9 && buf[0] % 32 != 0 ==> read_header(buf) == Err::<
            (PacketType, bool),
            EnvelopeError,
        >(EnvelopeError::ReservedBitsSet),
        buf.len() >= 9 && buf[0] % 32 == 0 && buf[0] >= 192 ==> read_header(buf) == Err::<
            (PacketType, bool),
            EnvelopeError,
        >(EnvelopeError::ReservedType),
        buf.len() >= 9 && buf[0] % 32 == 0 && buf[0] < 192 ==> read_header(buf) is Ok,
{
}

} // verus!
