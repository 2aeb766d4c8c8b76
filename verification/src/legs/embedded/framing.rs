//! Length-prefix framing: each frame is `[len u32 be][payload]`.

use crate::wire::{be32, be32_at, push_u32, read_u32, to_array};
use vstd::prelude::*;

verus! {

/// Width of the length prefix.
pub const HEADER_LEN: usize = 4;

/// A framing error.
#[derive(Debug, Clone, Copy, PartialEq, Eq, Structural)]
pub enum FramingError {
    /// A frame of `len` bytes does not fit a buffer of `capacity` bytes.
    FrameTooLarge { len: usize, capacity: usize },
}

/// The prefix of a frame of `payload_len` bytes for a receiver with room for `capacity`.
pub fn encode_header(payload_len: usize, capacity: usize) -> (r: Result<[u8; 4], FramingError>)
    ensures
        payload_len <= capacity && payload_len <= u32::MAX ==> (r matches Ok(h) && h@ == be32(
            payload_len as int,
        )),
        payload_len > capacity || payload_len > u32::MAX ==> r == Err::<[u8; 4], FramingError>(
            FramingError::FrameTooLarge { len: payload_len, capacity },
        ),
{
    if payload_len > capacity || payload_len as u64 > 0xffff_ffff {
        return Err(FramingError::FrameTooLarge { len: payload_len, capacity });
    }
    let mut bytes: Vec<u8> = Vec::new();
    push_u32(&mut bytes, payload_len as u32);
    assert(bytes@ =~= be32(payload_len as int));
    Ok(to_array::<4>(bytes.as_slice()))
}

/// The payload length that a prefix announces, for a receiver with room for `capacity`.
pub fn decode_header(header: &[u8; 4], capacity: usize) -> (r: Result<usize, FramingError>)
    ensures
        be32_at(header@, 0) <= capacity ==> r == Ok::<usize, FramingError>(
            be32_at(header@, 0) as usize,
        ),
        be32_at(header@, 0) > capacity ==> r == Err::<usize, FramingError>(
            FramingError::FrameTooLarge { len: be32_at(header@, 0) as usize, capacity },
        ),
{
    let len: usize = read_u32(header.as_slice(), 0) as usize;
    if len > capacity {
        return Err(FramingError::FrameTooLarge { len, capacity });
    }
    Ok(len)
}

/// A length that was encoded is read back.
pub proof fn law_length_is_read_back(payload_len: usize)
    requires
        payload_len <= u32::MAX,
    ensures
        be32_at(be32(payload_len as int), 0) == payload_len,
{
    crate::wire::lemma_be_round_trip(payload_len as int);
}

} // verus!
