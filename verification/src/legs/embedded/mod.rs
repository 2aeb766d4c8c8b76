//! The embedded leg: length-prefixed frames over a byte stream, in a buffer of fixed size.
//! The caller owns the stream.

pub mod framing;

use crate::errors::CoreError;
use crate::text::{decimal, push_decimal};
use crate::wire::{append, be32, be32_at};
use framing::{decode_header, encode_header, FramingError};
use vstd::prelude::*;

verus! {

/// The text of a frame that does not fit.
pub open spec fn too_large_text(len: nat, capacity: nat) -> Seq<char> {
    "framing: FrameTooLarge { len: "@ + decimal(len) + ", capacity: "@ + decimal(capacity) + " }"@
}

fn framing_error(e: FramingError) -> (c: CoreError)
    ensures
        e matches FramingError::FrameTooLarge { len, capacity } ==> c.says(
            too_large_text(len as nat, capacity as nat),
        ),
{
    match e {
        FramingError::FrameTooLarge { len, capacity } => {
            let mut text: String = "framing: FrameTooLarge { len: ".to_owned();
            push_decimal(&mut text, len as u64);
            text.append(", capacity: ");
            push_decimal(&mut text, capacity as u64);
            text.append(" }");
            CoreError::NetworkError(text)
        },
    }
}

/// The bytes to write for a message, for a peer whose buffer holds `capacity` bytes.
pub fn send_frame(data: &[u8], capacity: usize) -> (r: Result<Vec<u8>, CoreError>)
    ensures
        data@.len() <= capacity && data@.len() <= u32::MAX ==> (r matches Ok(out) && out@ == be32(
            data@.len() as int,
        ) + data@),
        data@.len() > capacity || data@.len() > u32::MAX ==> (r matches Err(e) && e.says(
            too_large_text(data@.len(), capacity as nat),
        )),
{
    match encode_header(data.len(), capacity) {
        Ok(header) => {
            let mut out: Vec<u8> = Vec::new();
            append(&mut out, header.as_slice());
            assert(out@ =~= be32(data@.len() as int));
            append(&mut out, data);
            Ok(out)
        },
        Err(e) => Err(framing_error(e)),
    }
}

/// How many bytes to read after a header, for a buffer that holds `capacity` bytes. No header
/// means that the stream ended or failed.
pub fn recv_header(header: Option<[u8; 4]>, capacity: usize) -> (r: Result<usize, CoreError>)
    ensures
        header is None ==> (r matches Err(e) && e.says("read header"@)),
        header matches Some(h) ==> if be32_at(h@, 0) <= capacity {
            r matches Ok(n) && n == be32_at(h@, 0)
        } else {
            r matches Err(e) && e.says(too_large_text(be32_at(h@, 0) as nat, capacity as nat))
        },
{
    match header {
        None => Err(crate::errors::network_error("read header")),
        Some(h) => match decode_header(&h, capacity) {
            Ok(n) => Ok(n),
            Err(e) => Err(framing_error(e)),
        },
    }
}

/// The message, given what reading the bytes after the header gave. Nothing means that the
/// stream ended or failed.
pub fn recv_frame(payload: Option<Vec<u8>>) -> (r: Result<Vec<u8>, CoreError>)
    ensures
        payload matches Some(p) ==> r == Ok::<Vec<u8>, CoreError>(p),
        payload is None ==> (r matches Err(e) && e.says("read payload"@)),
{
    match payload {
        Some(p) => Ok(p),
        None => Err(crate::errors::network_error("read payload")),
    }
}

} // verus!
