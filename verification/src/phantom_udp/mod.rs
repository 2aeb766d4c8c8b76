//! Datagram framing of the reliable-UDP transport.

pub mod datagram;
pub mod envelope;
