//! TLS-over-TCP mimicry: a synthetic TLS 1.3 prelude, then messages inside
//! ApplicationData records.
//!
//! The outer layer is obfuscation only. It holds no keys: the handshake is theater and
//! the records are framing over an inner session that is already encrypted.

pub mod client_hello;
pub mod leg;
pub mod record;
pub mod server_hello;
pub mod theater;
