//! The session handshake: messages, admission rules, and the two state machines.
//!
//! Key encapsulation, signatures, proof of work and sealing are done by the caller; the
//! state machines say when, on what, and what follows from each result.

pub mod client;
pub mod cookie;
pub mod error;
pub mod messages;
pub mod resumption;
pub mod server;
pub mod transcript;
