//! The framing and handshake logic of the pluggable transport legs.

pub mod embedded;
pub mod faketls;
pub mod kcp;
pub mod mimic_tls;
pub mod prefixed;
pub mod tcp;
pub mod wasi;
pub mod websocket;
