//! Verified transport core: the wire formats, state machines and admission rules
//! of a post-quantum session transport.

pub mod aead;
pub mod api;
pub mod bandwidth_estimator;
pub mod buffer_pool;
pub mod bytebuf;
pub mod clock;
pub mod codec;
pub mod compression;
pub mod constant_time;
pub mod device_profile;
pub mod errors;
pub mod fallback;
pub mod fragmentation;
pub mod framing;
pub mod half_open;
pub mod handshake;
pub mod hash;
pub mod hybrid;
pub mod legs;
pub mod liveness;
pub mod metrics;
pub mod mls_bridge;
pub mod multiplexer;
pub mod pacer;
pub mod packet_coalescer;
pub mod packet_coalescer_codec;
pub mod path;
pub mod path_validation_codec;
pub mod phantom_udp;
pub mod pqc_handshake;
pub mod random;
pub mod reputation;
pub mod sack;
pub mod session;
pub mod session_cache;
pub mod tables;
pub mod text;
pub mod types;
pub mod wire;
