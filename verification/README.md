# phantom_transport

The core of a post-quantum transport, written in Rust and verified with Verus: every function
under `src/` states what it returns or changes, and the proofs show that it does so for every
input it accepts, without overflow or panic.

## Layout

- `src/handshake/`, `src/pqc_handshake.rs`, `src/mls_bridge/` — handshake messages and their
  layout, cookies, proof-of-work admission, resumption tickets, transcripts, and sessions from
  the secrets of a group.
- `src/packet_coalescer*.rs`, `src/fragmentation.rs`, `src/phantom_udp/`, `src/framing.rs`,
  `src/compression.rs`, `src/sack.rs` — packets, datagrams, frames, padding, compression and
  selective acknowledgements.
- `src/bandwidth_estimator/`, `src/pacer.rs`, `src/liveness.rs`, `src/fallback.rs`,
  `src/path*.rs`, `src/reputation.rs`, `src/metrics.rs` — rates, timers, path validation,
  reputation and reporting.
- `src/legs/` — the framing and the state machines of the physical transports.
- `src/half_open.rs`, `src/multiplexer.rs`, `src/buffer_pool.rs`, `src/session*.rs` — tables and
  pools.
- `app/` — sockets, clocks, locks, channels and the crypto engine around the library.
- `tests/` — the library from outside.

## Reading the contracts

A type has a view, a mathematical value that its contracts speak of, and an executable function
says how it changes that value. What relates several functions is stated as a public proof
function whose name begins with `law_`: what is written is read back, what one call undoes, what
every operation keeps.

The library reads no clock and owns no socket: the time, what was read and what an engine
computed are arguments. Calls into other crates stand behind small functions marked
`#[verifier::external_body]`; the comment above each names the outside function and says what
is taken from it without proof.
