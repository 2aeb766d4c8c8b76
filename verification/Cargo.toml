[package]
name = "phantom_transport"
version = "0.1.0"
edition = "2021"
publish = false

[dependencies]
async-lock = "*"
async-trait = "0.1"
blake3 = "1"
bytes = "1"
crossbeam-queue = "0.3"
dashmap = "*"
embedded-io-async = "*"
getrandom = "0.2"
hkdf = "*"
hmac = "*"
kcp-tokio = "*"
log = "0.4"
lz4_flex = "0.11"
openmls = "*"
openmls_traits = "*"
parking_lot = "0.12"
rand = "0.8"
ring = "0.17"
sha2 = "*"
subtle = "2"
time = { version = "0.3", features = ["std"] }
tokio = { version = "1", features = ["io-util", "macros", "net", "rt", "sync", "time"] }
x25519-dalek = { version = "2", features = ["static_secrets"] }
zstd = "0.13"

[dev-dependencies]
borsh = "1"
