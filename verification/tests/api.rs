//! Configuration and builders.

use phantom_transport::api::{PhantomBuilder, PhantomConfig};
use phantom_transport::hybrid::{HybridKeyPackage, HybridVerifyingKey};
use phantom_transport::types::SchedulerMode;

fn kem_public() -> HybridKeyPackage {
    HybridKeyPackage {
        classical_pk: [1u8; 32],
        ml_kem_pk: vec![2u8; 1184],
    }
}

fn verifying_key() -> HybridVerifyingKey {
    HybridVerifyingKey {
        ed25519_pk: [3u8; 32],
        ml_dsa_pk: vec![4u8; 1952],
    }
}

#[test]
fn test_config_presets() {
    let low_lat = PhantomConfig::low_latency();
    assert!(matches!(low_lat.scheduler_mode, SchedulerMode::LowLatency));

    let high_throughput = PhantomConfig::high_throughput();
    assert!(matches!(high_throughput.scheduler_mode, SchedulerMode::HighThroughput));

    let stealth = PhantomConfig::stealth();
    assert!(stealth.stealth_mode);
    assert!(matches!(stealth.scheduler_mode, SchedulerMode::Stealth));
}

#[test]
fn test_builder_flow() {
    let builder = PhantomBuilder::new()
        .config(PhantomConfig::stealth());

    assert!(builder.get_config().stealth_mode);

    let client_hs = builder
        .create_client_handshake(kem_public(), verifying_key())
        .expect("random bytes");
    let _client_hello = client_hs.create_client_hello();

    let server_hs = PhantomBuilder::create_server_handshake(kem_public(), verifying_key())
        .expect("random bytes");
    let _server_pk = server_hs.verifying_key();
}

#[test]
fn pinned_key_is_kept() {
    let builder = PhantomBuilder::new();
    assert!(builder.server_key().is_none());
    let builder = builder.pin_server_key(verifying_key());
    assert_eq!(builder.server_key().unwrap().ed25519_pk, [3u8; 32]);
    assert!(builder.get_config().pqc_enabled);
    assert_eq!(builder.get_config().max_packet_size, 1400);
}
