//! Device profiles.

use phantom_transport::device_profile::{
    DeviceProfile, DeviceTier, HwCaps, PqKemLevel, PqSignLevel,
};
use phantom_transport::types::CipherSuite;

const AES: HwCaps = HwCaps { has_hw_aes: true };
const NO_AES: HwCaps = HwCaps { has_hw_aes: false };

#[test]
fn constrained_profile() {
    let p = DeviceProfile::constrained();
    assert_eq!(p.tier, DeviceTier::Constrained);
    assert_eq!(p.cipher, CipherSuite::ChaCha20Poly1305);
    assert_eq!(p.pq_kem, PqKemLevel::Kyber512);
    assert_eq!(p.pq_sign, PqSignLevel::Dilithium2);
    assert_eq!(p.buffer_size, 2048);
    assert!(!p.coalescing);
    assert!(!p.compression);
}

#[test]
fn standard_profile() {
    let p = DeviceProfile::standard(&AES);
    assert_eq!(p.tier, DeviceTier::Standard);
    assert_eq!(p.pq_kem, PqKemLevel::Kyber768);
    assert!(p.coalescing);
    assert!(p.compression);
}

#[test]
fn performance_profile() {
    let p = DeviceProfile::performance();
    assert_eq!(p.tier, DeviceTier::Performance);
    assert_eq!(p.cipher, CipherSuite::Aes256Gcm);
    assert_eq!(p.pq_kem, PqKemLevel::Kyber768);
    assert_eq!(p.buffer_size, 65536);
}

#[test]
fn auto_detect_profile() {
    let p = DeviceProfile::auto_detect(&AES);
    assert_eq!(p.tier, DeviceTier::Performance);
}

#[test]
fn all_tiers_have_pq() {
    for tier in [
        DeviceTier::Constrained,
        DeviceTier::Standard,
        DeviceTier::Performance,
    ] {
        let p = DeviceProfile::for_tier(tier, &NO_AES);
        assert!(matches!(
            p.pq_kem,
            PqKemLevel::Kyber512 | PqKemLevel::Kyber768
        ));
        assert!(matches!(
            p.pq_sign,
            PqSignLevel::Dilithium2 | PqSignLevel::Dilithium3
        ));
    }
}

#[test]
fn standard_cipher_follows_the_hardware() {
    assert_eq!(DeviceProfile::standard(&AES).cipher, CipherSuite::Aes256Gcm);
    assert_eq!(
        DeviceProfile::standard(&NO_AES).cipher,
        CipherSuite::ChaCha20Poly1305
    );
    assert!(!DeviceProfile::constrained().is_full_pq());
    assert!(DeviceProfile::performance().is_full_pq());
    assert_eq!(DeviceProfile::constrained().tier_byte(), 0);
    assert_eq!(DeviceProfile::standard(&AES).tier_byte(), 1);
    assert_eq!(DeviceProfile::performance().tier_byte(), 2);
}

#[test]
fn profile_text_is_exact() {
    assert_eq!(
        DeviceProfile::constrained().to_text(),
        "Constrained [cipher=ChaCha20Poly1305, kem=Kyber512, sign=Dilithium2, buf=2KB, streams=4]"
    );
    assert_eq!(
        DeviceProfile::performance().to_text(),
        "Performance [cipher=Aes256Gcm, kem=Kyber768, sign=Dilithium3, buf=64KB, streams=256]"
    );
}
