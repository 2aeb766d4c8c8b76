//! The FakeTLS leg.

use phantom_transport::legs::faketls::{
    build_fake_client_hello, build_fake_client_hello_from, build_fake_server_hello,
    derive_outer_keys, draw_fake_hello, draw_fake_hello_with, fake_hello_draws_from,
    FakeTlsConfig, FakeTlsError, FakeTlsLeg, FakeTlsState, CONTENT_APPLICATION_DATA, CONTENT_HANDSHAKE,
};

#[test]
fn test_faketls_leg_creation() {
    let leg = FakeTlsLeg::new();
    assert!(!leg.is_available());
    assert_eq!(leg.config().sni, "www.google.com");
}

#[test]
fn test_fake_client_hello() {
    let leg = FakeTlsLeg::new();
    let hello = build_fake_client_hello(leg.config()).expect("random bytes");

    assert_eq!(hello[0], CONTENT_HANDSHAKE);
    assert!(hello.len() > 100);
}

#[test]
fn test_wrap_tls_record() {
    let mut leg = FakeTlsLeg::new();
    let data = b"test payload";
    let record = leg.wrap_as_tls_record(data);

    assert_eq!(record[0], CONTENT_APPLICATION_DATA);
    assert_eq!(record.len(), 5 + data.len() + 1 + 16);
}

#[test]
fn test_ja3_randomization() {
    let leg = FakeTlsLeg::new();
    let hello1_ = build_fake_client_hello(leg.config()).expect("random bytes");
    let hello2 = build_fake_client_hello(leg.config()).expect("random bytes");

    assert_ne!(hello1_, hello2);

    assert_eq!(hello1_[9], 0x03);
    assert_eq!(hello1_[10], 0x03);
}

#[test]
fn test_wrap_unwrap_roundtrip_across_peers() {
    let mut client = FakeTlsLeg::with_config(FakeTlsConfig::default());

    let mut server = FakeTlsLeg::connected(FakeTlsConfig::default(), true, 0);

    let plaintexts: &[&[u8]] = &[
        b"first record",
        b"second record",
        b"third record (a bit longer to vary length)",
    ];
    for pt in plaintexts {
        let record = client.wrap_as_tls_record(pt);
        let recovered = server.unwrap_tls_record(&record).unwrap();
        assert_eq!(&recovered[..], *pt);
    }
}

#[test]
fn test_nonce_advances_per_record() {
    let mut leg = FakeTlsLeg::with_config(FakeTlsConfig::default());
    let r1 = leg.wrap_as_tls_record(b"identical");
    let r2 = leg.wrap_as_tls_record(b"identical");
    assert_ne!(r1, r2, "counter must advance — identical plaintext must not produce identical ciphertext");
}

#[test]
fn test_client_hello_structure() {
    let leg = FakeTlsLeg::new();
    let hello = build_fake_client_hello(leg.config()).expect("random bytes");

    assert_eq!(hello[0], CONTENT_HANDSHAKE, "First byte should be Handshake (22)");

    let record_version = u16::from_be_bytes([hello[1], hello[2]]);
    assert_eq!(record_version, 0x0303, "Record version should be TLS 1.2 (0x0303)");

    let record_len = u16::from_be_bytes([hello[3], hello[4]]) as usize;
    assert_eq!(hello.len(), 5 + record_len, "Record length should match payload");

    assert_eq!(hello[5], 0x01, "Handshake type should be ClientHello");

    assert_eq!(hello[9], 0x03, "Legacy version major");
    assert_eq!(hello[10], 0x03, "Legacy version minor");

    let random = &hello[11..43];
    assert!(!random.iter().all(|&b| b == 0), "Random should not be all zeros");

    assert_eq!(hello[43], 32, "Session ID length should be 32");
}

#[test]
fn keys_of_the_two_ends_cross() {
    let client = derive_outer_keys("www.google.com", 0x0303, false);
    let server = derive_outer_keys("www.google.com", 0x0303, true);
    assert_eq!(client.send, server.recv);
    assert_eq!(client.recv, server.send);
    assert_ne!(client.send, client.recv);
    let other = derive_outer_keys("www.example.org", 0x0303, false);
    assert_ne!(client.send, other.send);
}

#[test]
fn tampered_record_is_refused() {
    let mut client = FakeTlsLeg::connected(FakeTlsConfig::default(), false, 0);
    let mut server = FakeTlsLeg::connected(FakeTlsConfig::default(), true, 0);
    let mut record = client.wrap_as_tls_record(b"payload");
    let last = record.len() - 1;
    record[last] ^= 1;
    assert!(server.unwrap_tls_record(&record).is_err());
}

#[test]
fn payloads_come_out_of_the_stream() {
    let mut client = FakeTlsLeg::connected(FakeTlsConfig::default(), false, 7);
    let mut server = FakeTlsLeg::connected(FakeTlsConfig::default(), true, 0);
    let mut wire = client.wrap_as_tls_record(b"one");
    wire.extend(client.wrap_as_tls_record(b"two"));
    let mut got = Vec::new();
    for b in wire {
        server.feed(&[b]);
        while let Some(p) = server.next_payload() {
            got.push(p.expect("opens"));
        }
    }
    assert_eq!(got, vec![b"one".to_vec(), b"two".to_vec()]);
}

#[test]
fn leg_is_ready_once_connected() {
    let leg = FakeTlsLeg::new();
    assert!(matches!(leg.check_ready(), Err(FakeTlsError::NotConnected)));
    let mut leg = FakeTlsLeg::connected(FakeTlsConfig::default(), false, 7);
    assert_eq!(leg.rtt_ms(), 7);
    assert_eq!(leg.loss_percent(), 0);
    while leg.state() != FakeTlsState::ApplicationData {
        leg.advance();
    }
    assert!(leg.check_ready().is_ok());
    leg.close();
    assert!(leg.check_ready().is_err());
}

#[test]
fn same_draws_make_the_same_fake_hello() {
    let draws = draw_fake_hello().expect("random bytes");
    let config = FakeTlsConfig::default();
    assert_eq!(
        build_fake_client_hello_from(&config, &draws),
        build_fake_client_hello_from(&config, &draws)
    );
    let sh = build_fake_server_hello(&config).expect("random bytes");
    assert_eq!(sh[0], CONTENT_HANDSHAKE);
    assert_eq!(sh[5], 0x02);
}

#[test]
fn hello_draws_are_laid_out_as_drawn() {
    let bytes: Vec<u8> = (0..100).collect();
    let places = vec![8, 2, 0, 5, 1, 3, 4, 6, 7];
    let d = fake_hello_draws_from(&bytes, places, 4, 3, vec![4, 3, 2, 1, 0], 60);
    assert_eq!(d.random[..], bytes[..32]);
    assert_eq!(d.session_id[..], bytes[32..64]);
    let mut secret = [0u8; 32];
    secret.copy_from_slice(&bytes[64..96]);
    let public = x25519_dalek::PublicKey::from(&x25519_dalek::StaticSecret::from(secret));
    assert_eq!(d.share, public.to_bytes());
    assert_eq!(
        [
            d.suite_grease,
            d.group_grease,
            d.share_grease,
            d.version_grease
        ],
        [96, 97, 98, 99]
    );
    assert_eq!(d.suites, vec![8, 2, 0, 5]);
    assert_eq!((d.grease_at, d.padding), (3, 60));
    assert_eq!(d.order, vec![4, 3, 2, 1, 0]);
}

#[test]
fn hello_uses_reserved_numbers_and_exact_lengths() {
    let mut s = vec![0u8; 100];
    s[96..100].copy_from_slice(&[0x3f, 0x00, 0xff, 0x71]);
    let d = fake_hello_draws_from(&s, vec![4, 2, 7], 3, 0, vec![3, 0, 1, 2, 4], 50);
    let hello = build_fake_client_hello_from(&FakeTlsConfig::default(), &d);
    let greases = [d.suite_grease, d.group_grease, d.share_grease, d.version_grease];
    let reserved: Vec<u8> = greases.iter().map(|g| (g & 0xf0) | 0x0a).collect();
    let share = [0, 51, 0, 43, 0, 41, reserved[2], reserved[2], 0, 1, 0, 0, 0x1d, 0, 32];
    assert!(hello.windows(share.len()).any(|w| w == share));
    let groups = [0, 10, 0, 8, 0, 6, reserved[1], reserved[1], 0, 0x1d, 0, 0x17];
    assert!(hello.windows(groups.len()).any(|w| w == groups));
    let versions = [0, 43, 0, 7, 6, reserved[3], reserved[3], 3, 4, 3, 3];
    assert!(hello.windows(versions.len()).any(|w| w == versions));
}

#[test]
fn hello_takes_the_randoms_that_it_is_given() {
    let mut randoms = [1u8; 64];
    randoms[32..].fill(2);
    let d = draw_fake_hello_with(&randoms).expect("random bytes");
    assert_eq!((d.random, d.session_id), ([1; 32], [2; 32]));
    let hello = build_fake_client_hello_from(&FakeTlsConfig::default(), &d);
    assert_eq!(hello[11..43], [1; 32]);
    assert_eq!(hello[44..76], [2; 32]);
}
