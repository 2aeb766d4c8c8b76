//! The imitated ServerHello.

use phantom_transport::legs::mimic_tls::client_hello::{
    build_client_hello, is_grease, EXT_KEY_SHARE, EXT_SUPPORTED_VERSIONS, GROUP_X25519,
    HS_TYPE_CLIENT_HELLO, TLS_LEGACY_VERSION,
};
use phantom_transport::legs::mimic_tls::server_hello::{
    build_server_hello, build_server_hello_from, fresh_server_random, is_plain_random,
    parse_client_hello, select, ParsedClientHello, HS_TYPE_SERVER_HELLO, MAX_SNI_LEN,
};

const HRR_RANDOM: [u8; 32] = [
    0xCF, 0x21, 0xAD, 0x74, 0xE5, 0x9A, 0x61, 0x11, 0xBE, 0x1D, 0x8C, 0x02, 0x1E, 0x65, 0xB8, 0x91,
    0xC2, 0xA2, 0x11, 0x16, 0x7A, 0xBB, 0x8C, 0x5E, 0x07, 0x9E, 0x09, 0xE2, 0xC8, 0xA8, 0x33, 0x9C,
];
const DOWNGRADE_TLS12: [u8; 8] = [0x44, 0x4F, 0x57, 0x4E, 0x47, 0x52, 0x44, 0x01];
const DOWNGRADE_TLS11: [u8; 8] = [0x44, 0x4F, 0x57, 0x4E, 0x47, 0x52, 0x44, 0x00];

fn err(m: &str) -> String {
    m.to_string()
}

struct Cursor<'a> {
    b: &'a [u8],
}

impl<'a> Cursor<'a> {
    fn new(b: &'a [u8]) -> Self {
        Self { b }
    }
    fn remaining(&self) -> usize {
        self.b.len()
    }
    fn take(&mut self, n: usize) -> Result<&'a [u8], String> {
        if n > self.b.len() {
            return Err(err("short"));
        }
        let (front, rest) = self.b.split_at(n);
        self.b = rest;
        Ok(front)
    }
    fn u8(&mut self) -> Result<u8, String> {
        Ok(self.take(1)?[0])
    }
    fn u16(&mut self) -> Result<u16, String> {
        let s = self.take(2)?;
        Ok(u16::from_be_bytes([s[0], s[1]]))
    }
    fn u24(&mut self) -> Result<u32, String> {
        let s = self.take(3)?;
        Ok(u32::from_be_bytes([0, s[0], s[1], s[2]]))
    }
    fn u8_vec(&mut self) -> Result<&'a [u8], String> {
        let n = self.u8()? as usize;
        self.take(n)
    }
    fn u16_vec(&mut self) -> Result<&'a [u8], String> {
        let n = self.u16()? as usize;
        self.take(n)
    }
}

fn reparse_server_hello(msg: &[u8]) -> Result<(u16, Vec<u8>, u16, u16), String> {
    let mut c = Cursor::new(msg);
    if c.u8()? != HS_TYPE_SERVER_HELLO {
        return Err(err("not a ServerHello"));
    }
    let blen = c.u24()? as usize;
    if c.remaining() != blen {
        return Err(err("length mismatch"));
    }
    if c.u16()? != TLS_LEGACY_VERSION {
        return Err(err("bad legacy_version"));
    }
    c.take(32)?;
    let sid = c.u8_vec()?.to_vec();
    let cipher = c.u16()?;
    if c.u8()? != 0x00 {
        return Err(err("bad compression"));
    }
    let ext_bytes = c.u16_vec()?;
    let mut e = Cursor::new(ext_bytes);
    let mut selected_version = 0;
    let mut ks_group = 0;
    while e.remaining() > 0 {
        let et = e.u16()?;
        let ed = e.u16_vec()?;
        if et == EXT_SUPPORTED_VERSIONS {
            let mut v = Cursor::new(ed);
            selected_version = v.u16()?;
        } else if et == EXT_KEY_SHARE {
            let mut k = Cursor::new(ed);
            ks_group = k.u16()?;
            let _share = k.u16_vec()?;
        }
    }
    Ok((cipher, sid, selected_version, ks_group))
}

#[test]
fn server_hello_is_consistent_with_the_client_hello() {
    let ch = build_client_hello("consistency.test").expect("random bytes");
    let parsed = parse_client_hello(&ch).expect("parse our own CH");
    let sh = build_server_hello(&parsed).expect("build SH");
    let (cipher, sid, version, group) = reparse_server_hello(&sh).expect("reparse SH");

    assert!(parsed.cipher_suites.contains(&cipher));
    assert!(!is_grease(cipher));
    assert_eq!(sid, parsed.legacy_session_id);
    assert_eq!(version, 0x0304);
    assert!(parsed.supported_groups.contains(&group));
    assert!(parsed.key_share_groups.contains(&group));
    assert!(!is_grease(group));
}

#[test]
fn server_random_avoids_hrr_and_downgrade_sentinels() {
    let parsed = ParsedClientHello {
        legacy_session_id: vec![7u8; 32],
        cipher_suites: vec![0x1301],
        supported_groups: vec![GROUP_X25519],
        key_share_groups: vec![GROUP_X25519],
    };
    let sh = build_server_hello(&parsed).expect("build");
    let random = &sh[6..38];
    assert_ne!(random, &HRR_RANDOM[..]);
    assert_ne!(&random[24..32], &DOWNGRADE_TLS12[..]);
    assert_ne!(&random[24..32], &DOWNGRADE_TLS11[..]);
}

#[test]
fn key_share_length_matches_selected_group() {
    let parsed = ParsedClientHello {
        legacy_session_id: vec![0u8; 32],
        cipher_suites: vec![0x1301],
        supported_groups: vec![GROUP_X25519],
        key_share_groups: vec![GROUP_X25519],
    };
    let sh = build_server_hello(&parsed).expect("build");
    let (_c, _s, _v, group) = reparse_server_hello(&sh).expect("reparse");
    assert_eq!(group, GROUP_X25519);
}

#[test]
fn rejects_a_truncated_client_hello() {
    let ch = build_client_hello("x.test").expect("random bytes");
    let truncated = &ch[..ch.len() - 10];
    assert!(parse_client_hello(truncated).is_err());
}

#[test]
fn rejects_garbage() {
    assert!(parse_client_hello(b"not a tls clienthello at all").is_err());
    assert!(parse_client_hello(&[]).is_err());
    assert!(parse_client_hello(&[HS_TYPE_SERVER_HELLO, 0, 0, 0]).is_err());
}

#[test]
fn no_common_key_share_group_is_an_error_not_a_panic() {
    let parsed = ParsedClientHello {
        legacy_session_id: vec![0u8; 32],
        cipher_suites: vec![0x1301],
        supported_groups: vec![GROUP_X25519],
        key_share_groups: vec![],
    };
    assert!(build_server_hello(&parsed).is_err());
}

fn ch_with_raw_extensions(ext_block: &[u8]) -> Vec<u8> {
    let mut body = Vec::new();
    body.extend_from_slice(&[0x03, 0x03]);
    body.extend_from_slice(&[0u8; 32]);
    body.push(0x00);
    body.extend_from_slice(&[0x00, 0x02, 0x13, 0x01]);
    body.extend_from_slice(&[0x01, 0x00]);
    body.extend_from_slice(&(ext_block.len() as u16).to_be_bytes());
    body.extend_from_slice(ext_block);
    let mut msg = vec![HS_TYPE_CLIENT_HELLO];
    let len = body.len() as u32;
    msg.extend_from_slice(&[(len >> 16) as u8, (len >> 8) as u8, len as u8]);
    msg.extend_from_slice(&body);
    msg
}

#[test]
fn rejects_inner_keyshare_length_overrun() {
    let ext_block = [
        0x00, 0x33,
        0x00, 0x06,
        0x00, 0x04,
        0x00, 0x1d,
        0xFF, 0xFF,
    ];
    let ch = ch_with_raw_extensions(&ext_block);
    assert!(
        parse_client_hello(&ch).is_err(),
        "an inner key_share length overrun must be a typed error, not an OOB"
    );
}

#[test]
fn rejects_maximal_junk_in_bounded_time() {
    let junk = vec![0x01u8; 64 * 1024];
    assert!(parse_client_hello(&junk).is_err());
}

#[test]
fn sentinel_randoms_are_not_plain() {
    assert!(!is_plain_random(&HRR_RANDOM));
    let mut r = [7u8; 32];
    assert!(is_plain_random(&r));
    r[24..].copy_from_slice(&DOWNGRADE_TLS12);
    assert!(!is_plain_random(&r));
    r[24..].copy_from_slice(&DOWNGRADE_TLS11);
    assert!(!is_plain_random(&r));
    let a = fresh_server_random().expect("random bytes");
    assert!(is_plain_random(&a));
    assert_ne!(a, fresh_server_random().expect("random bytes"));
}

#[test]
fn selection_prefers_what_both_lists_offer() {
    let parsed = ParsedClientHello {
        legacy_session_id: vec![0u8; 32],
        cipher_suites: vec![0x0a0a, 0x1301],
        supported_groups: vec![0x1a1a, GROUP_X25519],
        key_share_groups: vec![0x1a1a, GROUP_X25519],
    };
    let (cipher, group) = select(&parsed).expect("a common choice");
    assert_eq!(cipher, 0x1301);
    assert_eq!(group, GROUP_X25519);
    let sh = build_server_hello_from(&parsed, &[9u8; 32], &[5u8; 32]).expect("build");
    assert_eq!(&sh[6..38], &[9u8; 32]);
    let (c, s, v, g) = reparse_server_hello(&sh).expect("reparse");
    assert_eq!((c, v, g), (0x1301, 0x0304, GROUP_X25519));
    assert_eq!(s, vec![0u8; 32]);
}

#[test]
fn long_server_name_is_read_back() {
    let name = "n".repeat(MAX_SNI_LEN);
    let hello = build_client_hello(&name).expect("random bytes");
    assert_eq!(hello.len(), 1512 + MAX_SNI_LEN);
    let parsed = parse_client_hello(&hello).expect("parse");
    assert_eq!(parsed.legacy_session_id.len(), 32);
    assert_eq!(parsed.cipher_suites.len(), 16);
    assert_eq!(parsed.cipher_suites[1..4], [0x1301, 0x1302, 0x1303]);
    assert_eq!(parsed.supported_groups[1..], [0x11ec, 0x001d, 0x0017, 0x0018]);
    assert_eq!(parsed.key_share_groups[1..], [0x11ec, 0x001d]);
    for k in [0, 1, 3, 4, 5, 38, 1000, hello.len() - 1] {
        assert!(parse_client_hello(&hello[..k]).is_err());
    }
    let longer = "n".repeat(MAX_SNI_LEN + 1);
    let hello = build_client_hello(&longer).expect("random bytes");
    let parsed = parse_client_hello(&hello).expect("parse");
    assert!(parsed.supported_groups.is_empty(), "the length of the extensions wrapped");
}
