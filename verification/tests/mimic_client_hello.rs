//! The imitated ClientHello.

use phantom_transport::legs::mimic_tls::client_hello::{
    build_client_hello, build_client_hello_from, client_hello_draws_from, draw_client_hello,
    grease_value, group_key_exchange_len, padding_extension, profile_is_fresh, shuffle, EXT_ALPN, EXT_KEY_SHARE,
    EXT_PADDING, EXT_SERVER_NAME, EXT_SIGNATURE_ALGORITHMS, EXT_SUPPORTED_GROUPS,
    EXT_SUPPORTED_VERSIONS, HS_TYPE_CLIENT_HELLO, PROFILE_CAPTURED, TLS_LEGACY_VERSION,
};

fn reparse(msg: &[u8]) -> Option<(Vec<u16>, Vec<u16>, Vec<u16>, Vec<u8>, Vec<u16>)> {
    let mut p = Parser::new(msg);
    if p.u8()? != HS_TYPE_CLIENT_HELLO {
        return None;
    }
    let body_len = p.u24()? as usize;
    if p.remaining() != body_len {
        return None;
    }
    if p.u16()? != TLS_LEGACY_VERSION {
        return None;
    }
    p.skip(32)?;
    let sid_len = p.u8()? as usize;
    let session_id = p.bytes(sid_len)?.to_vec();
    let cs_bytes = p.u16_vec()?;
    let cipher_suites = u16s(&cs_bytes)?;
    let comp = p.u8_vec()?;
    if comp != [0x00] {
        return None;
    }
    let ext_bytes = p.u16_vec()?;
    if p.remaining() != 0 {
        return None;
    }

    let mut ep = Parser::new(&ext_bytes);
    let mut ext_types = Vec::new();
    let mut groups = Vec::new();
    let mut ks_groups = Vec::new();
    while ep.remaining() > 0 {
        let et = ep.u16()?;
        let ed = ep.u16_vec()?;
        ext_types.push(et);
        if et == EXT_SUPPORTED_GROUPS {
            let mut gp = Parser::new(&ed);
            groups = u16s(&gp.u16_vec()?)?;
        } else if et == EXT_KEY_SHARE {
            let mut kp = Parser::new(&ed);
            let shares = kp.u16_vec()?;
            let mut sp = Parser::new(&shares);
            while sp.remaining() > 0 {
                ks_groups.push(sp.u16()?);
                let _share = sp.u16_vec()?;
            }
        }
    }
    Some((cipher_suites, groups, ks_groups, session_id, ext_types))
}

struct Parser<'a> {
    b: &'a [u8],
    i: usize,
}
impl<'a> Parser<'a> {
    fn new(b: &'a [u8]) -> Self {
        Self { b, i: 0 }
    }
    fn remaining(&self) -> usize {
        self.b.len() - self.i
    }
    fn bytes(&mut self, n: usize) -> Option<&'a [u8]> {
        let s = self.b.get(self.i..self.i + n)?;
        self.i += n;
        Some(s)
    }
    fn u8(&mut self) -> Option<u8> {
        Some(self.bytes(1)?[0])
    }
    fn u16(&mut self) -> Option<u16> {
        let s = self.bytes(2)?;
        Some(u16::from_be_bytes([s[0], s[1]]))
    }
    fn u24(&mut self) -> Option<u32> {
        let s = self.bytes(3)?;
        Some(u32::from_be_bytes([0, s[0], s[1], s[2]]))
    }
    fn skip(&mut self, n: usize) -> Option<()> {
        self.bytes(n)?;
        Some(())
    }
    fn u8_vec(&mut self) -> Option<Vec<u8>> {
        let n = self.u8()? as usize;
        Some(self.bytes(n)?.to_vec())
    }
    fn u16_vec(&mut self) -> Option<Vec<u8>> {
        let n = self.u16()? as usize;
        Some(self.bytes(n)?.to_vec())
    }
}
fn u16s(b: &[u8]) -> Option<Vec<u16>> {
    if b.len() % 2 != 0 {
        return None;
    }
    Some(
        b.chunks(2)
            .map(|c| u16::from_be_bytes([c[0], c[1]]))
            .collect(),
    )
}
fn is_grease(v: u16) -> bool {
    let hi = (v >> 8) as u8;
    let lo = (v & 0xff) as u8;
    hi == lo && (hi & 0x0f) == 0x0a
}

#[test]
fn client_hello_is_structurally_self_consistent() {
    let (cs, groups, ks_groups, sid, ext_types) =
        reparse(&build_client_hello("example.com").expect("random bytes")).expect("must re-parse cleanly");
    assert_eq!(sid.len(), 32);
    for g in &ks_groups {
        if is_grease(*g) {
            continue;
        }
        assert!(
            groups.contains(g),
            "key_share group {g:#06x} not in supported_groups"
        );
    }
    assert!(cs.iter().any(|c| is_grease(*c)), "no GREASE cipher");
    assert!(cs.contains(&0x1301) && cs.contains(&0x1303));
    for needed in [
        EXT_SERVER_NAME,
        EXT_SUPPORTED_GROUPS,
        EXT_SIGNATURE_ALGORITHMS,
        EXT_KEY_SHARE,
        EXT_SUPPORTED_VERSIONS,
        EXT_ALPN,
    ] {
        assert!(
            ext_types.contains(&needed),
            "missing extension {needed:#06x}"
        );
    }
    assert_eq!(ext_types.iter().filter(|t| is_grease(**t)).count(), 2);
}

#[test]
fn per_connection_fields_are_fresh() {
    let a = build_client_hello("example.com").expect("random bytes");
    let b = build_client_hello("example.com").expect("random bytes");
    assert_ne!(
        a, b,
        "ClientHello must not be byte-identical across connections"
    );
}

#[test]
fn key_share_lengths_match_their_groups() {
    let msg = build_client_hello("a.test").expect("random bytes");
    let mut p = Parser::new(&msg);
    p.u8().unwrap();
    p.u24().unwrap();
    p.u16().unwrap();
    p.skip(32).unwrap();
    let sl = p.u8().unwrap() as usize;
    p.skip(sl).unwrap();
    let _cs = p.u16_vec().unwrap();
    let _comp = p.u8_vec().unwrap();
    let ext_bytes = p.u16_vec().unwrap();
    let mut ep = Parser::new(&ext_bytes);
    while ep.remaining() > 0 {
        let et = ep.u16().unwrap();
        let ed = ep.u16_vec().unwrap();
        if et == EXT_KEY_SHARE {
            let mut kp = Parser::new(&ed);
            let shares = kp.u16_vec().unwrap();
            let mut sp = Parser::new(&shares);
            while sp.remaining() > 0 {
                let g = sp.u16().unwrap();
                let share = sp.u16_vec().unwrap();
                if !is_grease(g) {
                    assert_eq!(
                        share.len(),
                        group_key_exchange_len(g),
                        "key_share length mismatch for group {g:#06x}"
                    );
                }
            }
        }
    }
}

#[test]
fn staleness_check_flags_an_old_profile() {
    assert!(
        profile_is_fresh(PROFILE_CAPTURED, 6),
        "freshly captured is fresh"
    );
    let stale = PROFILE_CAPTURED + 100 + 6;
    assert!(
        !profile_is_fresh(stale, 6),
        "an 18-month-old profile must read stale"
    );
}

#[test]
fn same_draws_make_the_same_hello() {
    let draws = draw_client_hello().expect("random bytes");
    let a = build_client_hello_from("example.com", &draws);
    let b = build_client_hello_from("example.com", &draws);
    assert_eq!(a, b);
    assert_ne!(a, build_client_hello_from("example.org", &draws));
    assert!(reparse(&a).is_some());
}

#[test]
fn grease_values_are_reserved() {
    assert_eq!(grease_value(0), 0x0a0a);
    for draw in 0..40u64 {
        assert!(is_grease(grease_value(draw)));
    }
}

#[test]
fn padding_fills_short_hellos() {
    let ext = padding_extension(300).expect("short hello");
    assert_eq!(u16::from_be_bytes([ext[0], ext[1]]), EXT_PADDING);
    assert!(padding_extension(2000).is_none());
}

#[test]
fn shuffle_keeps_the_items() {
    let mut order: Vec<usize> = (0..10).collect();
    shuffle(&mut order, &vec![3, 1, 4, 1, 5, 9, 2, 6, 5]);
    let mut sorted = order.clone();
    sorted.sort();
    assert_eq!(sorted, (0..10).collect::<Vec<usize>>());
}

#[test]
fn client_hello_draws_are_laid_out_as_drawn() {
    let bytes: Vec<u8> = (0..1488u32).map(|i| (i % 251) as u8).collect();
    let d = client_hello_draws_from(&bytes);
    assert_eq!(d.random[..], bytes[48..80]);
    assert_eq!(d.session_id[..], bytes[80..112]);
    assert_eq!(d.hybrid_share, bytes[112..1328]);
    assert_eq!(d.x25519_share, bytes[1328..1360]);
    assert_eq!(d.picks.len(), 16);
    for (i, pick) in d.picks.iter().enumerate() {
        let mut le = [0u8; 8];
        le.copy_from_slice(&bytes[1360 + 8 * i..1368 + 8 * i]);
        assert_eq!(*pick, u64::from_le_bytes(le));
    }
}
