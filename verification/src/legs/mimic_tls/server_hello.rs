//! Parsing of an untrusted ClientHello and synthesis of the ServerHello that answers it.
//!
//! An observer compares the two: the selected cipher suite must have been offered, the
//! key share must be of a group that was offered with a share, the session id must be
//! echoed and TLS 1.3 selected.

use super::client_hello::{
    client_hello_message, extension_bytes, extension_order, extensions_in_order, grease,
    group_key_exchange_len, hello_ext_data, hello_ext_type, hello_extension, hello_extensions,
    hello_prefix, is_grease, key_exchange_len, key_shares, list_bytes, padding,
    profile_cipher_suites, profile_groups, profile_signature_algorithms, push_len24, push_u16_vec,
    shuffled, swapped, vec16, ClientHelloDraws, EXTENSION_COUNT, EXT_KEY_SHARE, EXT_PADDING,
    EXT_SUPPORTED_GROUPS, EXT_SUPPORTED_VERSIONS, GROUP_X25519, GROUP_X25519_MLKEM768,
    HS_TYPE_CLIENT_HELLO, TLS_LEGACY_VERSION,
};
use crate::errors::CoreError;
use crate::random::{os_random, random_array};
use crate::wire::{append, be16, be16_at, be24, be24_at, copy_bytes, push_u16, read_u16, read_u24};
use vstd::prelude::*;

verus! {

/// Handshake type of a ServerHello.
pub const HS_TYPE_SERVER_HELLO: u8 = 0x02;

/// Longest server name with which the extensions of a ClientHello fit their two-byte length.
pub const MAX_SNI_LEN: usize = 64132;

/// The random that marks a HelloRetryRequest.
pub open spec fn hrr_random() -> Seq<u8> {
    seq![
        0xCFu8, 0x21u8, 0xADu8, 0x74u8, 0xE5u8, 0x9Au8, 0x61u8, 0x11u8, 0xBEu8, 0x1Du8, 0x8Cu8,
        0x02u8, 0x1Eu8, 0x65u8, 0xB8u8, 0x91u8, 0xC2u8, 0xA2u8, 0x11u8, 0x16u8, 0x7Au8, 0xBBu8,
        0x8Cu8, 0x5Eu8, 0x07u8, 0x9Eu8, 0x09u8, 0xE2u8, 0xC8u8, 0xA8u8, 0x33u8, 0x9Cu8,
    ]
}

/// The tail that marks a downgrade; its last byte tells the version.
pub open spec fn downgrade_tail(last: u8) -> Seq<u8> {
    seq![0x44u8, 0x4Fu8, 0x57u8, 0x4Eu8, 0x47u8, 0x52u8, 0x44u8, last]
}

/// Whether a ServerHello random signals neither a retry nor a downgrade.
pub open spec fn plain_random(r: Seq<u8>) -> bool {
    &&& r != hrr_random()
    &&& r.subrange(24, 32) != downgrade_tail(1)
    &&& r.subrange(24, 32) != downgrade_tail(0)
}

/// Whether a ServerHello random signals neither a retry nor a downgrade.
pub fn is_plain_random(r: &[u8; 32]) -> (b: bool)
    ensures
        b == plain_random(r@),
{
    let hrr: Vec<u8> = vec![
        0xCF, 0x21, 0xAD, 0x74, 0xE5, 0x9A, 0x61, 0x11, 0xBE, 0x1D, 0x8C, 0x02, 0x1E, 0x65, 0xB8,
        0x91, 0xC2, 0xA2, 0x11, 0x16, 0x7A, 0xBB, 0x8C, 0x5E, 0x07, 0x9E, 0x09, 0xE2, 0xC8, 0xA8,
        0x33, 0x9C,
    ];
    let tls12: Vec<u8> = vec![0x44, 0x4F, 0x57, 0x4E, 0x47, 0x52, 0x44, 1];
    let tls11: Vec<u8> = vec![0x44, 0x4F, 0x57, 0x4E, 0x47, 0x52, 0x44, 0];
    proof {
        assert(hrr@ =~= hrr_random());
        assert(tls12@ =~= downgrade_tail(1));
        assert(tls11@ =~= downgrade_tail(0));
    }
    let tail: &[u8] = vstd::slice::slice_subrange(r.as_slice(), 24, 32);
    !crate::wire::same_bytes(r.as_slice(), hrr.as_slice()) && !crate::wire::same_bytes(
        tail,
        tls12.as_slice(),
    ) && !crate::wire::same_bytes(tail, tls11.as_slice())
}

/// What is wrong with a ClientHello.
#[derive(Debug, Clone, Copy, PartialEq, Eq, Structural)]
pub enum HelloFault {
    /// A field runs past the end.
    ShortRead,
    /// Another handshake type.
    NotClientHello,
    /// The handshake length is not the length of the body.
    LengthMismatch,
    /// A version other than the legacy version.
    LegacyVersion,
    /// A list of two-byte numbers with an odd length.
    OddList,
    /// No cipher suite that can be selected.
    NoCipher,
    /// No group that is supported and comes with a share.
    NoGroup,
}

/// The text of a fault.
pub open spec fn fault_text(f: HelloFault) -> Seq<char> {
    match f {
        HelloFault::ShortRead => "malformed ClientHello: short read"@,
        HelloFault::NotClientHello => "malformed ClientHello: not a ClientHello"@,
        HelloFault::LengthMismatch => "malformed ClientHello: handshake length mismatch"@,
        HelloFault::LegacyVersion => "malformed ClientHello: unexpected legacy_version"@,
        HelloFault::OddList => "malformed ClientHello: odd-length u16 list"@,
        HelloFault::NoCipher => "malformed ClientHello: no usable cipher_suite offered"@,
        HelloFault::NoGroup
            => "malformed ClientHello: no key_share group common to supported_groups"@,
    }
}

/// The network error of a fault.
pub fn fault_error(f: HelloFault) -> (e: CoreError)
    ensures
        e.says(fault_text(f)),
{
    let text: String = match f {
        HelloFault::ShortRead => "malformed ClientHello: short read".to_owned(),
        HelloFault::NotClientHello => "malformed ClientHello: not a ClientHello".to_owned(),
        HelloFault::LengthMismatch => "malformed ClientHello: handshake length mismatch".to_owned(),
        HelloFault::LegacyVersion => "malformed ClientHello: unexpected legacy_version".to_owned(),
        HelloFault::OddList => "malformed ClientHello: odd-length u16 list".to_owned(),
        HelloFault::NoCipher
            => "malformed ClientHello: no usable cipher_suite offered".to_owned(),
        HelloFault::NoGroup
            => "malformed ClientHello: no key_share group common to supported_groups".to_owned(),
    };
    CoreError::NetworkError(text)
}

/// The fields of a ClientHello that the answer depends on.
#[derive(Debug)]
pub struct ParsedClientHello {
    pub legacy_session_id: Vec<u8>,
    pub cipher_suites: Vec<u16>,
    pub supported_groups: Vec<u16>,
    pub key_share_groups: Vec<u16>,
}

/// The fields of a ClientHello as sequences.
#[verifier::ext_equal]
pub struct HelloFields {
    pub session_id: Seq<u8>,
    pub suites: Seq<u16>,
    pub groups: Seq<u16>,
    pub shares: Seq<u16>,
}

impl View for ParsedClientHello {
    type V = HelloFields;

    open spec fn view(&self) -> HelloFields {
        HelloFields {
            session_id: self.legacy_session_id@,
            suites: self.cipher_suites@,
            groups: self.supported_groups@,
            shares: self.key_share_groups@,
        }
    }
}

/// A string behind a one-byte length, and what follows it.
pub open spec fn split8(t: Seq<u8>) -> Option<(Seq<u8>, Seq<u8>)> {
    if t.len() < 1 || t.len() < 1 + t[0] {
        None
    } else {
        Some((t.subrange(1, 1 + t[0]), t.skip(1 + t[0])))
    }
}

/// A string behind a two-byte length, and what follows it.
pub open spec fn split16(t: Seq<u8>) -> Option<(Seq<u8>, Seq<u8>)> {
    if t.len() < 2 || t.len() < 2 + be16_at(t, 0) {
        None
    } else {
        Some((t.subrange(2, 2 + be16_at(t, 0)), t.skip(2 + be16_at(t, 0))))
    }
}

/// The two-byte numbers of a string of even length.
pub open spec fn u16_list(b: Seq<u8>) -> Option<Seq<u16>> {
    if b.len() % 2 != 0 {
        None
    } else {
        Some(Seq::new(b.len() / 2, |i: int| be16_at(b, 2 * i) as u16))
    }
}

/// The groups of a run of key shares, after those in `acc`.
pub open spec fn share_groups(s: Seq<u8>, acc: Seq<u16>) -> Option<Seq<u16>>
    decreases s.len(),
{
    if s.len() == 0 {
        Some(acc)
    } else if s.len() < 2 {
        None
    } else {
        match split16(s.skip(2)) {
            None => None,
            Some((_, rest)) => share_groups(rest, acc.push(be16_at(s, 0) as u16)),
        }
    }
}

/// What one extension does to the groups and shares read so far.
pub open spec fn read_extension(
    ext_type: int,
    data: Seq<u8>,
    groups: Seq<u16>,
    shares: Seq<u16>,
) -> Result<(Seq<u16>, Seq<u16>), HelloFault> {
    if ext_type == EXT_SUPPORTED_GROUPS {
        match split16(data) {
            None => Err(HelloFault::ShortRead),
            Some((list, _)) => match u16_list(list) {
                None => Err(HelloFault::OddList),
                Some(g) => Ok((g, shares)),
            },
        }
    } else if ext_type == EXT_KEY_SHARE {
        match split16(data) {
            None => Err(HelloFault::ShortRead),
            Some((list, _)) => match share_groups(list, shares) {
                None => Err(HelloFault::ShortRead),
                Some(k) => Ok((groups, k)),
            },
        }
    } else {
        Ok((groups, shares))
    }
}

/// The groups and the share groups of an extension block.
pub open spec fn read_extensions(e: Seq<u8>, groups: Seq<u16>, shares: Seq<u16>) -> Result<
    (Seq<u16>, Seq<u16>),
    HelloFault,
>
    decreases e.len(),
{
    if e.len() == 0 {
        Ok((groups, shares))
    } else if e.len() < 2 {
        Err(HelloFault::ShortRead)
    } else {
        match split16(e.skip(2)) {
            None => Err(HelloFault::ShortRead),
            Some((data, rest)) => match read_extension(be16_at(e, 0), data, groups, shares) {
                Err(f) => Err(f),
                Ok((g, k)) => read_extensions(rest, g, k),
            },
        }
    }
}

/// The fields that follow the random.
pub open spec fn read_after_random(t: Seq<u8>) -> Result<HelloFields, HelloFault> {
    match split8(t) {
        None => Err(HelloFault::ShortRead),
        Some((session_id, t1)) => match split16(t1) {
            None => Err(HelloFault::ShortRead),
            Some((list, t2)) => match u16_list(list) {
                None => Err(HelloFault::OddList),
                Some(suites) => match split8(t2) {
                    None => Err(HelloFault::ShortRead),
                    Some((_, t3)) => if t3.len() == 0 {
                        Ok(
                            HelloFields {
                                session_id,
                                suites,
                                groups: Seq::empty(),
                                shares: Seq::empty(),
                            },
                        )
                    } else {
                        match split16(t3) {
                            None => Err(HelloFault::ShortRead),
                            Some((e, _)) => match read_extensions(e, Seq::empty(), Seq::empty()) {
                                Err(f) => Err(f),
                                Ok((groups, shares)) => Ok(
                                    HelloFields { session_id, suites, groups, shares },
                                ),
                            },
                        }
                    },
                },
            },
        },
    }
}

/// The fields of a ClientHello handshake message, or what is wrong with it.
pub open spec fn read_client_hello(msg: Seq<u8>) -> Result<HelloFields, HelloFault> {
    if msg.len() < 1 {
        Err(HelloFault::ShortRead)
    } else if msg[0] != HS_TYPE_CLIENT_HELLO {
        Err(HelloFault::NotClientHello)
    } else if msg.len() < 4 {
        Err(HelloFault::ShortRead)
    } else if msg.len() - 4 != be24_at(msg, 1) {
        Err(HelloFault::LengthMismatch)
    } else if msg.len() < 6 {
        Err(HelloFault::ShortRead)
    } else if be16_at(msg, 4) != TLS_LEGACY_VERSION {
        Err(HelloFault::LegacyVersion)
    } else if msg.len() < 38 {
        Err(HelloFault::ShortRead)
    } else {
        read_after_random(msg.skip(38))
    }
}

fn take8<'a>(t: &'a [u8]) -> (r: Option<(&'a [u8], &'a [u8])>)
    ensures
        match split8(t@) {
            None => r is None,
            Some((a, b)) => r matches Some((x, y)) && x@ == a && y@ == b,
        },
{
    if t.len() < 1 {
        return None;
    }
    let n: usize = t[0] as usize;
    if t.len() < 1 + n {
        return None;
    }
    Some((vstd::slice::slice_subrange(t, 1, 1 + n), vstd::slice::slice_subrange(t, 1 + n, t.len())))
}

fn take16<'a>(t: &'a [u8]) -> (r: Option<(&'a [u8], &'a [u8])>)
    ensures
        match split16(t@) {
            None => r is None,
            Some((a, b)) => r matches Some((x, y)) && x@ == a && y@ == b,
        },
{
    if t.len() < 2 {
        return None;
    }
    let n: usize = read_u16(t, 0) as usize;
    if t.len() < 2 + n {
        return None;
    }
    Some((vstd::slice::slice_subrange(t, 2, 2 + n), vstd::slice::slice_subrange(t, 2 + n, t.len())))
}

fn parse_u16_list(b: &[u8]) -> (r: Option<Vec<u16>>)
    ensures
        match u16_list(b@) {
            None => r is None,
            Some(list) => r matches Some(v) && v@ == list,
        },
{
    if b.len() % 2 != 0 {
        return None;
    }
    let mut v: Vec<u16> = Vec::new();
    let mut i: usize = 0;
    while i < b.len()
        invariant
            i <= b@.len(),
            b@.len() % 2 == 0,
            i == 2 * v@.len(),
            forall|k: int| 0 <= k < v@.len() ==> v@[k] == be16_at(b@, 2 * k) as u16,
        decreases b@.len() - i,
    {
        v.push(read_u16(b, i));
        i += 2;
    }
    assert(v@ =~= Seq::new(b@.len() / 2, |i: int| be16_at(b@, 2 * i) as u16));
    Some(v)
}

fn parse_share_groups(s: &[u8], acc: &mut Vec<u16>) -> (r: bool)
    ensures
        match share_groups(s@, old(acc)@) {
            None => !r,
            Some(k) => r && final(acc)@ == k,
        },
{
    let mut rest: &[u8] = s;
    while rest.len() > 0
        invariant
            share_groups(rest@, acc@) == share_groups(s@, old(acc)@),
        decreases rest@.len(),
    {
        if rest.len() < 2 {
            return false;
        }
        let group: u16 = read_u16(rest, 0);
        let tail: &[u8] = vstd::slice::slice_subrange(rest, 2, rest.len());
        assert(tail@ =~= rest@.skip(2));
        match take16(tail) {
            None => {
                return false;
            },
            Some((_, after)) => {
                acc.push(group);
                rest = after;
            },
        }
    }
    true
}

fn parse_extensions(e: &[u8]) -> (r: Result<(Vec<u16>, Vec<u16>), HelloFault>)
    ensures
        match read_extensions(e@, Seq::empty(), Seq::empty()) {
            Err(f) => r == Err::<(Vec<u16>, Vec<u16>), HelloFault>(f),
            Ok((g, k)) => r matches Ok((x, y)) && x@ == g && y@ == k,
        },
{
    let mut groups: Vec<u16> = Vec::new();
    let mut shares: Vec<u16> = Vec::new();
    let mut rest: &[u8] = e;
    while rest.len() > 0
        invariant
            read_extensions(rest@, groups@, shares@) == read_extensions(
                e@,
                Seq::empty(),
                Seq::empty(),
            ),
        decreases rest@.len(),
    {
        if rest.len() < 2 {
            return Err(HelloFault::ShortRead);
        }
        let ext_type: u16 = read_u16(rest, 0);
        let tail: &[u8] = vstd::slice::slice_subrange(rest, 2, rest.len());
        assert(tail@ =~= rest@.skip(2));
        match take16(tail) {
            None => {
                return Err(HelloFault::ShortRead);
            },
            Some((data, after)) => {
                if ext_type == EXT_SUPPORTED_GROUPS {
                    match take16(data) {
                        None => {
                            return Err(HelloFault::ShortRead);
                        },
                        Some((list, _)) => match parse_u16_list(list) {
                            None => {
                                return Err(HelloFault::OddList);
                            },
                            Some(g) => {
                                groups = g;
                            },
                        },
                    }
                } else if ext_type == EXT_KEY_SHARE {
                    match take16(data) {
                        None => {
                            return Err(HelloFault::ShortRead);
                        },
                        Some((list, _)) => {
                            if !parse_share_groups(list, &mut shares) {
                                return Err(HelloFault::ShortRead);
                            }
                        },
                    }
                }
                rest = after;
            },
        }
    }
    Ok((groups, shares))
}

fn parse_after_random(t: &[u8]) -> (r: Result<ParsedClientHello, HelloFault>)
    ensures
        match read_after_random(t@) {
            Err(f) => r matches Err(g) && g == f,
            Ok(fields) => r matches Ok(p) && p@ == fields,
        },
{
    let (session_id, t1) = match take8(t) {
        None => {
            return Err(HelloFault::ShortRead);
        },
        Some(p) => p,
    };
    let (list, t2) = match take16(t1) {
        None => {
            return Err(HelloFault::ShortRead);
        },
        Some(p) => p,
    };
    let suites: Vec<u16> = match parse_u16_list(list) {
        None => {
            return Err(HelloFault::OddList);
        },
        Some(v) => v,
    };
    let t3: &[u8] = match take8(t2) {
        None => {
            return Err(HelloFault::ShortRead);
        },
        Some((_, rest)) => rest,
    };
    let mut groups: Vec<u16> = Vec::new();
    let mut shares: Vec<u16> = Vec::new();
    if t3.len() > 0 {
        match take16(t3) {
            None => {
                return Err(HelloFault::ShortRead);
            },
            Some((e, _)) => match parse_extensions(e) {
                Err(f) => {
                    return Err(f);
                },
                Ok((g, k)) => {
                    groups = g;
                    shares = k;
                },
            },
        }
    }
    Ok(
        ParsedClientHello {
            legacy_session_id: copy_bytes(session_id),
            cipher_suites: suites,
            supported_groups: groups,
            key_share_groups: shares,
        },
    )
}

/// Parse an untrusted ClientHello handshake message.
pub fn parse_client_hello(msg: &[u8]) -> (r: Result<ParsedClientHello, CoreError>)
    ensures
        match read_client_hello(msg@) {
            Err(f) => r matches Err(e) && e.says(fault_text(f)),
            Ok(fields) => r matches Ok(p) && p@ == fields,
        },
{
    if msg.len() < 1 {
        return Err(fault_error(HelloFault::ShortRead));
    }
    if msg[0] != HS_TYPE_CLIENT_HELLO {
        return Err(fault_error(HelloFault::NotClientHello));
    }
    if msg.len() < 4 {
        return Err(fault_error(HelloFault::ShortRead));
    }
    if msg.len() - 4 != read_u24(msg, 1) as usize {
        return Err(fault_error(HelloFault::LengthMismatch));
    }
    if msg.len() < 6 {
        return Err(fault_error(HelloFault::ShortRead));
    }
    if read_u16(msg, 4) != TLS_LEGACY_VERSION {
        return Err(fault_error(HelloFault::LegacyVersion));
    }
    if msg.len() < 38 {
        return Err(fault_error(HelloFault::ShortRead));
    }
    let rest: &[u8] = vstd::slice::slice_subrange(msg, 38, msg.len());
    assert(rest@ =~= msg@.skip(38));
    match parse_after_random(rest) {
        Err(f) => Err(fault_error(f)),
        Ok(p) => Ok(p),
    }
}

/// Reading a string behind its two-byte length gives the string back, whatever follows.
pub proof fn lemma_split16_vec16(body: Seq<u8>, rest: Seq<u8>)
    requires
        body.len() < 65536,
    ensures
        split16(vec16(body) + rest) == Some((body, rest)),
{
    let t = vec16(body) + rest;
    let n = body.len() as int;
    assert(t[0] == be16(n)[0]);
    assert(t[1] == be16(n)[1]);
    assert(be16_at(t, 0) == n);
    assert(t.subrange(2, 2 + n) =~= body);
    assert(t.skip(2 + n) =~= rest);
}

/// The numbers of a list are read back from its bytes.
pub proof fn lemma_list_read_back(list: Seq<u16>)
    ensures
        list_bytes(list).len() == 2 * list.len(),
        u16_list(list_bytes(list)) == Some(list),
    decreases list.len(),
{
    let b = list_bytes(list);
    if list.len() > 0 {
        let front = list.drop_last();
        lemma_list_read_back(front);
        let fb = list_bytes(front);
        let got = Seq::new(b.len() / 2, |i: int| be16_at(b, 2 * i) as u16);
        assert forall|i: int| 0 <= i < list.len() implies got[i] == list[i] by {
            if i < front.len() {
                assert(b[2 * i] == fb[2 * i]);
                assert(b[2 * i + 1] == fb[2 * i + 1]);
                assert(u16_list(fb)->0[i] == be16_at(fb, 2 * i) as u16);
                assert(front[i] == list[i]);
            } else {
                assert(b[2 * i] == be16(list[i] as int)[0]);
                assert(b[2 * i + 1] == be16(list[i] as int)[1]);
            }
        }
        assert(got =~= list);
    } else {
        assert(u16_list(b)->0 =~= list);
    }
}

/// Reading a block that starts with one whole extension reads that extension, then the
/// rest of the block.
proof fn lemma_read_one_extension(
    ext_type: u16,
    data: Seq<u8>,
    rest: Seq<u8>,
    groups: Seq<u16>,
    shares: Seq<u16>,
)
    requires
        data.len() < 65536,
    ensures
        read_extensions(extension_bytes(ext_type, data) + rest, groups, shares)
            == match read_extension(ext_type as int, data, groups, shares) {
            Err(f) => Err(f),
            Ok((g, k)) => read_extensions(rest, g, k),
        },
{
    let e = extension_bytes(ext_type, data) + rest;
    assert(e[0] == be16(ext_type as int)[0]);
    assert(e[1] == be16(ext_type as int)[1]);
    assert(be16_at(e, 0) == ext_type);
    assert(e.skip(2) =~= vec16(data) + rest);
    lemma_split16_vec16(data, rest);
}

/// Reading one whole key share appends its group.
proof fn lemma_read_one_share(group: u16, key: Seq<u8>, rest: Seq<u8>, acc: Seq<u16>)
    requires
        key.len() < 65536,
    ensures
        share_groups(be16(group as int) + vec16(key) + rest, acc) == share_groups(
            rest,
            acc.push(group),
        ),
{
    let s = be16(group as int) + vec16(key) + rest;
    assert(s[0] == be16(group as int)[0]);
    assert(s[1] == be16(group as int)[1]);
    assert(be16_at(s, 0) == group);
    assert(s.skip(2) =~= vec16(key) + rest);
    lemma_split16_vec16(key, rest);
}

/// The groups that a built ClientHello offers.
pub open spec fn built_groups(d: ClientHelloDraws) -> Seq<u16> {
    seq![d.grease_group] + profile_groups()
}

/// The groups that a built ClientHello sends shares for.
pub open spec fn built_shares(d: ClientHelloDraws) -> Seq<u16> {
    seq![d.grease_key_share, GROUP_X25519_MLKEM768, GROUP_X25519]
}

/// The cipher suites that a built ClientHello offers.
pub open spec fn built_suites(d: ClientHelloDraws) -> Seq<u16> {
    seq![d.grease_cipher] + profile_cipher_suites()
}

proof fn lemma_greased_list(first: u16, list: Seq<u16>)
    ensures
        be16(first as int) + list_bytes(list) == list_bytes(seq![first] + list),
    decreases list.len(),
{
    if list.len() == 0 {
        assert(seq![first] + list =~= seq![first]);
        assert(seq![first].drop_last() =~= Seq::<u16>::empty());
        assert(list_bytes(Seq::<u16>::empty()) =~= Seq::<u8>::empty());
        assert(list_bytes(seq![first]) =~= be16(first as int));
        assert(be16(first as int) + list_bytes(list) =~= list_bytes(seq![first] + list));
    } else {
        lemma_greased_list(first, list.drop_last());
        assert((seq![first] + list).drop_last() =~= seq![first] + list.drop_last());
        assert(be16(first as int) + list_bytes(list) =~= list_bytes(seq![first] + list));
    }
}

/// What each extension of a built ClientHello does to a reader.
proof fn lemma_built_extension(
    sni: Seq<u8>,
    d: ClientHelloDraws,
    i: int,
    groups: Seq<u16>,
    shares: Seq<u16>,
)
    requires
        d.wf(),
        sni.len() <= MAX_SNI_LEN,
        0 <= i < EXTENSION_COUNT,
    ensures
        hello_ext_data(sni, d, i).len() < 65536,
        i == 4 ==> read_extension(
            hello_ext_type(d, i) as int,
            hello_ext_data(sni, d, i),
            groups,
            shares,
        ) == Ok::<(Seq<u16>, Seq<u16>), HelloFault>((built_groups(d), shares)),
        i == 11 ==> read_extension(
            hello_ext_type(d, i) as int,
            hello_ext_data(sni, d, i),
            groups,
            shares,
        ) == Ok::<(Seq<u16>, Seq<u16>), HelloFault>((groups, shares + built_shares(d))),
        i != 4 && i != 11 ==> read_extension(
            hello_ext_type(d, i) as int,
            hello_ext_data(sni, d, i),
            groups,
            shares,
        ) == Ok::<(Seq<u16>, Seq<u16>), HelloFault>((groups, shares)),
{
    lemma_list_read_back(profile_signature_algorithms());
    if i == 4 {
        lemma_greased_list(d.grease_group, profile_groups());
        let list = list_bytes(built_groups(d));
        lemma_list_read_back(built_groups(d));
        lemma_split16_vec16(list, Seq::empty());
        assert(vec16(list) + Seq::<u8>::empty() =~= vec16(list));
    } else if i == 11 {
        let s = key_shares(d);
        let tail2 = be16(GROUP_X25519 as int) + vec16(d.x25519_share@);
        let tail1 = (be16(GROUP_X25519_MLKEM768 as int) + vec16(d.hybrid_share@)) + tail2;
        let a1 = shares.push(d.grease_key_share);
        let a2 = a1.push(GROUP_X25519_MLKEM768);
        let a3 = a2.push(GROUP_X25519);
        assert(s =~= be16(d.grease_key_share as int) + vec16(seq![0u8]) + tail1);
        lemma_read_one_share(d.grease_key_share, seq![0u8], tail1, shares);
        lemma_read_one_share(GROUP_X25519_MLKEM768, d.hybrid_share@, tail2, a1);
        assert(tail2 =~= be16(GROUP_X25519 as int) + vec16(d.x25519_share@) + Seq::<u8>::empty());
        lemma_read_one_share(GROUP_X25519, d.x25519_share@, Seq::empty(), a2);
        assert(share_groups(s, shares) == Some(a3));
        assert(a3 =~= shares + built_shares(d));
        lemma_split16_vec16(s, Seq::empty());
        assert(vec16(s) + Seq::<u8>::empty() =~= vec16(s));
    }
}

/// Whether no number stands twice in `order` and each names an extension.
pub open spec fn distinct_places(order: Seq<usize>) -> bool {
    &&& forall|i: int| 0 <= i < order.len() ==> #[trigger] order[i] < EXTENSION_COUNT
    &&& forall|i: int, j: int|
        0 <= i < order.len() && 0 <= j < order.len() && i != j ==> #[trigger] order[i]
            != #[trigger] order[j]
}

proof fn lemma_first_place(order: Seq<usize>, k: usize)
    requires
        order.len() > 0,
        distinct_places(order),
    ensures
        distinct_places(order.skip(1)),
        order.contains(k) <==> (order[0] == k || order.skip(1).contains(k)),
        order[0] == k ==> !order.skip(1).contains(k),
{
    let tail = order.skip(1);
    assert forall|i: int| 0 <= i < tail.len() implies #[trigger] tail[i] < EXTENSION_COUNT by {
        assert(tail[i] == order[i + 1]);
    }
    assert forall|i: int, j: int|
        0 <= i < tail.len() && 0 <= j < tail.len() && i != j implies #[trigger] tail[i]
        != #[trigger] tail[j] by {
        assert(tail[i] == order[i + 1]);
        assert(tail[j] == order[j + 1]);
    }
    if order.contains(k) && order[0] != k {
        let i = choose|i: int| 0 <= i < order.len() && order[i] == k;
        assert(tail[i - 1] == k);
    }
    if tail.contains(k) {
        let i = choose|i: int| 0 <= i < tail.len() && tail[i] == k;
        assert(order[i + 1] == k);
    }
}

/// The extensions that `order` names, the first one first.
proof fn lemma_extensions_from_front(sni: Seq<u8>, d: ClientHelloDraws, order: Seq<usize>)
    requires
        order.len() > 0,
    ensures
        extensions_in_order(sni, d, order) == hello_extension(sni, d, order[0] as int)
            + extensions_in_order(sni, d, order.skip(1)),
    decreases order.len(),
{
    let first = hello_extension(sni, d, order[0] as int);
    if order.len() == 1 {
        assert(order.drop_last() =~= Seq::<usize>::empty());
        assert(order.skip(1) =~= Seq::<usize>::empty());
        assert(extensions_in_order(sni, d, order) =~= first + extensions_in_order(
            sni,
            d,
            order.skip(1),
        ));
    } else {
        lemma_extensions_from_front(sni, d, order.drop_last());
        assert(order.drop_last().skip(1) =~= order.skip(1).drop_last());
        assert(extensions_in_order(sni, d, order) =~= first + extensions_in_order(
            sni,
            d,
            order.skip(1),
        ));
    }
}

/// The bytes of those of the first `n` extensions that `order` names.
spec fn named_len(sni: Seq<u8>, d: ClientHelloDraws, order: Seq<usize>, n: nat) -> nat
    decreases n,
{
    if n == 0 {
        0
    } else {
        named_len(sni, d, order, (n - 1) as nat) + (if order.contains((n - 1) as usize) {
            hello_extension(sni, d, n - 1).len()
        } else {
            0
        })
    }
}

proof fn lemma_named_from_front(sni: Seq<u8>, d: ClientHelloDraws, order: Seq<usize>, n: nat)
    requires
        order.len() > 0,
        distinct_places(order),
        n <= EXTENSION_COUNT,
    ensures
        named_len(sni, d, order, n) == named_len(sni, d, order.skip(1), n) + (if order[0] < n {
            hello_extension(sni, d, order[0] as int).len()
        } else {
            0
        }),
    decreases n,
{
    if n > 0 {
        lemma_named_from_front(sni, d, order, (n - 1) as nat);
        lemma_first_place(order, (n - 1) as usize);
    }
}

proof fn lemma_named_none(sni: Seq<u8>, d: ClientHelloDraws, n: nat)
    ensures
        named_len(sni, d, Seq::empty(), n) == 0,
    decreases n,
{
    if n > 0 {
        lemma_named_none(sni, d, (n - 1) as nat);
    }
}

/// The named extensions are as long as each of them once.
proof fn lemma_extensions_len(sni: Seq<u8>, d: ClientHelloDraws, order: Seq<usize>)
    requires
        distinct_places(order),
    ensures
        extensions_in_order(sni, d, order).len() == named_len(
            sni,
            d,
            order,
            EXTENSION_COUNT as nat,
        ),
    decreases order.len(),
{
    if order.len() > 0 {
        lemma_extensions_from_front(sni, d, order);
        lemma_first_place(order, 0);
        lemma_extensions_len(sni, d, order.skip(1));
        lemma_named_from_front(sni, d, order, EXTENSION_COUNT as nat);
    } else {
        assert(order =~= Seq::<usize>::empty());
        lemma_named_none(sni, d, EXTENSION_COUNT as nat);
    }
}

/// How long each extension is.
proof fn lemma_extension_len(sni: Seq<u8>, d: ClientHelloDraws)
    requires
        d.wf(),
    ensures
        hello_extension(sni, d, 0).len() == 4,
        hello_extension(sni, d, 1).len() == 9 + sni.len(),
        hello_extension(sni, d, 2).len() == 4,
        hello_extension(sni, d, 3).len() == 5,
        hello_extension(sni, d, 4).len() == 16,
        hello_extension(sni, d, 5).len() == 6,
        hello_extension(sni, d, 6).len() == 4,
        hello_extension(sni, d, 7).len() == 18,
        hello_extension(sni, d, 8).len() == 9,
        hello_extension(sni, d, 9).len() == 22,
        hello_extension(sni, d, 10).len() == 4,
        hello_extension(sni, d, 11).len() == 1267,
        hello_extension(sni, d, 12).len() == 6,
        hello_extension(sni, d, 13).len() == 9,
        hello_extension(sni, d, 14).len() == 7,
        hello_extension(sni, d, 15).len() == 9,
        hello_extension(sni, d, 16).len() == 4,
{
    lemma_list_read_back(profile_signature_algorithms());
    lemma_list_read_back(profile_groups());
}

/// The extensions of a hello take a fixed number of bytes beside the server name. A name of
/// up to `MAX_SNI_LEN` bytes leaves their length within its two-byte field, a longer one
/// does not.
pub proof fn law_extension_block_length(sni: Seq<u8>, d: ClientHelloDraws)
    requires
        d.wf(),
    ensures
        hello_extensions(sni, d).len() == 1403 + sni.len(),
        hello_extensions(sni, d).len() < 65536 <==> sni.len() <= MAX_SNI_LEN,
{
    let order = extension_order(d.picks@);
    law_every_extension_is_sent_once(d.picks@, 0);
    assert forall|k: usize| k < EXTENSION_COUNT implies #[trigger] order.contains(k) by {
        law_every_extension_is_sent_once(d.picks@, k);
    }
    lemma_extensions_len(sni, d, order);
    lemma_extension_len(sni, d);
    reveal_with_fuel(named_len, 18);
    assert(extensions_in_order(sni, d, order).len() == 1403 + sni.len());
}

/// A ClientHello is as long as its server name and 1512 bytes.
pub proof fn law_hello_length(sni: Seq<u8>, d: ClientHelloDraws)
    requires
        d.wf(),
    ensures
        client_hello_message(sni, d).len() == 1512 + sni.len(),
{
    law_extension_block_length(sni, d);
    lemma_list_read_back(profile_cipher_suites());
}

/// Reading the extensions that `order` names gives the offered groups if their extension
/// is among them, and the shares likewise.
proof fn lemma_read_in_order(
    sni: Seq<u8>,
    d: ClientHelloDraws,
    order: Seq<usize>,
    rest: Seq<u8>,
    groups: Seq<u16>,
    shares: Seq<u16>,
)
    requires
        d.wf(),
        sni.len() <= MAX_SNI_LEN,
        distinct_places(order),
    ensures
        read_extensions(extensions_in_order(sni, d, order) + rest, groups, shares)
            == read_extensions(
            rest,
            if order.contains(4) {
                built_groups(d)
            } else {
                groups
            },
            if order.contains(11) {
                shares + built_shares(d)
            } else {
                shares
            },
        ),
    decreases order.len(),
{
    if order.len() == 0 {
        assert(extensions_in_order(sni, d, order) + rest =~= rest);
    } else {
        let i = order[0] as int;
        let tail = extensions_in_order(sni, d, order.skip(1)) + rest;
        lemma_extensions_from_front(sni, d, order);
        lemma_first_place(order, 4);
        lemma_first_place(order, 11);
        lemma_built_extension(sni, d, i, groups, shares);
        assert(extensions_in_order(sni, d, order) + rest =~= extension_bytes(
            hello_ext_type(d, i),
            hello_ext_data(sni, d, i),
        ) + tail);
        lemma_read_one_extension(
            hello_ext_type(d, i),
            hello_ext_data(sni, d, i),
            tail,
            groups,
            shares,
        );
        if i == 4 {
            lemma_read_in_order(sni, d, order.skip(1), rest, built_groups(d), shares);
        } else if i == 11 {
            lemma_read_in_order(sni, d, order.skip(1), rest, groups, shares + built_shares(d));
        } else {
            lemma_read_in_order(sni, d, order.skip(1), rest, groups, shares);
        }
    }
}

/// The shuffle keeps every place: none is lost and none doubled.
proof fn lemma_shuffle_keeps_places(order: Seq<usize>, picks: Seq<u64>, i: int, k: usize)
    requires
        distinct_places(order),
        i < order.len(),
        order.contains(k),
    ensures
        distinct_places(shuffled(order, picks, i)),
        shuffled(order, picks, i).len() == order.len(),
        shuffled(order, picks, i).contains(k),
    decreases i,
{
    if i > 0 {
        let j = picks[order.len() - 1 - i] as int % (i + 1);
        let next = swapped(order, i, j);
        let m = choose|m: int| 0 <= m < order.len() && order[m] == k;
        if m == i {
            assert(next[j] == k);
        } else if m == j {
            assert(next[i] == k);
        } else {
            assert(next[m] == k);
        }
        lemma_shuffle_keeps_places(next, picks, i - 1, k);
    }
}

/// Whatever was drawn, every extension of the profile is sent exactly once.
pub proof fn law_every_extension_is_sent_once(picks: Seq<u64>, k: usize)
    requires
        picks.len() == EXTENSION_COUNT - 1,
        k < EXTENSION_COUNT,
    ensures
        extension_order(picks).len() == EXTENSION_COUNT,
        distinct_places(extension_order(picks)),
        extension_order(picks).contains(k),
{
    let start = Seq::new(EXTENSION_COUNT as nat, |i: int| i as usize);
    assert(start[k as int] == k);
    lemma_shuffle_keeps_places(start, picks, EXTENSION_COUNT - 1, k);
}

/// The extension block of a built ClientHello is read back.
proof fn lemma_built_block(sni: Seq<u8>, d: ClientHelloDraws)
    requires
        d.wf(),
        sni.len() <= MAX_SNI_LEN,
    ensures
        hello_extensions(sni, d).len() < 65536,
        hello_extensions(sni, d).len() > 0,
        read_extensions(hello_extensions(sni, d), Seq::empty(), Seq::empty()) == Ok::<
            (Seq<u16>, Seq<u16>),
            HelloFault,
        >((built_groups(d), built_shares(d))),
{
    let order = extension_order(d.picks@);
    law_every_extension_is_sent_once(d.picks@, 1);
    law_every_extension_is_sent_once(d.picks@, 4);
    law_every_extension_is_sent_once(d.picks@, 11);
    let sent = extensions_in_order(sni, d, order);
    let so_far = (hello_prefix(d).len() + 2 + sent.len()) as int;
    let pad = padding(so_far);
    let none = Seq::<u16>::empty();
    let g = built_groups(d);
    let k = built_shares(d);
    law_extension_block_length(sni, d);
    lemma_read_in_order(sni, d, order, pad, none, none);
    assert(none + k =~= k);
    if 256 <= so_far < 512 {
        let fill = Seq::new((if so_far <= 508 { 508 - so_far } else { 0 }) as nat, |i: int| 0u8);
        assert(pad =~= extension_bytes(EXT_PADDING, fill) + Seq::<u8>::empty());
        lemma_read_one_extension(EXT_PADDING, fill, Seq::empty(), g, k);
        assert(read_extensions(Seq::<u8>::empty(), g, k) == Ok::<
            (Seq<u16>, Seq<u16>),
            HelloFault,
        >((g, k)));
    }
}

/// The fields after the random are read back.
proof fn lemma_after_random(session_id: Seq<u8>, suites: Seq<u16>, exts: Seq<u8>)
    requires
        session_id.len() == 32,
        suites.len() < 1000,
        0 < exts.len() < 65536,
        read_extensions(exts, Seq::empty(), Seq::empty()) is Ok,
    ensures
        ({
            let read = read_extensions(exts, Seq::empty(), Seq::empty())->Ok_0;
            read_after_random(
                seq![32u8] + session_id + vec16(list_bytes(suites)) + (seq![1u8, 0u8] + vec16(exts)),
            ) == Ok::<HelloFields, HelloFault>(
                HelloFields { session_id, suites, groups: read.0, shares: read.1 },
            )
        }),
{
    let suite_bytes = list_bytes(suites);
    lemma_list_read_back(suites);
    let after_suites = seq![1u8, 0u8] + vec16(exts);
    let t = seq![32u8] + session_id + vec16(suite_bytes) + after_suites;
    assert(t[0] == 32);
    assert(t.subrange(1, 33) =~= session_id);
    assert(t.skip(33) =~= vec16(suite_bytes) + after_suites);
    lemma_split16_vec16(suite_bytes, after_suites);
    assert(after_suites.skip(2) =~= vec16(exts) + Seq::<u8>::empty());
    lemma_split16_vec16(exts, Seq::empty());
}

/// A hello message with a well-formed header is read as what follows its random.
proof fn lemma_hello_header(random: Seq<u8>, rest: Seq<u8>)
    requires
        random.len() == 32,
        rest.len() < 1000000,
    ensures
        ({
            let body = be16(TLS_LEGACY_VERSION as int) + random + rest;
            read_client_hello(seq![HS_TYPE_CLIENT_HELLO] + be24(body.len() as int) + body)
                == read_after_random(rest)
        }),
{
    let body = be16(TLS_LEGACY_VERSION as int) + random + rest;
    let n = body.len() as int;
    let msg = seq![HS_TYPE_CLIENT_HELLO] + be24(n) + body;
    crate::wire::lemma_be_round_trip(n);
    assert(msg[1] == be24(n)[0]);
    assert(msg[2] == be24(n)[1]);
    assert(msg[3] == be24(n)[2]);
    assert(msg[4] == be16(0x0303)[0]);
    assert(msg[5] == be16(0x0303)[1]);
    assert(msg.skip(38) =~= rest);
}

/// The fields before the extensions, regrouped around the random.
proof fn lemma_prefix_regrouped(d: ClientHelloDraws, suite_bytes: Seq<u8>, tail: Seq<u8>)
    requires
        suite_bytes == be16(d.grease_cipher as int) + list_bytes(profile_cipher_suites()),
    ensures
        hello_prefix(d) + tail == be16(TLS_LEGACY_VERSION as int) + d.random@ + (seq![32u8]
            + d.session_id@ + vec16(suite_bytes) + (seq![1u8, 0u8] + tail)),
{
    assert(hello_prefix(d) + tail =~= be16(TLS_LEGACY_VERSION as int) + d.random@ + (seq![32u8]
        + d.session_id@ + vec16(suite_bytes) + (seq![1u8, 0u8] + tail)));
}

/// A hello that is cut short is refused: no strict prefix of one that parses parses too.
pub proof fn law_truncated_hello_is_refused(msg: Seq<u8>, k: int)
    requires
        read_client_hello(msg) is Ok,
        0 <= k < msg.len(),
    ensures
        read_client_hello(msg.take(k)) is Err,
{
    let cut = msg.take(k);
    if k >= 4 {
        assert(be24_at(cut, 1) == be24_at(msg, 1));
    }
}

/// The server reads back what the client sent: every ClientHello built for a server name
/// whose extensions fit their two-byte length parses, and the reader sees its session id, its
/// cipher suites, its groups and the groups of its shares. Cut short anywhere, it is refused.
#[verifier::rlimit(60)]
pub proof fn law_built_hello_is_read_back(sni: Seq<u8>, d: ClientHelloDraws)
    requires
        d.wf(),
        sni.len() <= MAX_SNI_LEN,
    ensures
        read_client_hello(client_hello_message(sni, d)) == Ok::<HelloFields, HelloFault>(
            HelloFields {
                session_id: d.session_id@,
                suites: built_suites(d),
                groups: built_groups(d),
                shares: built_shares(d),
            },
        ),
        forall|k: int|
            0 <= k < client_hello_message(sni, d).len() ==> read_client_hello(
                #[trigger] client_hello_message(sni, d).take(k),
            ) is Err,
{
    let exts = hello_extensions(sni, d);
    lemma_built_block(sni, d);
    lemma_greased_list(d.grease_cipher, profile_cipher_suites());
    lemma_list_read_back(built_suites(d));
    lemma_after_random(d.session_id@, built_suites(d), exts);
    let suite_bytes = list_bytes(built_suites(d));
    let rest = seq![32u8] + d.session_id@ + vec16(suite_bytes) + (seq![1u8, 0u8] + vec16(exts));
    lemma_prefix_regrouped(d, suite_bytes, vec16(exts));
    lemma_hello_header(d.random@, rest);
    assert(rest.len() < 1000000);
    let msg = client_hello_message(sni, d);
    assert(read_client_hello(msg) == read_after_random(rest));
    assert forall|k: int| 0 <= k < msg.len() implies read_client_hello(
        #[trigger] msg.take(k),
    ) is Err by {
        law_truncated_hello_is_refused(msg, k);
    }
}

/// Whether `c` is a TLS 1.3 cipher suite.
pub open spec fn tls13_suite(c: u16) -> bool {
    0x1301 <= c <= 0x1303
}

/// The first element of `s` for which `p` holds.
pub open spec fn first_such(s: Seq<u16>, p: spec_fn(u16) -> bool) -> Option<u16>
    decreases s.len(),
{
    if s.len() == 0 {
        None
    } else if p(s[0]) {
        Some(s[0])
    } else {
        first_such(s.skip(1), p)
    }
}

/// The cipher suite that answers an offer: the first TLS 1.3 suite, else the first that
/// is no GREASE codepoint.
pub open spec fn selected_cipher(suites: Seq<u16>) -> Option<u16> {
    match first_such(suites, |c: u16| tls13_suite(c)) {
        Some(c) => Some(c),
        None => first_such(suites, |c: u16| !grease(c)),
    }
}

/// Whether `g` can be answered with a key share.
pub open spec fn usable_group(fields: HelloFields, g: u16) -> bool {
    !grease(g) && fields.groups.contains(g) && fields.shares.contains(g)
}

/// The group that answers an offer: x25519 where it can be used, else the first share
/// that can.
pub open spec fn selected_group(fields: HelloFields) -> Option<u16> {
    if usable_group(fields, GROUP_X25519) {
        Some(GROUP_X25519)
    } else {
        first_such(fields.shares, |g: u16| usable_group(fields, g))
    }
}

proof fn lemma_first_such(s: Seq<u16>, p: spec_fn(u16) -> bool)
    ensures
        match first_such(s, p) {
            Some(c) => s.contains(c) && p(c),
            None => forall|i: int| 0 <= i < s.len() ==> !p(#[trigger] s[i]),
        },
    decreases s.len(),
{
    if s.len() > 0 && !p(s[0]) {
        lemma_first_such(s.skip(1), p);
        match first_such(s.skip(1), p) {
            Some(c) => {
                let i = choose|i: int| 0 <= i < s.skip(1).len() && s.skip(1)[i] == c;
                assert(s[i + 1] == c);
            },
            None => {
                assert forall|i: int| 0 <= i < s.len() implies !p(#[trigger] s[i]) by {
                    if i > 0 {
                        assert(s.skip(1)[i - 1] == s[i]);
                    }
                }
            },
        }
    } else if s.len() > 0 {
        assert(s[0] == s[0]);
    }
}

/// What is selected was offered: the cipher suite stands in the offer and is no GREASE
/// codepoint, and the group is supported, comes with a share and is no GREASE codepoint.
pub proof fn law_selection_was_offered(fields: HelloFields)
    ensures
        selected_cipher(fields.suites) matches Some(c) ==> fields.suites.contains(c) && !grease(c),
        selected_group(fields) matches Some(g) ==> fields.groups.contains(g)
            && fields.shares.contains(g) && !grease(g),
        selected_cipher(fields.suites) is None <==> forall|i: int|
            0 <= i < fields.suites.len() ==> grease(#[trigger] fields.suites[i]),
        selected_group(fields) is None <==> forall|g: u16| !usable_group(fields, g),
{
    lemma_first_such(fields.suites, |c: u16| tls13_suite(c));
    lemma_first_such(fields.suites, |c: u16| !grease(c));
    lemma_first_such(fields.shares, |g: u16| usable_group(fields, g));
    let q = |g: u16| usable_group(fields, g);
    if selected_cipher(fields.suites) is None {
        assert forall|i: int| 0 <= i < fields.suites.len() implies grease(
            #[trigger] fields.suites[i],
        ) by {
            let p = |c: u16| !grease(c);
            assert(!p(fields.suites[i]));
        }
    }
    if selected_group(fields) is None {
        assert forall|g: u16| !usable_group(fields, g) by {
            if fields.shares.contains(g) {
                let i = choose|i: int| 0 <= i < fields.shares.len() && fields.shares[i] == g;
                assert(!q(fields.shares[i]));
            }
        }
    }
}

fn contains(list: &Vec<u16>, x: u16) -> (b: bool)
    ensures
        b == list@.contains(x),
{
    let mut i: usize = 0;
    while i < list.len()
        invariant
            i <= list@.len(),
            forall|k: int| 0 <= k < i ==> list@[k] != x,
        decreases list@.len() - i,
    {
        if list[i] == x {
            assert(list@[i as int] == x);
            return true;
        }
        i += 1;
    }
    false
}

fn first_cipher(suites: &Vec<u16>, tls13_only: bool) -> (r: Option<u16>)
    ensures
        tls13_only ==> r == first_such(suites@, |c: u16| tls13_suite(c)),
        !tls13_only ==> r == first_such(suites@, |c: u16| !grease(c)),
{
    let mut i: usize = 0;
    assert(suites@.skip(0) =~= suites@);
    while i < suites.len()
        invariant
            i <= suites@.len(),
            tls13_only ==> first_such(suites@.skip(i as int), |c: u16| tls13_suite(c))
                == first_such(suites@, |c: u16| tls13_suite(c)),
            !tls13_only ==> first_such(suites@.skip(i as int), |c: u16| !grease(c)) == first_such(
                suites@,
                |c: u16| !grease(c),
            ),
        decreases suites@.len() - i,
    {
        let c: u16 = suites[i];
        let fits: bool = if tls13_only {
            c >= 0x1301 && c <= 0x1303
        } else {
            !is_grease(c)
        };
        assert(suites@.skip(i as int)[0] == c);
        if fits {
            return Some(c);
        }
        assert(suites@.skip(i as int).skip(1) =~= suites@.skip(i + 1));
        i += 1;
    }
    None
}

fn choose_cipher(suites: &Vec<u16>) -> (r: Option<u16>)
    ensures
        r == selected_cipher(suites@),
{
    match first_cipher(suites, true) {
        Some(c) => Some(c),
        None => first_cipher(suites, false),
    }
}

fn usable(client: &ParsedClientHello, g: u16) -> (b: bool)
    ensures
        b == usable_group(client@, g),
{
    !is_grease(g) && contains(&client.supported_groups, g) && contains(&client.key_share_groups, g)
}

fn choose_group(client: &ParsedClientHello) -> (r: Option<u16>)
    ensures
        r == selected_group(client@),
{
    if usable(client, GROUP_X25519) {
        return Some(GROUP_X25519);
    }
    let ghost q = |g: u16| usable_group(client@, g);
    let mut i: usize = 0;
    assert(client@.shares.skip(0) =~= client@.shares);
    while i < client.key_share_groups.len()
        invariant
            i <= client@.shares.len(),
            q == (|g: u16| usable_group(client@, g)),
            !usable_group(client@, GROUP_X25519),
            first_such(client@.shares.skip(i as int), q) == first_such(client@.shares, q),
        decreases client@.shares.len() - i,
    {
        let g: u16 = client.key_share_groups[i];
        assert(client@.shares.skip(i as int)[0] == g);
        if usable(client, g) {
            return Some(g);
        }
        assert(client@.shares.skip(i as int).skip(1) =~= client@.shares.skip(i + 1));
        i += 1;
    }
    None
}

/// The ServerHello handshake message.
pub open spec fn server_hello_message(
    session_id: Seq<u8>,
    cipher: u16,
    group: u16,
    random: Seq<u8>,
    share: Seq<u8>,
) -> Seq<u8> {
    let exts = extension_bytes(EXT_SUPPORTED_VERSIONS, be16(0x0304)) + extension_bytes(
        EXT_KEY_SHARE,
        be16(group as int) + vec16(share),
    );
    let body = be16(TLS_LEGACY_VERSION as int) + random + seq![(session_id.len() % 256) as u8]
        + session_id + be16(cipher as int) + seq![0u8] + vec16(exts);
    seq![HS_TYPE_SERVER_HELLO] + be24(body.len() as int) + body
}

/// The cipher suite and the group that answer `client`.
pub fn select(client: &ParsedClientHello) -> (r: Result<(u16, u16), CoreError>)
    ensures
        match (selected_cipher(client@.suites), selected_group(client@)) {
            (None, _) => r matches Err(e) && e.says(fault_text(HelloFault::NoCipher)),
            (Some(_), None) => r matches Err(e) && e.says(fault_text(HelloFault::NoGroup)),
            (Some(c), Some(g)) => r == Ok::<(u16, u16), CoreError>((c, g)),
        },
{
    match choose_cipher(&client.cipher_suites) {
        None => Err(fault_error(HelloFault::NoCipher)),
        Some(c) => match choose_group(client) {
            None => Err(fault_error(HelloFault::NoGroup)),
            Some(g) => Ok((c, g)),
        },
    }
}

/// Build the ServerHello that answers `client` with the random and the key share that
/// were drawn for it.
pub fn build_server_hello_from(
    client: &ParsedClientHello,
    random: &[u8; 32],
    share: &[u8],
) -> (r: Result<Vec<u8>, CoreError>)
    ensures
        match (selected_cipher(client@.suites), selected_group(client@)) {
            (None, _) => r matches Err(e) && e.says(fault_text(HelloFault::NoCipher)),
            (Some(_), None) => r matches Err(e) && e.says(fault_text(HelloFault::NoGroup)),
            (Some(c), Some(g)) => r matches Ok(msg) && msg@ == server_hello_message(
                client@.session_id,
                c,
                g,
                random@,
                share@,
            ),
        },
{
    let (cipher, group) = match select(client) {
        Err(e) => {
            return Err(e);
        },
        Ok(p) => p,
    };
    let mut versions: Vec<u8> = Vec::new();
    push_u16(&mut versions, 0x0304);
    assert(versions@ =~= be16(0x0304));
    let mut entry: Vec<u8> = Vec::new();
    push_u16(&mut entry, group);
    push_u16_vec(&mut entry, share);
    assert(entry@ =~= be16(group as int) + vec16(share@));
    let mut exts: Vec<u8> = super::client_hello::extension(
        EXT_SUPPORTED_VERSIONS,
        versions.as_slice(),
    );
    let key_share: Vec<u8> = super::client_hello::extension(EXT_KEY_SHARE, entry.as_slice());
    append(&mut exts, key_share.as_slice());
    let mut body: Vec<u8> = Vec::new();
    push_u16(&mut body, TLS_LEGACY_VERSION);
    append(&mut body, random.as_slice());
    body.push((client.legacy_session_id.len() % 256) as u8);
    append(&mut body, client.legacy_session_id.as_slice());
    push_u16(&mut body, cipher);
    body.push(0);
    push_u16_vec(&mut body, exts.as_slice());
    let mut msg: Vec<u8> = Vec::new();
    msg.push(HS_TYPE_SERVER_HELLO);
    push_len24(&mut msg, body.len());
    append(&mut msg, body.as_slice());
    proof {
        let s = client@.session_id;
        assert(body@ =~= be16(TLS_LEGACY_VERSION as int) + random@ + seq![(s.len() % 256) as u8] + s
            + be16(cipher as int) + seq![0u8] + vec16(exts@));
        assert(msg@ =~= server_hello_message(s, cipher, group, random@, share@));
    }
    Ok(msg)
}

/// Draw a ServerHello random that signals neither a retry nor a downgrade.
pub fn fresh_server_random() -> (r: Result<[u8; 32], CoreError>)
    ensures
        r matches Ok(bytes) ==> plain_random(bytes@),
        r matches Err(e) ==> e is RngError,
{
    let mut attempts: u64 = u64::MAX;
    while attempts > 0
        decreases attempts,
    {
        match random_array::<32>() {
            Err(_) => {
                return Err(CoreError::RngError);
            },
            Ok(bytes) => {
                if is_plain_random(&bytes) {
                    return Ok(bytes);
                }
            },
        }
        attempts -= 1;
    }
    Err(CoreError::RngError)
}

/// Build the ServerHello that answers `client` with fresh randomness.
pub fn build_server_hello(client: &ParsedClientHello) -> (r: Result<Vec<u8>, CoreError>)
    ensures
        match (selected_cipher(client@.suites), selected_group(client@)) {
            (None, _) => r matches Err(e) && e.says(fault_text(HelloFault::NoCipher)),
            (Some(_), None) => r matches Err(e) && e.says(fault_text(HelloFault::NoGroup)),
            (Some(c), Some(g)) => match r {
                Err(e) => e is RngError,
                Ok(msg) => exists|random: Seq<u8>, share: Seq<u8>|
                    plain_random(random) && random.len() == 32 && share.len() == key_exchange_len(g)
                        && msg@ == #[trigger] server_hello_message(
                        client@.session_id,
                        c,
                        g,
                        random,
                        share,
                    ),
            },
        },
{
    let (_, group) = match select(client) {
        Err(e) => {
            return Err(e);
        },
        Ok(p) => p,
    };
    let random: [u8; 32] = match fresh_server_random() {
        Err(e) => {
            return Err(e);
        },
        Ok(b) => b,
    };
    let share: Vec<u8> = match os_random(group_key_exchange_len(group)) {
        Err(_) => {
            return Err(CoreError::RngError);
        },
        Ok(b) => b,
    };
    build_server_hello_from(client, &random, share.as_slice())
}

/// The extensions of a block as a reader finds them: the type and the data of each, in order.
pub open spec fn extension_list(e: Seq<u8>) -> Option<Seq<(int, Seq<u8>)>>
    decreases e.len(),
{
    if e.len() == 0 {
        Some(Seq::empty())
    } else if e.len() < 2 {
        None
    } else {
        match split16(e.skip(2)) {
            None => None,
            Some((data, rest)) => match extension_list(rest) {
                None => None,
                Some(l) => Some(seq![(be16_at(e, 0), data)] + l),
            },
        }
    }
}

/// Whether one extension of the list has this type, and it has this data.
pub open spec fn only_one(l: Seq<(int, Seq<u8>)>, ext_type: int, data: Seq<u8>) -> bool {
    &&& exists|i: int| 0 <= i < l.len() && #[trigger] l[i] == (ext_type, data)
    &&& forall|i: int, j: int|
        0 <= i < l.len() && 0 <= j < l.len() && (#[trigger] l[i]).0 == ext_type && (
        #[trigger] l[j]).0 == ext_type ==> i == j
}

/// A reader of extensions finds the one in front, and then those behind it.
pub proof fn lemma_extension_listed(ext_type: u16, data: Seq<u8>, rest: Seq<u8>)
    requires
        data.len() < 65536,
    ensures
        extension_list(extension_bytes(ext_type, data) + rest) == (match extension_list(rest) {
            None => None,
            Some(l) => Some(seq![(ext_type as int, data)] + l),
        }),
{
    let e = extension_bytes(ext_type, data) + rest;
    assert(e[0] == be16(ext_type as int)[0]);
    assert(e[1] == be16(ext_type as int)[1]);
    assert(be16_at(e, 0) == ext_type);
    assert(e.skip(2) =~= vec16(data) + rest);
    lemma_split16_vec16(data, rest);
}

spec fn listed(sni: Seq<u8>, d: ClientHelloDraws, order: Seq<usize>) -> Seq<(int, Seq<u8>)> {
    Seq::new(
        order.len(),
        |i: int| (hello_ext_type(d, order[i] as int) as int, hello_ext_data(sni, d, order[i] as int)),
    )
}

proof fn lemma_listed(sni: Seq<u8>, d: ClientHelloDraws, order: Seq<usize>)
    requires
        d.wf(),
        sni.len() <= MAX_SNI_LEN,
        distinct_places(order),
    ensures
        extension_list(extensions_in_order(sni, d, order)) == Some(listed(sni, d, order)),
    decreases order.len(),
{
    if order.len() == 0 {
        assert(listed(sni, d, order) =~= Seq::<(int, Seq<u8>)>::empty());
    } else {
        let i = order[0] as int;
        let tail = order.skip(1);
        lemma_extensions_from_front(sni, d, order);
        lemma_first_place(order, 0);
        lemma_listed(sni, d, tail);
        lemma_built_extension(sni, d, i, Seq::empty(), Seq::empty());
        lemma_extension_listed(
            hello_ext_type(d, i),
            hello_ext_data(sni, d, i),
            extensions_in_order(sni, d, tail),
        );
        assert(seq![(hello_ext_type(d, i) as int, hello_ext_data(sni, d, i))] + listed(sni, d, tail)
            =~= listed(sni, d, order));
    }
}

proof fn lemma_only_one(sni: Seq<u8>, d: ClientHelloDraws, order: Seq<usize>, k: usize, t: int)
    requires
        d.wf(),
        distinct_places(order),
        order.contains(k),
        1 <= k <= 15,
        t == hello_ext_type(d, k as int),
        forall|p: int|
            0 <= p < EXTENSION_COUNT && p != k ==> #[trigger] hello_ext_type(d, p) != t,
    ensures
        only_one(listed(sni, d, order), t, hello_ext_data(sni, d, k as int)),
{
    let l = listed(sni, d, order);
    let m = choose|m: int| 0 <= m < order.len() && order[m] == k;
    assert(l[m] == (t, hello_ext_data(sni, d, k as int)));
    assert forall|i: int, j: int|
        0 <= i < l.len() && 0 <= j < l.len() && (#[trigger] l[i]).0 == t && (#[trigger] l[j]).0
            == t implies i == j by {
        assert(order[i] < EXTENSION_COUNT && order[j] < EXTENSION_COUNT);
        assert(hello_ext_type(d, order[i] as int) == t);
        assert(hello_ext_type(d, order[j] as int) == t);
        assert(order[i] == k && order[j] == k);
    }
}

/// The extensions that an observer reads in any ClientHello for a name that fits: seventeen, each
/// of the browser's once and two GREASE ones. The versions offered are a GREASE one and TLS 1.3,
/// the name is the server's, the protocols are `h2` and `http/1.1`, and groups, signature
/// algorithms and key shares are those of the profile, GREASE first.
#[verifier::rlimit(60)]
pub proof fn law_hello_extensions_are_the_browsers(sni: Seq<u8>, d: ClientHelloDraws)
    requires
        d.wf(),
        sni.len() <= MAX_SNI_LEN,
    ensures
        ({
            let l = extension_list(hello_extensions(sni, d));
            &&& l is Some
            &&& l->0.len() == 17
            &&& only_one(l->0, 0x0000, vec16(seq![0u8] + vec16(sni)))
            &&& only_one(l->0, 0x0017, Seq::<u8>::empty())
            &&& only_one(l->0, 0xff01, seq![0u8])
            &&& only_one(
                l->0,
                0x000a,
                be16(10) + be16(d.grease_group as int) + be16(0x11ec) + be16(0x001d) + be16(0x0017)
                    + be16(0x0018),
            )
            &&& only_one(l->0, 0x000b, seq![1u8, 0u8])
            &&& only_one(l->0, 0x0023, Seq::<u8>::empty())
            &&& only_one(
                l->0,
                0x0010,
                be16(12) + seq![2u8, 0x68u8, 0x32u8] + seq![
                    8u8, 0x68u8, 0x74u8, 0x74u8, 0x70u8, 0x2fu8, 0x31u8, 0x2eu8, 0x31u8,
                ],
            )
            &&& only_one(l->0, 0x0005, seq![1u8, 0u8, 0u8, 0u8, 0u8])
            &&& only_one(
                l->0,
                0x000d,
                be16(16) + be16(0x0403) + be16(0x0804) + be16(0x0401) + be16(0x0503) + be16(0x0805)
                    + be16(0x0501) + be16(0x0806) + be16(0x0601),
            )
            &&& only_one(l->0, 0x0012, Seq::<u8>::empty())
            &&& only_one(
                l->0,
                0x0033,
                be16(1261) + be16(d.grease_key_share as int) + be16(1) + seq![0u8] + be16(0x11ec)
                    + be16(1216) + d.hybrid_share@ + be16(0x001d) + be16(32) + d.x25519_share@,
            )
            &&& only_one(l->0, 0x002d, seq![1u8, 1u8])
            &&& only_one(
                l->0,
                0x002b,
                seq![4u8] + be16(d.grease_version as int) + be16(0x0304),
            )
            &&& only_one(l->0, 0x001b, seq![2u8, 0u8, 2u8])
            &&& only_one(l->0, 0x4469, be16(3) + seq![2u8, 0x68u8, 0x32u8])
        }),
{
    let order = extension_order(d.picks@);
    law_every_extension_is_sent_once(d.picks@, 0);
    law_extension_block_length(sni, d);
    let sent = extensions_in_order(sni, d, order);
    assert(hello_extensions(sni, d) =~= sent);
    lemma_listed(sni, d, order);
    lemma_profile_data(sni, d);
    lemma_ext_types(d);
    law_every_extension_is_sent_once(d.picks@, 1);
    lemma_only_one(sni, d, order, 1, 0x0000);
    law_every_extension_is_sent_once(d.picks@, 2);
    lemma_only_one(sni, d, order, 2, 0x0017);
    law_every_extension_is_sent_once(d.picks@, 3);
    lemma_only_one(sni, d, order, 3, 0xff01);
    law_every_extension_is_sent_once(d.picks@, 4);
    lemma_only_one(sni, d, order, 4, 0x000a);
    law_every_extension_is_sent_once(d.picks@, 5);
    lemma_only_one(sni, d, order, 5, 0x000b);
    law_every_extension_is_sent_once(d.picks@, 6);
    lemma_only_one(sni, d, order, 6, 0x0023);
    law_every_extension_is_sent_once(d.picks@, 7);
    lemma_only_one(sni, d, order, 7, 0x0010);
    law_every_extension_is_sent_once(d.picks@, 8);
    lemma_only_one(sni, d, order, 8, 0x0005);
    law_every_extension_is_sent_once(d.picks@, 9);
    lemma_only_one(sni, d, order, 9, 0x000d);
    law_every_extension_is_sent_once(d.picks@, 10);
    lemma_only_one(sni, d, order, 10, 0x0012);
    law_every_extension_is_sent_once(d.picks@, 11);
    lemma_only_one(sni, d, order, 11, 0x0033);
    law_every_extension_is_sent_once(d.picks@, 12);
    lemma_only_one(sni, d, order, 12, 0x002d);
    law_every_extension_is_sent_once(d.picks@, 13);
    lemma_only_one(sni, d, order, 13, 0x002b);
    law_every_extension_is_sent_once(d.picks@, 14);
    lemma_only_one(sni, d, order, 14, 0x001b);
    law_every_extension_is_sent_once(d.picks@, 15);
    lemma_only_one(sni, d, order, 15, 0x4469);
}

proof fn lemma_ext_types(d: ClientHelloDraws)
    requires
        d.wf(),
    ensures
        hello_ext_type(d, 1) == 0x0000,
        forall|p: int| 0 <= p < 17 && p != 1 ==> #[trigger] hello_ext_type(d, p) != 0x0000,
        hello_ext_type(d, 2) == 0x0017,
        forall|p: int| 0 <= p < 17 && p != 2 ==> #[trigger] hello_ext_type(d, p) != 0x0017,
        hello_ext_type(d, 3) == 0xff01,
        forall|p: int| 0 <= p < 17 && p != 3 ==> #[trigger] hello_ext_type(d, p) != 0xff01,
        hello_ext_type(d, 4) == 0x000a,
        forall|p: int| 0 <= p < 17 && p != 4 ==> #[trigger] hello_ext_type(d, p) != 0x000a,
        hello_ext_type(d, 5) == 0x000b,
        forall|p: int| 0 <= p < 17 && p != 5 ==> #[trigger] hello_ext_type(d, p) != 0x000b,
        hello_ext_type(d, 6) == 0x0023,
        forall|p: int| 0 <= p < 17 && p != 6 ==> #[trigger] hello_ext_type(d, p) != 0x0023,
        hello_ext_type(d, 7) == 0x0010,
        forall|p: int| 0 <= p < 17 && p != 7 ==> #[trigger] hello_ext_type(d, p) != 0x0010,
        hello_ext_type(d, 8) == 0x0005,
        forall|p: int| 0 <= p < 17 && p != 8 ==> #[trigger] hello_ext_type(d, p) != 0x0005,
        hello_ext_type(d, 9) == 0x000d,
        forall|p: int| 0 <= p < 17 && p != 9 ==> #[trigger] hello_ext_type(d, p) != 0x000d,
        hello_ext_type(d, 10) == 0x0012,
        forall|p: int| 0 <= p < 17 && p != 10 ==> #[trigger] hello_ext_type(d, p) != 0x0012,
        hello_ext_type(d, 11) == 0x0033,
        forall|p: int| 0 <= p < 17 && p != 11 ==> #[trigger] hello_ext_type(d, p) != 0x0033,
        hello_ext_type(d, 12) == 0x002d,
        forall|p: int| 0 <= p < 17 && p != 12 ==> #[trigger] hello_ext_type(d, p) != 0x002d,
        hello_ext_type(d, 13) == 0x002b,
        forall|p: int| 0 <= p < 17 && p != 13 ==> #[trigger] hello_ext_type(d, p) != 0x002b,
        hello_ext_type(d, 14) == 0x001b,
        forall|p: int| 0 <= p < 17 && p != 14 ==> #[trigger] hello_ext_type(d, p) != 0x001b,
        hello_ext_type(d, 15) == 0x4469,
        forall|p: int| 0 <= p < 17 && p != 15 ==> #[trigger] hello_ext_type(d, p) != 0x4469,
{
}

proof fn lemma_profile_data(sni: Seq<u8>, d: ClientHelloDraws)
    requires
        d.wf(),
    ensures
        hello_ext_data(sni, d, 4) == be16(10) + be16(d.grease_group as int) + be16(0x11ec) + be16(
            0x001d,
        ) + be16(0x0017) + be16(0x0018),
        hello_ext_data(sni, d, 7) == be16(12) + seq![2u8, 0x68u8, 0x32u8] + seq![
            8u8, 0x68u8, 0x74u8, 0x74u8, 0x70u8, 0x2fu8, 0x31u8, 0x2eu8, 0x31u8,
        ],
        hello_ext_data(sni, d, 9) == be16(16) + be16(0x0403) + be16(0x0804) + be16(0x0401) + be16(
            0x0503,
        ) + be16(0x0805) + be16(0x0501) + be16(0x0806) + be16(0x0601),
        hello_ext_data(sni, d, 11) == be16(1261) + be16(d.grease_key_share as int) + be16(1)
            + seq![0u8] + be16(0x11ec) + be16(1216) + d.hybrid_share@ + be16(0x001d) + be16(32)
            + d.x25519_share@,
        hello_ext_data(sni, d, 15) == be16(3) + seq![2u8, 0x68u8, 0x32u8],
{
    let g0 = Seq::<u16>::empty();
    let g1 = g0.push(0x11ec);
    lemma_list_grows(g0, 0x11ec);
    let g2 = g1.push(0x001d);
    lemma_list_grows(g1, 0x001d);
    let g3 = g2.push(0x0017);
    lemma_list_grows(g2, 0x0017);
    let g4 = g3.push(0x0018);
    lemma_list_grows(g3, 0x0018);
    assert(profile_groups() =~= g4);
    let a0 = Seq::<u16>::empty();
    let a1 = a0.push(0x0403);
    lemma_list_grows(a0, 0x0403);
    let a2 = a1.push(0x0804);
    lemma_list_grows(a1, 0x0804);
    let a3 = a2.push(0x0401);
    lemma_list_grows(a2, 0x0401);
    let a4 = a3.push(0x0503);
    lemma_list_grows(a3, 0x0503);
    let a5 = a4.push(0x0805);
    lemma_list_grows(a4, 0x0805);
    let a6 = a5.push(0x0501);
    lemma_list_grows(a5, 0x0501);
    let a7 = a6.push(0x0806);
    lemma_list_grows(a6, 0x0806);
    let a8 = a7.push(0x0601);
    lemma_list_grows(a7, 0x0601);
    assert(profile_signature_algorithms() =~= a8);
    assert(hello_ext_data(sni, d, 4) =~= be16(10) + be16(d.grease_group as int) + be16(0x11ec)
        + be16(0x001d) + be16(0x0017) + be16(0x0018));
    assert(hello_ext_data(sni, d, 7) =~= be16(12) + seq![2u8, 0x68u8, 0x32u8] + seq![
        8u8, 0x68u8, 0x74u8, 0x74u8, 0x70u8, 0x2fu8, 0x31u8, 0x2eu8, 0x31u8,
    ]);
    assert(hello_ext_data(sni, d, 9) =~= be16(16) + be16(0x0403) + be16(0x0804) + be16(0x0401)
        + be16(0x0503) + be16(0x0805) + be16(0x0501) + be16(0x0806) + be16(0x0601));
    assert(hello_ext_data(sni, d, 11) =~= be16(1261) + be16(d.grease_key_share as int) + be16(1)
        + seq![0u8] + be16(0x11ec) + be16(1216) + d.hybrid_share@ + be16(0x001d) + be16(32)
        + d.x25519_share@);
    assert(hello_ext_data(sni, d, 15) =~= be16(3) + seq![2u8, 0x68u8, 0x32u8]);
}

/// The bytes of a list grow by two with each number.
pub proof fn lemma_list_grows(list: Seq<u16>, next: u16)
    ensures
        list_bytes(list.push(next)) == list_bytes(list) + be16(next as int),
        list_bytes(Seq::<u16>::empty()) == Seq::<u8>::empty(),
{
    assert(list.push(next).drop_last() =~= list);
}

/// The front of any ClientHello, in numbers: the type and length of the message, the legacy
/// version and the random.
pub proof fn law_hello_front(sni: Seq<u8>, d: ClientHelloDraws)
    requires
        d.wf(),
        sni.len() <= MAX_SNI_LEN,
    ensures
        ({
            let msg = client_hello_message(sni, d);
            &&& msg[0] == 1
            &&& be24_at(msg, 1) == msg.len() - 4
            &&& be16_at(msg, 4) == 0x0303
            &&& msg.subrange(6, 38) == d.random@
        }),
{
    let suite_bytes = be16(d.grease_cipher as int) + list_bytes(profile_cipher_suites());
    let exts = vec16(hello_extensions(sni, d));
    let rest = seq![32u8] + d.session_id@ + vec16(suite_bytes) + (seq![1u8, 0u8] + exts);
    lemma_prefix_regrouped(d, suite_bytes, exts);
    law_hello_length(sni, d);
    lemma_hello_front(1, d.random@, rest);
}

spec fn fields_built(d: ClientHelloDraws) -> HelloFields {
    HelloFields {
        session_id: d.session_id@,
        suites: built_suites(d),
        groups: built_groups(d),
        shares: built_shares(d),
    }
}

/// The fields that a reader finds in any ClientHello for a name that fits, in numbers: the session
/// id of 32 bytes, a GREASE suite and the fifteen suites of the browser, and the groups and
/// shares, GREASE first.
#[verifier::rlimit(80)]
pub proof fn law_hello_fields_are_the_browsers(sni: Seq<u8>, d: ClientHelloDraws)
    requires
        d.wf(),
        sni.len() <= MAX_SNI_LEN,
    ensures
        read_client_hello(client_hello_message(sni, d)) == Ok::<HelloFields, HelloFault>(
            HelloFields {
                session_id: d.session_id@,
                suites: seq![
                    d.grease_cipher, 0x1301, 0x1302, 0x1303, 0xc02b, 0xc02f, 0xc02c, 0xc030, 0xcca9,
                    0xcca8, 0xc013, 0xc014, 0x009c, 0x009d, 0x002f, 0x0035,
                ],
                groups: seq![d.grease_group, 0x11ec, 0x001d, 0x0017, 0x0018],
                shares: seq![d.grease_key_share, 0x11ec, 0x001d],
            },
        ),
        d.session_id@.len() == 32,
{
    lemma_field_lists(d);
    let built = fields_built(d);
    law_built_hello_is_read_back(sni, d);
    assert(read_client_hello(client_hello_message(sni, d)) == Ok::<HelloFields, HelloFault>(built));
}

proof fn lemma_hello_front(message_type: u8, random: Seq<u8>, rest: Seq<u8>)
    requires
        random.len() == 32,
        rest.len() < 1_000_000,
    ensures
        ({
            let body = be16(0x0303) + random + rest;
            let msg = seq![message_type] + be24(body.len() as int) + body;
            &&& msg.len() == 38 + rest.len()
            &&& msg[0] == message_type
            &&& be24_at(msg, 1) == msg.len() - 4
            &&& be16_at(msg, 4) == 0x0303
            &&& msg.subrange(6, 38) == random
            &&& msg.skip(38) == rest
        }),
{
    let body = be16(0x0303) + random + rest;
    let n = body.len() as int;
    let msg = seq![message_type] + be24(n) + body;
    crate::wire::lemma_be_round_trip(n);
    assert(msg[1] == be24(n)[0] && msg[2] == be24(n)[1] && msg[3] == be24(n)[2]);
    assert(msg[4] == be16(0x0303)[0] && msg[5] == be16(0x0303)[1]);
    assert(msg.subrange(6, 38) =~= random);
    assert(msg.skip(38) =~= rest);
}

proof fn lemma_field_lists(d: ClientHelloDraws)
    ensures
        built_suites(d) == seq![
            d.grease_cipher, 0x1301, 0x1302, 0x1303, 0xc02b, 0xc02f, 0xc02c, 0xc030, 0xcca9,
            0xcca8, 0xc013, 0xc014, 0x009c, 0x009d, 0x002f, 0x0035,
        ],
        built_groups(d) == seq![d.grease_group, 0x11ec, 0x001d, 0x0017, 0x0018],
        built_shares(d) == seq![d.grease_key_share, 0x11ec, 0x001d],
{
    assert(built_suites(d) =~= seq![
        d.grease_cipher, 0x1301, 0x1302, 0x1303, 0xc02b, 0xc02f, 0xc02c, 0xc030, 0xcca9, 0xcca8,
        0xc013, 0xc014, 0x009c, 0x009d, 0x002f, 0x0035,
    ]);
    assert(built_groups(d) =~= seq![d.grease_group, 0x11ec, 0x001d, 0x0017, 0x0018]);
    assert(built_shares(d) =~= seq![d.grease_key_share, 0x11ec, 0x001d]);
}

/// What an observer reads in any ServerHello: the type and length of the message, the legacy
/// version, the random, the echoed session id, the cipher suite, no compression, and two
/// extensions: TLS 1.3 as the selected version, and a share of the selected group.
pub proof fn law_server_hello_is_readable(
    session_id: Seq<u8>,
    cipher: u16,
    group: u16,
    random: Seq<u8>,
    share: Seq<u8>,
)
    requires
        session_id.len() < 256,
        random.len() == 32,
        share.len() < 60_000,
    ensures
        ({
            let msg = server_hello_message(session_id, cipher, group, random, share);
            let n = session_id.len() as int;
            &&& msg.len() == 58 + n + share.len()
            &&& msg[0] == 2
            &&& be24_at(msg, 1) == msg.len() - 4
            &&& be16_at(msg, 4) == 0x0303
            &&& msg.subrange(6, 38) == random
            &&& msg[38] == n
            &&& msg.subrange(39, 39 + n) == session_id
            &&& be16_at(msg, 39 + n) == cipher
            &&& msg[41 + n] == 0
            &&& split16(msg.skip(42 + n)) matches Some((exts, rest)) && rest.len() == 0
                && extension_list(exts) == Some(
                seq![
                    (0x002bint, be16(0x0304)),
                    (0x0033int, be16(group as int) + be16(share.len() as int) + share),
                ],
            )
        }),
{
    let msg = server_hello_message(session_id, cipher, group, random, share);
    let n = session_id.len() as int;
    let ver = be16(0x0304);
    let key = be16(group as int) + vec16(share);
    let exts = extension_bytes(0x002b, ver) + extension_bytes(0x0033, key);
    let rest = seq![(session_id.len() % 256) as u8] + session_id + be16(cipher as int) + seq![0u8]
        + vec16(exts);
    assert(be16(0x0303) + random + rest =~= be16(0x0303) + random + seq![
        (session_id.len() % 256) as u8,
    ] + session_id + be16(cipher as int) + seq![0u8] + vec16(exts));
    lemma_hello_front(2, random, rest);
    assert(msg == seq![2u8] + be24((be16(0x0303) + random + rest).len() as int) + (be16(0x0303)
        + random + rest));
    lemma_server_rest(session_id, cipher, exts);
    assert(msg[38] == rest[0]);
    assert(msg.subrange(39, 39 + n) =~= rest.subrange(1, 1 + n));
    assert(msg[39 + n] == rest[1 + n] && msg[40 + n] == rest[2 + n] && msg[41 + n] == rest[3 + n]);
    assert(msg.skip(42 + n) =~= rest.skip(4 + n));
    lemma_server_exts(ver, key);
    assert(key =~= be16(group as int) + be16(share.len() as int) + share);
}

proof fn lemma_server_rest(session_id: Seq<u8>, cipher: u16, exts: Seq<u8>)
    requires
        session_id.len() < 256,
        exts.len() < 65536,
    ensures
        ({
            let n = session_id.len() as int;
            let rest = seq![(session_id.len() % 256) as u8] + session_id + be16(cipher as int)
                + seq![0u8] + vec16(exts);
            &&& rest.len() == 6 + n + exts.len()
            &&& rest[0] == n
            &&& rest.subrange(1, 1 + n) == session_id
            &&& be16_at(rest, 1 + n) == cipher
            &&& rest[3 + n] == 0
            &&& split16(rest.skip(4 + n)) == Some((exts, Seq::<u8>::empty()))
        }),
{
    let n = session_id.len() as int;
    let rest = seq![(session_id.len() % 256) as u8] + session_id + be16(cipher as int) + seq![0u8]
        + vec16(exts);
    assert(rest.subrange(1, 1 + n) =~= session_id);
    assert(rest[1 + n] == be16(cipher as int)[0] && rest[2 + n] == be16(cipher as int)[1]);
    let none = Seq::<u8>::empty();
    assert(rest.skip(4 + n) =~= vec16(exts) + none);
    lemma_split16_vec16(exts, none);
}

proof fn lemma_server_exts(ver: Seq<u8>, key: Seq<u8>)
    requires
        ver.len() < 65536,
        key.len() < 65536,
    ensures
        extension_list(extension_bytes(0x002b, ver) + extension_bytes(0x0033, key)) == Some(
            seq![(0x002bint, ver), (0x0033int, key)],
        ),
{
    let none = Seq::<u8>::empty();
    lemma_extension_listed(0x002b, ver, extension_bytes(0x0033, key));
    assert(extension_bytes(0x0033, key) =~= extension_bytes(0x0033, key) + none);
    lemma_extension_listed(0x0033, key, none);
    assert(extension_list(none) == Some(Seq::<(int, Seq<u8>)>::empty()));
    assert(seq![(0x002bint, ver)] + (seq![(0x0033int, key)] + Seq::<(int, Seq<u8>)>::empty())
        =~= seq![(0x002bint, ver), (0x0033int, key)]);
}

/// What a server selects in answer to a hello of this profile was offered in it: the suite 0x1301
/// behind the GREASE one, and x25519 as the third group and the third share.
pub proof fn law_selected_is_what_was_offered(f: HelloFields)
    requires
        f.suites.len() > 1,
        grease(f.suites[0]),
        f.suites[1] == 0x1301,
        f.groups.len() > 2,
        f.groups[2] == 0x001d,
        f.shares.len() > 2,
        f.shares[2] == 0x001d,
    ensures
        selected_cipher(f.suites) == Some(0x1301u16),
        selected_group(f) == Some(0x001du16),
        f.suites.contains(0x1301),
        f.groups.contains(0x001d),
        f.shares.contains(0x001d),
{
    let p = |c: u16| tls13_suite(c);
    assert(!p(f.suites[0]));
    assert(p(f.suites[1]));
    lemma_first_is(f.suites, p, 1);
}

/// How a server chooses: a TLS 1.3 suite that was offered wins over any other, and the first of
/// them over the rest; x25519 wins over any other group where it was offered with a share. GREASE
/// is never chosen, and without an acceptable offer nothing is.
pub proof fn law_choice_of_suite_and_group(fields: HelloFields, i: int, g: u16)
    requires
        0 <= i < fields.suites.len(),
    ensures
        0x1301 <= fields.suites[i] <= 0x1303 && (forall|k: int|
            0 <= k < i ==> !(0x1301 <= #[trigger] fields.suites[k] <= 0x1303)) ==> selected_cipher(
            fields.suites,
        ) == Some(fields.suites[i]),
        (forall|k: int|
            0 <= k < fields.suites.len() ==> !(0x1301 <= #[trigger] fields.suites[k] <= 0x1303))
            && !grease(fields.suites[i]) && (forall|k: int|
            0 <= k < i ==> grease(#[trigger] fields.suites[k])) ==> selected_cipher(fields.suites)
            == Some(fields.suites[i]),
        fields.groups.contains(0x001d) && fields.shares.contains(0x001d) ==> selected_group(fields)
            == Some(0x001du16),
        selected_group(fields) == Some(g) ==> fields.groups.contains(g) && fields.shares.contains(g)
            && !(g / 256 == g % 256 && g % 16 == 10),
{
    let p = |c: u16| tls13_suite(c);
    let q = |c: u16| !grease(c);
    law_selection_was_offered(fields);
    if 0x1301 <= fields.suites[i] <= 0x1303 && (forall|k: int|
        0 <= k < i ==> !(0x1301 <= #[trigger] fields.suites[k] <= 0x1303)) {
        lemma_first_is(fields.suites, p, i);
    }
    if (forall|k: int|
        0 <= k < fields.suites.len() ==> !(0x1301 <= #[trigger] fields.suites[k] <= 0x1303))
        && !grease(fields.suites[i]) && (forall|k: int|
        0 <= k < i ==> grease(#[trigger] fields.suites[k])) {
        lemma_first_such(fields.suites, p);
        if let Some(c) = first_such(fields.suites, p) {
            let k = choose|k: int| 0 <= k < fields.suites.len() && fields.suites[k] == c;
            assert(p(fields.suites[k]));
        }
        lemma_first_is(fields.suites, q, i);
    }
}

proof fn lemma_first_is(s: Seq<u16>, p: spec_fn(u16) -> bool, i: int)
    requires
        0 <= i < s.len(),
        p(s[i]),
        forall|k: int| 0 <= k < i ==> !p(#[trigger] s[k]),
    ensures
        first_such(s, p) == Some(s[i]),
    decreases s.len(),
{
    if i > 0 {
        assert(!p(s[0]));
        let t = s.skip(1);
        assert forall|k: int| 0 <= k < i - 1 implies !p(#[trigger] t[k]) by {
            assert(t[k] == s[k + 1]);
        }
        lemma_first_is(t, p, i - 1);
    }
}

/// Which randoms a server must not draw: the one that marks a retry, and those that end in `DOWNGRD` and a one or a
/// zero. Every other one is plain.
pub proof fn law_which_randoms_are_plain(r: Seq<u8>)
    requires
        r.len() == 32,
    ensures
        ({
            let mark = "DOWNGRD"@.map_values(|c: char| c as u8);
            let downgrade = r.subrange(24, 31) == mark && r[31] <= 1;
            let retry = r == seq![
                0xCFu8, 0x21, 0xAD, 0x74, 0xE5, 0x9A, 0x61, 0x11, 0xBE, 0x1D, 0x8C, 0x02, 0x1E, 0x65,
                0xB8, 0x91, 0xC2, 0xA2, 0x11, 0x16, 0x7A, 0xBB, 0x8C, 0x5E, 0x07, 0x9E, 0x09, 0xE2,
                0xC8, 0xA8, 0x33, 0x9C,
            ];
            plain_random(r) <==> !downgrade && !retry
        }),
{
    reveal_strlit("DOWNGRD");
    let mark = "DOWNGRD"@.map_values(|c: char| c as u8);
    let tail = r.subrange(24, 32);
    assert(tail.take(7) =~= r.subrange(24, 31));
    assert(tail[7] == r[31]);
    assert(downgrade_tail(0).take(7) =~= mark);
    assert(downgrade_tail(1).take(7) =~= mark);
    if r.subrange(24, 31) == mark && r[31] == 0 {
        assert forall|i: int| 0 <= i < 7 implies tail[i] == downgrade_tail(0)[i] by {
            assert(tail.take(7)[i] == mark[i]);
            assert(downgrade_tail(0).take(7)[i] == mark[i]);
        }
        assert(tail =~= downgrade_tail(0));
    }
    if r.subrange(24, 31) == mark && r[31] == 1 {
        assert forall|i: int| 0 <= i < 7 implies tail[i] == downgrade_tail(1)[i] by {
            assert(tail.take(7)[i] == mark[i]);
            assert(downgrade_tail(1).take(7)[i] == mark[i]);
        }
        assert(tail =~= downgrade_tail(1));
    }
}

/// What is refused at the front of a hello, in the order of its fields: another type than 1, another length than that
/// of the message, another legacy version than 0x0303, and one that ends before its random does.
pub proof fn law_front_of_a_hello_is_held_to(msg: Seq<u8>)
    ensures
        ({
            let r = read_client_hello(msg);
            let short = Err::<HelloFields, HelloFault>(HelloFault::ShortRead);
            &&& msg.len() == 0 ==> r == short
            &&& msg.len() >= 1 && msg[0] != 1 ==> r == Err::<HelloFields, HelloFault>(
                HelloFault::NotClientHello,
            )
            &&& 1 <= msg.len() < 4 && msg[0] == 1 ==> r == short
            &&& msg.len() >= 4 && msg[0] == 1 ==> {
                let n = msg[1] * 65536 + msg[2] * 256 + msg[3];
                &&& n != msg.len() - 4 ==> r == Err::<HelloFields, HelloFault>(
                    HelloFault::LengthMismatch,
                )
                &&& n == msg.len() - 4 && n < 2 ==> r == short
                &&& n == msg.len() - 4 && n >= 2 && msg[4] * 256 + msg[5] != 0x0303 ==> r == Err::<
                    HelloFields,
                    HelloFault,
                >(HelloFault::LegacyVersion)
                &&& n == msg.len() - 4 && 2 <= n < 34 && msg[4] * 256 + msg[5] == 0x0303 ==> r
                    == short
                &&& n == msg.len() - 4 && n >= 34 && msg[4] * 256 + msg[5] == 0x0303 ==> r
                    == read_after_random(msg.skip(38))
            }
        }),
{
}

/// What a reader takes from an extension: from the groups, the list, in place of any before; from the key shares,
/// their groups, behind any before; and from every other one nothing.
pub proof fn law_what_an_extension_says(
    ext_type: u16,
    data: Seq<u8>,
    list: Seq<u16>,
    group: u16,
    share: Seq<u8>,
    rest: Seq<u8>,
    groups: Seq<u16>,
    shares: Seq<u16>,
)
    requires
        data.len() < 65_536,
        list.len() < 32_000,
        share.len() < 65_000,
    ensures
        ext_type != 0x000a && ext_type != 0x0033 ==> read_extensions(
            extension_bytes(ext_type, data) + rest,
            groups,
            shares,
        ) == read_extensions(rest, groups, shares),
        read_extensions(
            extension_bytes(0x000a, vec16(list_bytes(list))) + rest,
            groups,
            shares,
        ) == read_extensions(rest, list, shares),
        read_extensions(
            extension_bytes(0x0033, vec16(be16(group as int) + vec16(share))) + rest,
            groups,
            shares,
        ) == read_extensions(rest, groups, shares.push(group)),
{
    lemma_extension_in_front(ext_type, data, rest, groups, shares);
    let empty = Seq::<u8>::empty();
    let g = list_bytes(list);
    lemma_list_read_back(list);
    lemma_extension_in_front(0x000a, vec16(g), rest, groups, shares);
    lemma_split16_vec16(g, empty);
    assert(vec16(g) + empty =~= vec16(g));
    let one = be16(group as int) + vec16(share);
    lemma_extension_in_front(0x0033, vec16(one), rest, groups, shares);
    lemma_split16_vec16(one, empty);
    assert(vec16(one) + empty =~= vec16(one));
    lemma_split16_vec16(share, empty);
    assert(vec16(share) + empty =~= vec16(share));
    assert(one.skip(2) =~= vec16(share));
    assert(one[0] == be16(group as int)[0] && one[1] == be16(group as int)[1]);
    assert(be16_at(one, 0) == group);
    assert(share_groups(empty, shares.push(group)) == Some(shares.push(group)));
    assert(share_groups(one, shares) == Some(shares.push(group)));
}

proof fn lemma_extension_in_front(
    ext_type: u16,
    data: Seq<u8>,
    rest: Seq<u8>,
    groups: Seq<u16>,
    shares: Seq<u16>,
)
    requires
        data.len() < 65_536,
    ensures
        read_extensions(extension_bytes(ext_type, data) + rest, groups, shares) == (
        match read_extension(ext_type as int, data, groups, shares) {
            Err(f) => Err(f),
            Ok((g, k)) => read_extensions(rest, g, k),
        }),
{
    let e = extension_bytes(ext_type, data) + rest;
    assert(e[0] == be16(ext_type as int)[0]);
    assert(e[1] == be16(ext_type as int)[1]);
    assert(be16_at(e, 0) == ext_type);
    assert(e.skip(2) =~= vec16(data) + rest);
    lemma_split16_vec16(data, rest);
}

/// A hello may end behind its compression methods: it then names a session id and suites, and no groups or shares.
/// A list of suites of an odd number of bytes is refused.
pub proof fn law_hello_may_lack_extensions(
    session_id: Seq<u8>,
    suites: Seq<u16>,
    odd: Seq<u8>,
    compression: Seq<u8>,
    rest: Seq<u8>,
)
    requires
        session_id.len() <= 255,
        suites.len() <= 32_767,
        odd.len() <= 65_535,
        odd.len() % 2 == 1,
        compression.len() <= 255,
    ensures
        read_after_random(
            seq![session_id.len() as u8] + session_id + vec16(list_bytes(suites)) + (seq![
                compression.len() as u8,
            ] + compression),
        ) == Ok::<HelloFields, HelloFault>(
            HelloFields {
                session_id,
                suites,
                groups: Seq::<u16>::empty(),
                shares: Seq::<u16>::empty(),
            },
        ),
        read_after_random(seq![session_id.len() as u8] + session_id + vec16(odd) + rest) == Err::<
            HelloFields,
            HelloFault,
        >(HelloFault::OddList),
{
    lemma_list_read_back(suites);
    let last = seq![compression.len() as u8] + compression;
    lemma_behind_the_session(session_id, list_bytes(suites), last);
    lemma_behind_the_session(session_id, odd, rest);
    assert(last.subrange(1, 1 + compression.len() as int) =~= compression);
    assert(last.skip(1 + compression.len() as int).len() == 0);
}

proof fn lemma_behind_the_session(session_id: Seq<u8>, list: Seq<u8>, rest: Seq<u8>)
    requires
        session_id.len() <= 255,
        list.len() <= 65_535,
    ensures
        ({
            let t = seq![session_id.len() as u8] + session_id + vec16(list) + rest;
            split8(t) == Some((session_id, vec16(list) + rest)) && split16(vec16(list) + rest) == Some(
                (list, rest),
            )
        }),
{
    let t = seq![session_id.len() as u8] + session_id + vec16(list) + rest;
    let n = session_id.len() as int;
    assert(t[0] == n);
    assert(t.subrange(1, 1 + n) =~= session_id);
    assert(t.skip(1 + n) =~= vec16(list) + rest);
    lemma_split16_vec16(list, rest);
}

} // verus!
