//! A leg that looks like TLS 1.3.
//!
//! Payloads travel in records of type application data, sealed under keys that both ends
//! derive from the public server name and version: the seal hides the shape of the traffic,
//! and nothing else. Each record uses the next number of a counter in its nonce.

use crate::aead::{aes256gcm_open, aes256gcm_opened, aes256gcm_seal, aes256gcm_sealed, MAX_PLAINTEXT};
use crate::bytebuf::{buffer_len, buffer_slice, buffered, extend_buffer, new_buffer, split_buffer};
use crate::hash::{blake3_key, blake3_key_of};
use crate::legs::mimic_tls::client_hello::{
    extension, extension_bytes, grease, list_bytes, push_len24, push_u16_list, push_u16_vec, vec16,
};
use crate::legs::mimic_tls::server_hello::{
    extension_list, lemma_extension_listed, lemma_list_grows, only_one,
};
use crate::random::{is_order, os_random, random_array, random_in, random_order, RngError};
use crate::wire::{
    append, be16, be16_at, be24, be24_at, be64, copy_bytes, push_u16, push_u64, read_u16, to_array, zeros,
};
use bytes::BytesMut;
use vstd::prelude::*;
use vstd::slice::slice_subrange;
use vstd::string::StringSliceAdditionalSpecFns;
use vstd::utf8::encode_utf8;

verus! {

/// Record type of handshake messages.
pub const CONTENT_HANDSHAKE: u8 = 22;

/// Record type of application data.
pub const CONTENT_APPLICATION_DATA: u8 = 23;

/// Configuration of the leg.
#[derive(Debug, Clone)]
pub struct FakeTlsConfig {
    /// The server name in the hello.
    pub sni: String,
    /// The version in the record headers.
    pub version: u16,
}

impl Default for FakeTlsConfig {
    fn default() -> (c: Self)
        ensures
            c.sni@ == "www.google.com"@,
            c.version == 0x0303,
    {
        FakeTlsConfig { sni: "www.google.com".to_owned(), version: 0x0303 }
    }
}

/// Where the handshake is.
#[derive(Debug, Clone, Copy, PartialEq, Eq, Structural)]
pub enum FakeTlsState {
    Init,
    /// The client's hello is out, or has come.
    ClientHelloDone,
    /// The server's hello is out, or has come.
    ServerHelloDone,
    /// Ready for payloads.
    ApplicationData,
}

/// What can go wrong on the leg.
#[derive(Debug, Clone, Copy, PartialEq, Eq, Structural)]
pub enum FakeTlsError {
    RecordTooShort,
    DecryptionFailed,
    EmptyInnerPlaintext,
    NotConnected,
}

impl FakeTlsError {
    /// The text of the error.
    pub open spec fn spec_text(self) -> Seq<char> {
        match self {
            FakeTlsError::RecordTooShort => "Record too short"@,
            FakeTlsError::DecryptionFailed => "AEAD decryption failed"@,
            FakeTlsError::EmptyInnerPlaintext => "Empty inner plaintext"@,
            FakeTlsError::NotConnected => "FakeTLS not connected"@,
        }
    }

    /// The text of the error.
    pub fn to_text(&self) -> (s: String)
        ensures
            s@ == self.spec_text(),
    {
        match self {
            FakeTlsError::RecordTooShort => "Record too short".to_owned(),
            FakeTlsError::DecryptionFailed => "AEAD decryption failed".to_owned(),
            FakeTlsError::EmptyInnerPlaintext => "Empty inner plaintext".to_owned(),
            FakeTlsError::NotConnected => "FakeTLS not connected".to_owned(),
        }
    }
}

/// The label `phantom-faketls-outer-v1`.
pub open spec fn seed_label() -> Seq<u8> {
    seq![
        0x70u8, 0x68, 0x61, 0x6e, 0x74, 0x6f, 0x6d, 0x2d, 0x66, 0x61, 0x6b, 0x65, 0x74, 0x6c, 0x73,
        0x2d, 0x6f, 0x75, 0x74, 0x65, 0x72, 0x2d, 0x76, 0x31,
    ]
}

/// The public seed of the keys.
pub open spec fn key_seed(sni: Seq<u8>, version: u16) -> Seq<u8> {
    seed_label() + be16(version as int) + sni
}

/// The key of the records from the client to the server.
pub open spec fn client_key(sni: Seq<u8>, version: u16) -> Seq<u8> {
    blake3_key_of("phantom-faketls-c2s-v1"@, key_seed(sni, version))
}

/// The key of the records from the server to the client.
pub open spec fn server_key(sni: Seq<u8>, version: u16) -> Seq<u8> {
    blake3_key_of("phantom-faketls-s2c-v1"@, key_seed(sni, version))
}

/// The first four bytes of every nonce.
pub open spec fn nonce_prefix(sni: Seq<u8>, version: u16) -> Seq<u8> {
    blake3_key_of("phantom-faketls-pfx-v1"@, key_seed(sni, version)).take(4)
}

/// The keys of one end.
#[derive(Debug, Clone, Copy)]
pub struct OuterKeys {
    pub send: [u8; 32],
    pub recv: [u8; 32],
    pub nonce_prefix: [u8; 4],
}

/// Whether these are the keys of an end.
pub open spec fn keys_of(k: OuterKeys, sni: Seq<u8>, version: u16, is_server: bool) -> bool {
    &&& k.send@ == (if is_server {
        server_key(sni, version)
    } else {
        client_key(sni, version)
    })
    &&& k.recv@ == (if is_server {
        client_key(sni, version)
    } else {
        server_key(sni, version)
    })
    &&& k.nonce_prefix@ == nonce_prefix(sni, version)
}

/// Derive the keys of an end.
pub fn derive_outer_keys(sni: &str, version: u16, is_server: bool) -> (k: OuterKeys)
    ensures
        keys_of(k, sni.spec_bytes(), version, is_server),
{
    let mut seed: Vec<u8> = vec![
        0x70u8, 0x68, 0x61, 0x6e, 0x74, 0x6f, 0x6d, 0x2d, 0x66, 0x61, 0x6b, 0x65, 0x74, 0x6c, 0x73,
        0x2d, 0x6f, 0x75, 0x74, 0x65, 0x72, 0x2d, 0x76, 0x31,
    ];
    assert(seed@ =~= seed_label());
    push_u16(&mut seed, version);
    append(&mut seed, sni.as_bytes());
    let c2s: [u8; 32] = blake3_key("phantom-faketls-c2s-v1", seed.as_slice());
    let s2c: [u8; 32] = blake3_key("phantom-faketls-s2c-v1", seed.as_slice());
    let pfx: [u8; 32] = blake3_key("phantom-faketls-pfx-v1", seed.as_slice());
    let prefix: [u8; 4] = to_array::<4>(slice_subrange(pfx.as_slice(), 0, 4));
    assert(prefix@ =~= pfx@.take(4));
    if is_server {
        OuterKeys { send: s2c, recv: c2s, nonce_prefix: prefix }
    } else {
        OuterKeys { send: c2s, recv: s2c, nonce_prefix: prefix }
    }
}

/// The nonce of a record: the prefix and the record's number.
pub open spec fn nonce_of(prefix: Seq<u8>, counter: u64) -> Seq<u8> {
    prefix + be64(counter as int)
}

fn make_nonce(prefix: &[u8; 4], counter: u64) -> (n: [u8; 12])
    ensures
        n@ == nonce_of(prefix@, counter),
{
    let mut n: Vec<u8> = copy_bytes(prefix.as_slice());
    push_u64(&mut n, counter);
    to_array::<12>(n.as_slice())
}

/// The cipher suites that a hello picks from.
pub open spec fn suite_table() -> Seq<u16> {
    seq![
        0x1301u16, 0x1302, 0x1303, 0xc02b, 0xc02c, 0xc02f, 0xc030, 0xcca9, 0xcca8,
    ]
}

/// The signature algorithms of a hello.
pub open spec fn algorithm_list() -> Seq<u16> {
    seq![0x0403u16, 0x0804, 0x0401, 0x0503, 0x0805, 0x0501, 0x0806, 0x0601]
}

/// The reserved number that the high half of a random byte selects: 0x0a0a, 0x1a1a and so on
/// up to 0xfafa. The half stands in both bytes: to add it to the low byte alone would make
/// numbers such as 0x0a1a, which are not reserved.
pub open spec fn grease_from(draw: u8) -> u16 {
    (draw / 16 * 4112 + 2570) as u16
}

fn grease_number(draw: u8) -> (g: u16)
    ensures
        g == grease_from(draw),
{
    (draw / 16) as u16 * 4112 + 2570
}

/// What is drawn afresh for one hello of a client.
#[derive(Debug)]
pub struct FakeHelloDraws {
    pub random: [u8; 32],
    pub session_id: [u8; 32],
    pub suite_grease: u8,
    pub group_grease: u8,
    pub share_grease: u8,
    pub version_grease: u8,
    /// Places in the table of cipher suites, in the order of the hello.
    pub suites: Vec<usize>,
    /// Where the reserved number stands among the suites.
    pub grease_at: usize,
    /// The public key of the key share.
    pub share: [u8; 32],
    /// The order of the extensions behind the server name.
    pub order: Vec<usize>,
    /// Bytes of padding.
    pub padding: usize,
}

impl FakeHelloDraws {
    /// Whether the draws are of the right shape: at least three different suites, every
    /// extension once, and 50 to 199 bytes of padding.
    pub open spec fn wf(self) -> bool {
        &&& 3 <= self.suites@.len() <= 9
        &&& self.suites@.no_duplicates()
        &&& forall|i: int| 0 <= i < self.suites@.len() ==> (#[trigger] self.suites@[i]) < 9
        &&& self.grease_at <= self.suites@.len()
        &&& is_order(self.order@, 5)
        &&& 50 <= self.padding < 200
    }
}

/// The suites that the places name.
pub open spec fn suites_at(places: Seq<usize>) -> Seq<u16> {
    places.map_values(|i: usize| suite_table()[i as int])
}

/// The suites of a hello: the chosen ones, and the reserved number among them.
pub open spec fn suites_of(d: FakeHelloDraws) -> Seq<u16> {
    suites_at(d.suites@).insert(d.grease_at as int, grease_from(d.suite_grease))
}

/// The type of an extension behind the server name.
pub open spec fn ext_type(i: int) -> u16 {
    if i == 0 {
        10
    } else if i == 1 {
        11
    } else if i == 2 {
        13
    } else if i == 3 {
        51
    } else {
        43
    }
}

/// The body of an extension behind the server name. The length in front of the key shares is
/// that of all 41 bytes behind it, 5 of the reserved share and 36 of the real one; 38, which
/// leaves out the byte of the one and the length of the other, would cut the list short.
pub open spec fn ext_body(d: FakeHelloDraws, i: int) -> Seq<u8> {
    if i == 0 {
        vec16(list_bytes(seq![grease_from(d.group_grease), 0x001du16, 0x0017u16]))
    } else if i == 1 {
        seq![1u8, 0u8]
    } else if i == 2 {
        vec16(list_bytes(algorithm_list()))
    } else if i == 3 {
        be16(41) + be16(grease_from(d.share_grease) as int) + be16(1) + seq![0u8] + be16(0x001d)
            + be16(32) + d.share@
    } else {
        seq![6u8] + list_bytes(seq![grease_from(d.version_grease), 0x0304u16, 0x0303u16])
    }
}

/// Every number that is drawn for a hello is one of the reserved ones, and the length in
/// front of the key shares is theirs.
pub proof fn law_hello_extensions_are_in_order(d: FakeHelloDraws, draw: u8)
    ensures
        grease(grease_from(draw)),
        be16_at(ext_body(d, 3), 0) == ext_body(d, 3).len() - 2,
{
    let body = ext_body(d, 3);
    assert(body[0] == be16(41)[0]);
    assert(body[1] == be16(41)[1]);
}

/// The extensions behind the server name, in the given order.
pub open spec fn exts_in_order(d: FakeHelloDraws, order: Seq<usize>) -> Seq<u8>
    decreases order.len(),
{
    if order.len() == 0 {
        Seq::empty()
    } else {
        exts_in_order(d, order.drop_last()) + extension_bytes(
            ext_type(order.last() as int),
            ext_body(d, order.last() as int),
        )
    }
}

/// Zero bytes.
pub open spec fn zero_bytes(n: int) -> Seq<u8> {
    Seq::new(n as nat, |i: int| 0u8)
}

/// All extensions: the server name first, then the others, then the padding.
pub open spec fn hello_exts(sni: Seq<u8>, d: FakeHelloDraws) -> Seq<u8> {
    extension_bytes(0, vec16(seq![0u8] + vec16(sni))) + exts_in_order(d, d.order@)
        + extension_bytes(21, zero_bytes(d.padding as int))
}

/// The body of a client's hello.
pub open spec fn hello_body(sni: Seq<u8>, d: FakeHelloDraws) -> Seq<u8> {
    be16(0x0303) + d.random@ + seq![32u8] + d.session_id@ + vec16(list_bytes(suites_of(d)))
        + seq![1u8, 0u8] + vec16(hello_exts(sni, d))
}

/// The body of a server's hello.
pub open spec fn server_body(random: Seq<u8>) -> Seq<u8> {
    be16(0x0303) + random + seq![0u8] + be16(0x1302) + seq![0u8] + vec16(
        extension_bytes(51, be16(0x001d) + be16(0)),
    )
}

/// A handshake message of the given type in a record.
pub open spec fn hello_record(version: u16, message_type: u8, body: Seq<u8>) -> Seq<u8> {
    seq![CONTENT_HANDSHAKE] + be16(version as int) + vec16(
        seq![message_type] + be24(body.len() as int) + body,
    )
}

fn push_record(version: u16, message_type: u8, body: &Vec<u8>) -> (record: Vec<u8>)
    ensures
        record@ == hello_record(version, message_type, body@),
{
    let mut message: Vec<u8> = vec![message_type];
    assert(message@ =~= seq![message_type]);
    push_len24(&mut message, body.len());
    append(&mut message, body.as_slice());
    let mut record: Vec<u8> = vec![CONTENT_HANDSHAKE];
    assert(record@ =~= seq![CONTENT_HANDSHAKE]);
    push_u16(&mut record, version);
    push_u16_vec(&mut record, message.as_slice());
    record
}

fn listed(list: Vec<u16>) -> (out: Vec<u8>)
    ensures
        out@ == list_bytes(list@),
{
    let mut out: Vec<u8> = Vec::new();
    push_u16_list(&mut out, &list);
    assert(out@ =~= list_bytes(list@));
    out
}

fn behind_length(body: Vec<u8>) -> (out: Vec<u8>)
    ensures
        out@ == vec16(body@),
{
    let mut out: Vec<u8> = Vec::new();
    push_u16_vec(&mut out, body.as_slice());
    assert(out@ =~= vec16(body@));
    out
}

fn make_sni_extension_body(sni: &[u8]) -> (body: Vec<u8>)
    ensures
        body@ == vec16(seq![0u8] + vec16(sni@)),
{
    let mut entry: Vec<u8> = vec![0u8];
    assert(entry@ =~= seq![0u8]);
    push_u16_vec(&mut entry, sni);
    behind_length(entry)
}

fn make_supported_groups_body(d: &FakeHelloDraws) -> (body: Vec<u8>)
    ensures
        body@ == ext_body(*d, 0),
{
    let groups: Vec<u16> = vec![grease_number(d.group_grease), 0x001d, 0x0017];
    assert(groups@ =~= seq![grease_from(d.group_grease), 0x001du16, 0x0017u16]);
    behind_length(listed(groups))
}

fn make_signature_algorithms_body() -> (body: Vec<u8>)
    ensures
        body@ == vec16(list_bytes(algorithm_list())),
{
    let algorithms: Vec<u16> = vec![
        0x0403, 0x0804, 0x0401, 0x0503, 0x0805, 0x0501, 0x0806, 0x0601,
    ];
    assert(algorithms@ =~= algorithm_list());
    behind_length(listed(algorithms))
}

fn make_key_share_body(d: &FakeHelloDraws) -> (body: Vec<u8>)
    ensures
        body@ == ext_body(*d, 3),
{
    let mut body: Vec<u8> = Vec::new();
    push_u16(&mut body, 41);
    assert(body@ =~= be16(41));
    push_u16(&mut body, grease_number(d.share_grease));
    push_u16(&mut body, 1);
    body.push(0);
    push_u16(&mut body, 0x001d);
    push_u16(&mut body, 32);
    append(&mut body, d.share.as_slice());
    assert(body@ =~= ext_body(*d, 3));
    body
}

fn make_supported_versions_body(d: &FakeHelloDraws) -> (body: Vec<u8>)
    ensures
        body@ == ext_body(*d, 4),
{
    let versions: Vec<u16> = vec![grease_number(d.version_grease), 0x0304, 0x0303];
    assert(versions@ =~= seq![grease_from(d.version_grease), 0x0304u16, 0x0303u16]);
    let mut body: Vec<u8> = vec![6u8];
    assert(body@ =~= seq![6u8]);
    push_u16_list(&mut body, &versions);
    body
}

fn ext_at(d: &FakeHelloDraws, i: usize) -> (e: Vec<u8>)
    requires
        i < 5,
    ensures
        e@ == extension_bytes(ext_type(i as int), ext_body(*d, i as int)),
{
    if i == 0 {
        extension(10, make_supported_groups_body(d).as_slice())
    } else if i == 1 {
        let formats: Vec<u8> = vec![1u8, 0u8];
        assert(formats@ =~= seq![1u8, 0u8]);
        extension(11, formats.as_slice())
    } else if i == 2 {
        extension(13, make_signature_algorithms_body().as_slice())
    } else if i == 3 {
        extension(51, make_key_share_body(d).as_slice())
    } else {
        extension(43, make_supported_versions_body(d).as_slice())
    }
}

fn suite_list(d: &FakeHelloDraws) -> (suites: Vec<u16>)
    requires
        d.wf(),
    ensures
        suites@ == suites_of(*d),
{
    let table: Vec<u16> = vec![
        0x1301, 0x1302, 0x1303, 0xc02b, 0xc02c, 0xc02f, 0xc030, 0xcca9, 0xcca8,
    ];
    assert(table@ =~= suite_table());
    let mut suites: Vec<u16> = Vec::new();
    let mut i: usize = 0;
    while i < d.suites.len()
        invariant
            i <= d.suites@.len(),
            d.wf(),
            table@ == suite_table(),
            suites@.len() == i,
            forall|k: int| 0 <= k < i ==> suites@[k] == suite_table()[d.suites@[k] as int],
        decreases d.suites@.len() - i,
    {
        suites.push(table[d.suites[i]]);
        i += 1;
    }
    assert(suites@ =~= suites_at(d.suites@));
    suites.insert(d.grease_at, grease_number(d.suite_grease));
    suites
}

/// Build a client's hello record from what was drawn.
pub fn build_fake_client_hello_from(config: &FakeTlsConfig, d: &FakeHelloDraws) -> (record: Vec<u8>)
    requires
        d.wf(),
    ensures
        record@ == hello_record(
            config.version,
            1,
            hello_body(encode_utf8(config.sni@), *d),
        ),
{
    let sni: &[u8] = config.sni.as_str().as_bytes();
    let mut body: Vec<u8> = Vec::new();
    push_u16(&mut body, 0x0303);
    assert(body@ =~= be16(0x0303));
    append(&mut body, d.random.as_slice());
    body.push(32);
    append(&mut body, d.session_id.as_slice());
    push_u16_vec(&mut body, listed(suite_list(d)).as_slice());
    body.push(1);
    body.push(0);
    let ghost front = body@;
    assert(front =~= be16(0x0303) + d.random@ + seq![32u8] + d.session_id@ + vec16(
        list_bytes(suites_of(*d)),
    ) + seq![1u8, 0u8]);
    let mut exts: Vec<u8> = extension(0, make_sni_extension_body(sni).as_slice());
    let ghost first = exts@;
    let mut i: usize = 0;
    assert(d.order@.take(0) =~= Seq::empty());
    assert(exts@ =~= first + exts_in_order(*d, d.order@.take(0)));
    while i < d.order.len()
        invariant
            i <= d.order@.len(),
            d.wf(),
            exts@ == first + exts_in_order(*d, d.order@.take(i as int)),
        decreases d.order@.len() - i,
    {
        let ghost so_far = exts@;
        let e: Vec<u8> = ext_at(d, d.order[i]);
        append(&mut exts, e.as_slice());
        proof {
            let next = d.order@.take(i + 1);
            assert(next.drop_last() =~= d.order@.take(i as int));
            assert(next.last() == d.order@[i as int]);
            assert(exts@ =~= first + exts_in_order(*d, next));
        }
        i += 1;
    }
    assert(d.order@.take(i as int) =~= d.order@);
    let pad: Vec<u8> = zeros(d.padding);
    append(&mut exts, extension(21, pad.as_slice()).as_slice());
    push_u16_vec(&mut body, exts.as_slice());
    push_record(config.version, 1, &body)
}

/// Calls `x25519_dalek::PublicKey::from` on the secret key of these bytes. The public key
/// depends on the bytes alone.
#[verifier::external_body]
fn x25519_public(secret: [u8; 32]) -> (public: [u8; 32])
    ensures
        public@ == x25519_public_of(secret@),
{
    x25519_dalek::PublicKey::from(&x25519_dalek::StaticSecret::from(secret)).to_bytes()
}

/// The X25519 public key of a secret key.
pub uninterp spec fn x25519_public_of(secret: Seq<u8>) -> Seq<u8>;

/// Whether the key share is the public key of some secret.
pub open spec fn shares_a_key(d: FakeHelloDraws) -> bool {
    exists|secret: Seq<u8>|
        secret.len() == 32 && d.share@ == #[trigger] x25519_public_of(secret)
}

/// What one hello is drawn from: 100 random bytes, a random order of the nine suites of which
/// the first `count` are taken, the place of the reserved number, a random order of the
/// extensions and the length of the padding.
pub fn fake_hello_draws_from(
    s: &[u8],
    places: Vec<usize>,
    count: usize,
    grease_at: usize,
    order: Vec<usize>,
    padding: usize,
) -> (d: FakeHelloDraws)
    requires
        s@.len() == 100,
        count <= places@.len(),
    ensures
        d.random@ == s@.subrange(0, 32),
        d.session_id@ == s@.subrange(32, 64),
        d.share@ == x25519_public_of(s@.subrange(64, 96)),
        d.suite_grease == s@[96],
        d.group_grease == s@[97],
        d.share_grease == s@[98],
        d.version_grease == s@[99],
        d.suites@ == places@.take(count as int),
        d.grease_at == grease_at,
        d.order == order,
        d.padding == padding,
{
    let ghost all = places@;
    let mut suites: Vec<usize> = places;
    suites.truncate(count);
    assert(suites@ =~= all.take(count as int));
    let secret: [u8; 32] = to_array::<32>(slice_subrange(s, 64, 96));
    FakeHelloDraws {
        random: to_array::<32>(slice_subrange(s, 0, 32)),
        session_id: to_array::<32>(slice_subrange(s, 32, 64)),
        suite_grease: s[96],
        group_grease: s[97],
        share_grease: s[98],
        version_grease: s[99],
        suites,
        grease_at,
        share: x25519_public(secret),
        order,
        padding,
    }
}

/// Draw what one hello needs. Fails when the operating system has no random bytes.
pub fn draw_fake_hello() -> (r: Result<FakeHelloDraws, RngError>)
    ensures
        r matches Ok(d) ==> d.wf() && shares_a_key(d),
{
    match random_array::<64>() {
        Ok(randoms) => draw_fake_hello_with(&randoms),
        Err(e) => Err(e),
    }
}

/// Draw what one hello needs beside its random and its session id, which are the two halves
/// of `randoms`: the caller may have them from another generator. Fails when the operating
/// system has no random bytes.
pub fn draw_fake_hello_with(randoms: &[u8; 64]) -> (r: Result<FakeHelloDraws, RngError>)
    ensures
        r matches Ok(d) ==> d.wf() && shares_a_key(d) && d.random@ == randoms@.take(32)
            && d.session_id@ == randoms@.skip(32),
{
    let mut bytes: Vec<u8> = copy_bytes(randoms.as_slice());
    match os_random(36) {
        Ok(b) => {
            append(&mut bytes, b.as_slice());
        },
        Err(e) => {
            return Err(e);
        },
    }
    let order: Vec<usize> = match random_order(5) {
        Ok(o) => o,
        Err(e) => {
            return Err(e);
        },
    };
    let places: Vec<usize> = match random_order(9) {
        Ok(o) => o,
        Err(e) => {
            return Err(e);
        },
    };
    let count: usize = match random_in(3, 9) {
        Ok(n) => n,
        Err(e) => {
            return Err(e);
        },
    };
    let grease_at: usize = match random_in(0, count) {
        Ok(n) => n,
        Err(e) => {
            return Err(e);
        },
    };
    let padding: usize = match random_in(50, 199) {
        Ok(n) => n,
        Err(e) => {
            return Err(e);
        },
    };
    let d: FakeHelloDraws = fake_hello_draws_from(
        bytes.as_slice(),
        places,
        count,
        grease_at,
        order,
        padding,
    );
    proof {
        assert(bytes@.subrange(0, 32) =~= randoms@.take(32));
        assert(bytes@.subrange(32, 64) =~= randoms@.skip(32));
    }
    Ok(d)
}

/// Build a client's hello record with fresh randomness.
pub fn build_fake_client_hello(config: &FakeTlsConfig) -> (r: Result<Vec<u8>, RngError>)
    ensures
        r matches Ok(record) ==> exists|d: FakeHelloDraws|
            d.wf() && shares_a_key(d) && record@ == hello_record(
                config.version,
                1,
                #[trigger] hello_body(encode_utf8(config.sni@), d),
            ),
{
    match draw_fake_hello() {
        Ok(d) => Ok(build_fake_client_hello_from(config, &d)),
        Err(e) => Err(e),
    }
}

/// Build a server's hello record with this random.
pub fn build_fake_server_hello_from(config: &FakeTlsConfig, random: &[u8; 32]) -> (record: Vec<u8>)
    ensures
        record@ == hello_record(config.version, 2, server_body(random@)),
{
    let mut body: Vec<u8> = Vec::new();
    push_u16(&mut body, 0x0303);
    assert(body@ =~= be16(0x0303));
    append(&mut body, random.as_slice());
    body.push(0);
    push_u16(&mut body, 0x1302);
    body.push(0);
    let mut share: Vec<u8> = Vec::new();
    push_u16(&mut share, 0x001d);
    push_u16(&mut share, 0);
    assert(share@ =~= be16(0x001d) + be16(0));
    push_u16_vec(&mut body, extension(51, share.as_slice()).as_slice());
    assert(body@ =~= server_body(random@));
    push_record(config.version, 2, &body)
}

/// Build a server's hello record with a fresh random.
pub fn build_fake_server_hello(config: &FakeTlsConfig) -> (r: Result<Vec<u8>, RngError>)
    ensures
        r matches Ok(record) ==> exists|random: [u8; 32]|
            record@ == hello_record(config.version, 2, #[trigger] server_body(random@)),
{
    match random_array::<32>() {
        Ok(random) => Ok(build_fake_server_hello_from(config, &random)),
        Err(e) => Err(e),
    }
}

/// What a leg holds.
pub struct LegState {
    pub config: FakeTlsConfig,
    pub keys: OuterKeys,
    pub state: FakeTlsState,
    pub available: bool,
    pub rtt_ms: u32,
    pub send_counter: u64,
    pub recv_counter: u64,
    /// Bytes that have come and were not read yet.
    pub waiting: Seq<u8>,
}

/// The text inside a record: the payload, and the byte for application data.
pub open spec fn inner_text(data: Seq<u8>) -> Seq<u8> {
    data.push(CONTENT_APPLICATION_DATA)
}

/// A record that carries `sealed`.
pub open spec fn data_record(version: u16, sealed: Seq<u8>) -> Seq<u8> {
    seq![CONTENT_APPLICATION_DATA] + be16(version as int) + vec16(sealed)
}

/// What a record holds for an end that reads with `key` under the number `counter`.
pub open spec fn unwrapped(prefix: Seq<u8>, key: Seq<u8>, counter: u64, record: Seq<u8>) -> Result<
    Seq<u8>,
    FakeTlsError,
> {
    if record.len() < 5 {
        Err(FakeTlsError::RecordTooShort)
    } else {
        match aes256gcm_opened(key, nonce_of(prefix, counter), record.skip(5)) {
            Some(text) => if text.len() == 0 {
                Err(FakeTlsError::EmptyInnerPlaintext)
            } else {
                Ok(text.drop_last())
            },
            None => Err(FakeTlsError::DecryptionFailed),
        }
    }
}

/// The length of the record in front, header and all, once its header is there.
pub open spec fn front_record(waiting: Seq<u8>) -> Option<int> {
    if waiting.len() < 5 || waiting.len() < 5 + be16_at(waiting, 3) {
        None
    } else {
        Some(5 + be16_at(waiting, 3))
    }
}

/// The leg, without its connection.
pub struct FakeTlsLeg {
    config: FakeTlsConfig,
    keys: OuterKeys,
    state: FakeTlsState,
    available: bool,
    rtt_ms: u32,
    send_counter: u64,
    recv_counter: u64,
    read_buf: BytesMut,
}

impl View for FakeTlsLeg {
    type V = LegState;

    closed spec fn view(&self) -> LegState {
        LegState {
            config: self.config,
            keys: self.keys,
            state: self.state,
            available: self.available,
            rtt_ms: self.rtt_ms,
            send_counter: self.send_counter,
            recv_counter: self.recv_counter,
            waiting: buffered(self.read_buf),
        }
    }
}

/// Whether a leg was just made for this end.
pub open spec fn fresh_leg(l: LegState, config: FakeTlsConfig, is_server: bool, rtt_ms: u32) -> bool {
    &&& l.config == config
    &&& keys_of(l.keys, encode_utf8(config.sni@), config.version, is_server)
    &&& l.state == FakeTlsState::Init
    &&& l.rtt_ms == rtt_ms
    &&& l.send_counter == 0
    &&& l.recv_counter == 0
    &&& l.waiting.len() == 0
}

impl FakeTlsLeg {
    /// A client's leg with the default configuration, not connected.
    pub fn new() -> (l: Self)
        ensures
            l@.config.sni@ == "www.google.com"@,
            l@.config.version == 0x0303,
            fresh_leg(l@, l@.config, false, 150),
            !l@.available,
    {
        FakeTlsLeg::with_config(FakeTlsConfig::default())
    }

    /// A client's leg, not connected.
    pub fn with_config(config: FakeTlsConfig) -> (l: Self)
        ensures
            fresh_leg(l@, config, false, 150),
            !l@.available,
    {
        FakeTlsLeg::make(config, false, 150, false)
    }

    /// The leg of an end that is connected, with the round trip that connecting took.
    pub fn connected(config: FakeTlsConfig, is_server: bool, rtt_ms: u32) -> (l: Self)
        ensures
            fresh_leg(l@, config, is_server, rtt_ms),
            l@.available,
    {
        FakeTlsLeg::make(config, is_server, rtt_ms, true)
    }

    fn make(config: FakeTlsConfig, is_server: bool, rtt_ms: u32, available: bool) -> (l: Self)
        ensures
            fresh_leg(l@, config, is_server, rtt_ms),
            l@.available == available,
    {
        let keys: OuterKeys = derive_outer_keys(config.sni.as_str(), config.version, is_server);
        FakeTlsLeg {
            config,
            keys,
            state: FakeTlsState::Init,
            available,
            rtt_ms,
            send_counter: 0,
            recv_counter: 0,
            read_buf: new_buffer(),
        }
    }

    /// The configuration.
    pub fn config(&self) -> (c: &FakeTlsConfig)
        ensures
            *c == self@.config,
    {
        &self.config
    }

    /// Where the handshake is.
    pub fn state(&self) -> (s: FakeTlsState)
        ensures
            s == self@.state,
    {
        self.state
    }

    /// The next state of the handshake: a hello went out or came, or both have.
    pub fn advance(&mut self)
        ensures
            final(self)@ == (LegState {
                state: match old(self)@.state {
                    FakeTlsState::Init => FakeTlsState::ClientHelloDone,
                    FakeTlsState::ClientHelloDone => FakeTlsState::ServerHelloDone,
                    _ => FakeTlsState::ApplicationData,
                },
                ..old(self)@
            }),
    {
        self.state = match self.state {
            FakeTlsState::Init => FakeTlsState::ClientHelloDone,
            FakeTlsState::ClientHelloDone => FakeTlsState::ServerHelloDone,
            _ => FakeTlsState::ApplicationData,
        };
    }

    /// Whether the leg takes payloads: it is connected and the handshake is done.
    pub fn is_available(&self) -> (b: bool)
        ensures
            b == (self@.available && self@.state == FakeTlsState::ApplicationData),
    {
        self.available && self.state == FakeTlsState::ApplicationData
    }

    /// The round trip, in milliseconds.
    pub fn rtt_ms(&self) -> (n: u32)
        ensures
            n == self@.rtt_ms,
    {
        self.rtt_ms
    }

    /// The loss, in percent: none, as on any stream.
    pub fn loss_percent(&self) -> (n: u8)
        ensures
            n == 0,
    {
        0
    }

    /// Note that the connection is gone.
    pub fn close(&mut self)
        ensures
            final(self)@ == (LegState { available: false, ..old(self)@ }),
    {
        self.available = false;
    }

    /// Wrap a payload into a record, under the next number of the counter.
    pub fn wrap_as_tls_record(&mut self, data: &[u8]) -> (record: Vec<u8>)
        requires
            data@.len() < MAX_PLAINTEXT,
        ensures
            ({
                let l = old(self)@;
                let nonce = nonce_of(l.keys.nonce_prefix@, l.send_counter);
                let sealed = aes256gcm_sealed(l.keys.send@, nonce, inner_text(data@));
                &&& record@ == data_record(l.config.version, sealed)
                &&& sealed.len() == data@.len() + 17
                &&& aes256gcm_opened(l.keys.send@, nonce, sealed) == Some(inner_text(data@))
                &&& final(self)@ == (LegState {
                    send_counter: l.send_counter.wrapping_add(1),
                    ..l
                })
            }),
    {
        let mut text: Vec<u8> = copy_bytes(data);
        text.push(CONTENT_APPLICATION_DATA);
        let counter: u64 = self.send_counter;
        self.send_counter = self.send_counter.wrapping_add(1);
        let nonce: [u8; 12] = make_nonce(&self.keys.nonce_prefix, counter);
        let sealed: Vec<u8> = aes256gcm_seal(&self.keys.send, &nonce, text.as_slice());
        let mut record: Vec<u8> = vec![CONTENT_APPLICATION_DATA];
        assert(record@ =~= seq![CONTENT_APPLICATION_DATA]);
        push_u16(&mut record, self.config.version);
        push_u16_vec(&mut record, sealed.as_slice());
        record
    }

    /// The payload of a record, under the next number of the counter. A record without a
    /// whole header uses no number up.
    pub fn unwrap_tls_record(&mut self, record: &[u8]) -> (r: Result<Vec<u8>, FakeTlsError>)
        ensures
            match unwrapped(
                old(self)@.keys.nonce_prefix@,
                old(self)@.keys.recv@,
                old(self)@.recv_counter,
                record@,
            ) {
                Ok(data) => r matches Ok(got) && got@ == data,
                Err(e) => r == Err::<Vec<u8>, FakeTlsError>(e),
            },
            final(self)@ == (if record@.len() < 5 {
                old(self)@
            } else {
                LegState { recv_counter: old(self)@.recv_counter.wrapping_add(1), ..old(self)@ }
            }),
    {
        if record.len() < 5 {
            return Err(FakeTlsError::RecordTooShort);
        }
        let payload: &[u8] = slice_subrange(record, 5, record.len());
        assert(payload@ =~= record@.skip(5));
        let counter: u64 = self.recv_counter;
        self.recv_counter = self.recv_counter.wrapping_add(1);
        let nonce: [u8; 12] = make_nonce(&self.keys.nonce_prefix, counter);
        match aes256gcm_open(&self.keys.recv, &nonce, payload) {
            Some(text) => {
                if text.len() == 0 {
                    return Err(FakeTlsError::EmptyInnerPlaintext);
                }
                let data: &[u8] = slice_subrange(text.as_slice(), 0, text.len() - 1);
                assert(data@ =~= text@.drop_last());
                Ok(copy_bytes(data))
            },
            None => Err(FakeTlsError::DecryptionFailed),
        }
    }

    /// Whether a payload may be sent or awaited now.
    pub fn check_ready(&self) -> (r: Result<(), FakeTlsError>)
        ensures
            r is Ok <==> self@.available && self@.state == FakeTlsState::ApplicationData,
            r matches Err(e) ==> e == FakeTlsError::NotConnected,
    {
        if !self.is_available() {
            return Err(FakeTlsError::NotConnected);
        }
        Ok(())
    }

    /// Take in bytes from the connection.
    pub fn feed(&mut self, data: &[u8])
        requires
            old(self)@.waiting.len() + data@.len() <= isize::MAX,
        ensures
            final(self)@ == (LegState { waiting: old(self)@.waiting + data@, ..old(self)@ }),
    {
        extend_buffer(&mut self.read_buf, data);
    }

    /// The payload of the next record, or `None` while it is not whole.
    pub fn next_payload(&mut self) -> (r: Option<Result<Vec<u8>, FakeTlsError>>)
        ensures
            match front_record(old(self)@.waiting) {
                None => r is None && final(self)@ == old(self)@,
                Some(n) => {
                    &&& r matches Some(got) && match unwrapped(
                        old(self)@.keys.nonce_prefix@,
                        old(self)@.keys.recv@,
                        old(self)@.recv_counter,
                        old(self)@.waiting.take(n),
                    ) {
                        Ok(data) => got matches Ok(v) && v@ == data,
                        Err(e) => got == Err::<Vec<u8>, FakeTlsError>(e),
                    }
                    &&& final(self)@ == (LegState {
                        recv_counter: old(self)@.recv_counter.wrapping_add(1),
                        waiting: old(self)@.waiting.skip(n),
                        ..old(self)@
                    })
                },
            },
    {
        let have: usize = buffer_len(&self.read_buf);
        if have < 5 {
            return None;
        }
        let len: usize = read_u16(buffer_slice(&self.read_buf), 3) as usize;
        if have - 5 < len {
            return None;
        }
        let record: Vec<u8> = split_buffer(&mut self.read_buf, 5 + len);
        Some(self.unwrap_tls_record(record.as_slice()))
    }
}

/// A record that one end wrapped is unwrapped by the other one as the payload, while their
/// counters are in step. Payloads of more than 65518 bytes, whose record length the header
/// cannot hold, are left out.
pub proof fn law_record_reaches_the_other_end(
    sender: LegState,
    receiver: LegState,
    sni: Seq<u8>,
    is_server: bool,
    data: Seq<u8>,
    record: Seq<u8>,
    sealed: Seq<u8>,
    behind: Seq<u8>,
)
    requires
        keys_of(sender.keys, sni, sender.config.version, is_server),
        keys_of(receiver.keys, sni, sender.config.version, !is_server),
        receiver.recv_counter == sender.send_counter,
        record == data_record(sender.config.version, sealed),
        sealed.len() == data.len() + 17,
        sealed.len() <= 65535,
        aes256gcm_opened(
            sender.keys.send@,
            nonce_of(sender.keys.nonce_prefix@, sender.send_counter),
            sealed,
        ) == Some(inner_text(data)),
        receiver.waiting == record + behind,
    ensures
        front_record(receiver.waiting) == Some(record.len() as int),
        receiver.waiting.take(record.len() as int) == record,
        receiver.waiting.skip(record.len() as int) == behind,
        unwrapped(
            receiver.keys.nonce_prefix@,
            receiver.keys.recv@,
            receiver.recv_counter,
            record,
        ) == Ok::<Seq<u8>, FakeTlsError>(data),
{
    assert(record.skip(5) =~= sealed);
    assert(inner_text(data).drop_last() =~= data);
    let w = receiver.waiting;
    assert(w.subrange(3, 5) =~= be16(sealed.len() as int));
    crate::wire::lemma_be16_inside(w, 3, sealed.len() as int);
    assert(w.take(record.len() as int) =~= record);
    assert(w.skip(record.len() as int) =~= behind);
}

/// No two records of an end use the same nonce, short of 2^64 records.
pub proof fn law_nonces_differ(prefix: Seq<u8>, a: u64, b: u64)
    requires
        a != b,
    ensures
        nonce_of(prefix, a) != nonce_of(prefix, b),
{
    let x = be64(a as int);
    let y = be64(b as int);
    if nonce_of(prefix, a) == nonce_of(prefix, b) {
        assert(x =~= nonce_of(prefix, a).skip(prefix.len() as int));
        assert(y =~= nonce_of(prefix, b).skip(prefix.len() as int));
        let ah = a as int / 4294967296;
        let al = a as int % 4294967296;
        let bh = b as int / 4294967296;
        let bl = b as int % 4294967296;
        assert(x.take(4) =~= crate::wire::be32(ah));
        assert(y.take(4) =~= crate::wire::be32(bh));
        assert(x.skip(4) =~= crate::wire::be32(al));
        assert(y.skip(4) =~= crate::wire::be32(bl));
        crate::wire::lemma_be_round_trip(ah);
        crate::wire::lemma_be_round_trip(bh);
        crate::wire::lemma_be_round_trip(al);
        crate::wire::lemma_be_round_trip(bl);
    }
}

/// The keys of the two ends cross: what one sends with, the other receives with. Each is derived, under a text of
/// its own, from the label, the version and the server name.
pub proof fn law_keys_cross(client: OuterKeys, server: OuterKeys, sni: Seq<u8>, version: u16)
    requires
        keys_of(client, sni, version, false),
        keys_of(server, sni, version, true),
    ensures
        ({
            let seed = "phantom-faketls-outer-v1"@.map_values(|c: char| c as u8) + be16(
                version as int,
            ) + sni;
            &&& client.send@ == blake3_key_of("phantom-faketls-c2s-v1"@, seed)
            &&& server.recv@ == client.send@
            &&& server.send@ == blake3_key_of("phantom-faketls-s2c-v1"@, seed)
            &&& client.recv@ == server.send@
            &&& server.nonce_prefix@ == client.nonce_prefix@
            &&& client.nonce_prefix@ == blake3_key_of(
                "phantom-faketls-pfx-v1"@,
                seed,
            ).take(4)
        }),
{
    reveal_strlit("phantom-faketls-outer-v1");
    assert(seed_label() =~= "phantom-faketls-outer-v1"@.map_values(|c: char| c as u8));
}

/// What a record of data looks like: type 23, the version, the length, and the sealed text, whose last byte is 23
/// again once it is opened.
pub proof fn law_data_record_layout(version: u16, sealed: Seq<u8>, data: Seq<u8>)
    requires
        sealed.len() <= 65_535,
    ensures
        ({
            let r = data_record(version, sealed);
            &&& r.len() == 5 + sealed.len()
            &&& r[0] == 23
            &&& r[1] * 256 + r[2] == version
            &&& r[3] * 256 + r[4] == sealed.len()
            &&& r.skip(5) == sealed
        }),
        inner_text(data).len() == data.len() + 1,
        inner_text(data).last() == 23,
        inner_text(data).drop_last() == data,
{
    let r = data_record(version, sealed);
    assert(r[1] == be16(version as int)[0] && r[2] == be16(version as int)[1]);
    assert(r[3] == be16(sealed.len() as int)[0] && r[4] == be16(sealed.len() as int)[1]);
    assert(r.skip(5) =~= sealed);
    assert(inner_text(data).drop_last() =~= data);
}

/// What an end makes of a record: less than five bytes are refused, what does not open is refused, an empty text
/// is refused, and else the text without its last byte comes out. The nonce is the prefix and the counter.
pub proof fn law_what_a_record_holds(prefix: Seq<u8>, key: Seq<u8>, counter: u64, record: Seq<u8>)
    ensures
        ({
            let text = aes256gcm_opened(key, prefix + be64(counter as int), record.skip(5));
            let r = unwrapped(prefix, key, counter, record);
            &&& record.len() < 5 <==> r == Err::<Seq<u8>, FakeTlsError>(
                FakeTlsError::RecordTooShort,
            )
            &&& record.len() >= 5 && text is None <==> r == Err::<Seq<u8>, FakeTlsError>(
                FakeTlsError::DecryptionFailed,
            )
            &&& record.len() >= 5 && text is Some && text->0.len() == 0 <==> r == Err::<
                Seq<u8>,
                FakeTlsError,
            >(FakeTlsError::EmptyInnerPlaintext)
            &&& record.len() >= 5 && text is Some && text->0.len() > 0 ==> r == Ok::<
                Seq<u8>,
                FakeTlsError,
            >(text->0.take(text->0.len() - 1))
        }),
{
    let text = aes256gcm_opened(key, prefix + be64(counter as int), record.skip(5));
    if text is Some && text->0.len() > 0 {
        assert(text->0.drop_last() =~= text->0.take(text->0.len() - 1));
    }
}

/// When a record is whole: once its five bytes of header and as many as the header says are there.
pub proof fn law_when_a_record_is_whole(waiting: Seq<u8>)
    ensures
        waiting.len() < 5 ==> front_record(waiting) is None,
        waiting.len() >= 5 ==> {
            let n = waiting[3] * 256 + waiting[4];
            &&& waiting.len() < 5 + n ==> front_record(waiting) is None
            &&& waiting.len() >= 5 + n ==> front_record(waiting) == Some(5 + n)
        },
{
}

spec fn listed_exts(d: FakeHelloDraws, order: Seq<usize>) -> Seq<(int, Seq<u8>)> {
    order.map_values(|i: usize| (ext_type(i as int) as int, ext_body(d, i as int)))
}

proof fn lemma_list_of_three(a: u16, b: u16, c: u16)
    ensures
        list_bytes(seq![a, b, c]) == be16(a as int) + be16(b as int) + be16(c as int),
{
    let e = Seq::<u16>::empty();
    lemma_list_grows(e, a);
    lemma_list_grows(e.push(a), b);
    lemma_list_grows(e.push(a).push(b), c);
    assert(seq![a, b, c] =~= e.push(a).push(b).push(c));
    assert(list_bytes(seq![a, b, c]) =~= be16(a as int) + be16(b as int) + be16(c as int));
}

proof fn lemma_algorithms()
    ensures
        list_bytes(algorithm_list()) == be16(0x0403) + be16(0x0804) + be16(0x0401) + be16(0x0503)
            + be16(0x0805) + be16(0x0501) + be16(0x0806) + be16(0x0601),
{
    let a0 = Seq::<u16>::empty();
    let a1 = a0.push(0x0403);
    lemma_list_grows(a0, 0x0403);
    let a2 = a1.push(0x0804);
    lemma_list_grows(a1, 0x0804);
    let a3 = a2.push(0x0401);
    lemma_list_grows(a2, 0x0401);
    let a4 = a3.push(0x0503);
    lemma_list_grows(a3, 0x0503);
    let a5 = a4.push(0x0805);
    lemma_list_grows(a4, 0x0805);
    let a6 = a5.push(0x0501);
    lemma_list_grows(a5, 0x0501);
    let a7 = a6.push(0x0806);
    lemma_list_grows(a6, 0x0806);
    let a8 = a7.push(0x0601);
    lemma_list_grows(a7, 0x0601);
    assert(algorithm_list() =~= a8);
    assert(list_bytes(a8) =~= be16(0x0403) + be16(0x0804) + be16(0x0401) + be16(0x0503) + be16(
        0x0805,
    ) + be16(0x0501) + be16(0x0806) + be16(0x0601));
}

proof fn lemma_bodies(d: FakeHelloDraws)
    ensures
        ext_body(d, 0) == be16(6) + be16(grease_from(d.group_grease) as int) + be16(0x001d) + be16(
            0x0017,
        ),
        ext_body(d, 2) == be16(16) + (be16(0x0403) + be16(0x0804) + be16(0x0401) + be16(0x0503)
            + be16(0x0805) + be16(0x0501) + be16(0x0806) + be16(0x0601)),
        ext_body(d, 4) == seq![6u8] + be16(grease_from(d.version_grease) as int) + be16(0x0304)
            + be16(0x0303),
        forall|i: int| 0 <= i < 5 ==> #[trigger] ext_body(d, i).len() < 100,
{
    lemma_list_of_three(grease_from(d.group_grease), 0x001d, 0x0017);
    lemma_list_of_three(grease_from(d.version_grease), 0x0304, 0x0303);
    lemma_algorithms();
    assert(ext_body(d, 0) =~= be16(6) + be16(grease_from(d.group_grease) as int) + be16(0x001d)
        + be16(0x0017));
    assert(ext_body(d, 4) =~= seq![6u8] + be16(grease_from(d.version_grease) as int) + be16(0x0304)
        + be16(0x0303));
    assert(ext_body(d, 3).len() == 43);
}

proof fn lemma_exts_listed(d: FakeHelloDraws, order: Seq<usize>, rest: Seq<u8>)
    requires
        forall|i: int| 0 <= i < order.len() ==> (#[trigger] order[i]) < 5,
        extension_list(rest) is Some,
    ensures
        extension_list(exts_in_order(d, order) + rest) == Some(
            listed_exts(d, order) + extension_list(rest)->0,
        ),
    decreases order.len(),
{
    if order.len() == 0 {
        assert(exts_in_order(d, order) + rest =~= rest);
        assert(listed_exts(d, order) + extension_list(rest)->0 =~= extension_list(rest)->0);
    } else {
        let k = order.last() as int;
        let one = extension_bytes(ext_type(k), ext_body(d, k));
        lemma_bodies(d);
        assert(order[order.len() - 1] < 5);
        lemma_extension_listed(ext_type(k), ext_body(d, k), rest);
        lemma_exts_listed(d, order.drop_last(), one + rest);
        assert(exts_in_order(d, order) + rest =~= exts_in_order(d, order.drop_last()) + (one + rest));
        assert(listed_exts(d, order.drop_last()) + (seq![(ext_type(k) as int, ext_body(d, k))]
            + extension_list(rest)->0) =~= listed_exts(d, order) + extension_list(rest)->0);
    }
}

proof fn lemma_place_of(order: Seq<usize>, k: usize) -> (m: int)
    requires
        is_order(order, 5),
        k < 5,
    ensures
        0 <= m < 5,
        order[m] == k,
{
    assert(order[0] < 5 && order[1] < 5 && order[2] < 5 && order[3] < 5 && order[4] < 5);
    assert(order[0] != order[1] && order[0] != order[2] && order[0] != order[3] && order[0]
        != order[4]);
    assert(order[1] != order[2] && order[1] != order[3] && order[1] != order[4]);
    assert(order[2] != order[3] && order[2] != order[4] && order[3] != order[4]);
    if order[0] == k {
        0
    } else if order[1] == k {
        1
    } else if order[2] == k {
        2
    } else if order[3] == k {
        3
    } else {
        4
    }
}

proof fn lemma_only_one(d: FakeHelloDraws, name: Seq<u8>, k: usize)
    requires
        is_order(d.order@, 5),
        k < 5,
    ensures
        ({
            let l = seq![(0int, name)] + (listed_exts(d, d.order@) + seq![
                (21int, zero_bytes(d.padding as int)),
            ]);
            only_one(l, ext_type(k as int) as int, ext_body(d, k as int))
        }),
{
    let l = seq![(0int, name)] + (listed_exts(d, d.order@) + seq![
        (21int, zero_bytes(d.padding as int)),
    ]);
    let t = ext_type(k as int) as int;
    let m = lemma_place_of(d.order@, k);
    assert(l[m + 1] == (t, ext_body(d, k as int)));
    assert forall|i: int|
        0 <= i < l.len() && (#[trigger] l[i]).0 == t implies i == m + 1 by {
        if 1 <= i <= 5 {
            assert(d.order@[i - 1] < 5);
            assert(l[i].0 == ext_type(d.order@[i - 1] as int));
            assert(d.order@[i - 1] == k);
        }
    }
}

/// The extensions that an observer reads in any hello of a client: seven, the server name first and the zeros of
/// the padding last. Between them, each once and in any order: the groups x25519 and P-256, the point format, the
/// signature algorithms, one key for x25519, and the versions TLS 1.3 and 1.2, with a reserved number in front of
/// groups, keys and versions.
pub proof fn law_hello_extensions_are_readable(sni: Seq<u8>, d: FakeHelloDraws)
    requires
        d.wf(),
        sni.len() < 65_000,
    ensures
        ({
            let l = extension_list(hello_exts(sni, d));
            &&& l is Some
            &&& l->0.len() == 7
            &&& l->0[0] == (0int, be16(sni.len() as int + 3) + (seq![0u8] + (be16(sni.len() as int) + sni)))
            &&& l->0[6] == (21int, Seq::new(d.padding as nat, |i: int| 0u8))
            &&& only_one(
                l->0,
                10,
                be16(6) + be16(grease_from(d.group_grease) as int) + be16(0x001d) + be16(0x0017),
            )
            &&& only_one(l->0, 11, seq![1u8, 0u8])
            &&& only_one(
                l->0,
                13,
                be16(16) + (be16(0x0403) + be16(0x0804) + be16(0x0401) + be16(0x0503) + be16(0x0805)
                    + be16(0x0501) + be16(0x0806) + be16(0x0601)),
            )
            &&& only_one(
                l->0,
                51,
                be16(41) + be16(grease_from(d.share_grease) as int) + be16(1) + seq![0u8] + be16(
                    0x001d,
                ) + be16(32) + d.share@,
            )
            &&& only_one(
                l->0,
                43,
                seq![6u8] + be16(grease_from(d.version_grease) as int) + be16(0x0304) + be16(0x0303),
            )
        }),
{
    let name = vec16(seq![0u8] + vec16(sni));
    let pad = extension_bytes(21, zero_bytes(d.padding as int));
    let empty = Seq::<u8>::empty();
    lemma_extension_listed(21, zero_bytes(d.padding as int), empty);
    assert(pad + empty =~= pad);
    assert(extension_list(empty) == Some(Seq::<(int, Seq<u8>)>::empty()));
    let last = seq![(21int, zero_bytes(d.padding as int))];
    assert(last + Seq::<(int, Seq<u8>)>::empty() =~= last);
    lemma_exts_listed(d, d.order@, pad);
    let rest = exts_in_order(d, d.order@) + pad;
    lemma_extension_listed(0, name, rest);
    assert(hello_exts(sni, d) =~= extension_bytes(0, name) + rest);
    lemma_bodies(d);
    lemma_only_one(d, name, 0);
    lemma_only_one(d, name, 1);
    lemma_only_one(d, name, 2);
    lemma_only_one(d, name, 3);
    lemma_only_one(d, name, 4);
}

proof fn lemma_record_front(version: u16, message_type: u8, random: Seq<u8>, rest: Seq<u8>)
    requires
        random.len() == 32,
        rest.len() <= 65_000,
    ensures
        ({
            let body = be16(0x0303) + random + rest;
            let r = hello_record(version, message_type, body);
            &&& r[0] == 22
            &&& be16_at(r, 1) == version
            &&& be16_at(r, 3) == r.len() - 5
            &&& r[5] == message_type
            &&& be24_at(r, 6) == r.len() - 9
            &&& be16_at(r, 9) == 0x0303
            &&& r.subrange(11, 43) == random
            &&& r.skip(43) == rest
        }),
{
    let body = be16(0x0303) + random + rest;
    let r = hello_record(version, message_type, body);
    let n = body.len() as int;
    assert(r[1] == be16(version as int)[0] && r[2] == be16(version as int)[1]);
    assert(r[3] == be16(n + 4)[0] && r[4] == be16(n + 4)[1]);
    assert(r[6] == be24(n)[0] && r[7] == be24(n)[1] && r[8] == be24(n)[2]);
    assert(r[9] == be16(0x0303)[0] && r[10] == be16(0x0303)[1]);
    assert(r.subrange(11, 43) =~= random);
    assert(r.skip(43) =~= rest);
}

/// A server's hello: a handshake record that holds a message of type 2 with the random, no session id, the suite
/// 0x1302, no compression, and one extension, a key share for x25519 without a key.
pub proof fn law_server_hello_in_numbers(version: u16, random: Seq<u8>)
    requires
        random.len() == 32,
    ensures
        ({
            let r = hello_record(version, 2, server_body(random));
            &&& r[0] == 22
            &&& be16_at(r, 1) == version
            &&& be16_at(r, 3) == r.len() - 5
            &&& r[5] == 2
            &&& be24_at(r, 6) == r.len() - 9
            &&& be16_at(r, 9) == 0x0303
            &&& r.subrange(11, 43) == random
            &&& r.skip(43) == seq![0u8, 0x13, 0x02, 0, 0, 8, 0, 51, 0, 4, 0, 0x1d, 0, 0]
        }),
{
    let rest = seq![0u8] + be16(0x1302) + seq![0u8] + vec16(
        extension_bytes(51, be16(0x001d) + be16(0)),
    );
    lemma_record_front(version, 2, random, rest);
    assert(server_body(random) =~= be16(0x0303) + random + rest);
    assert(rest =~= seq![0u8, 0x13, 0x02, 0, 0, 8, 0, 51, 0, 4, 0, 0x1d, 0, 0]);
}

proof fn lemma_list_len(list: Seq<u16>)
    ensures
        list_bytes(list).len() == 2 * list.len(),
    decreases list.len(),
{
    if list.len() > 0 {
        lemma_list_len(list.drop_last());
    }
}

proof fn lemma_exts_len(d: FakeHelloDraws, order: Seq<usize>)
    requires
        forall|i: int| 0 <= i < order.len() ==> (#[trigger] order[i]) < 5,
    ensures
        exts_in_order(d, order).len() <= 104 * order.len(),
    decreases order.len(),
{
    if order.len() > 0 {
        lemma_exts_len(d, order.drop_last());
        assert(order[order.len() - 1] < 5);
        lemma_bodies(d);
        let k = order.last() as int;
        assert(ext_body(d, k).len() < 100);
    }
}

proof fn lemma_regrouped(
    front: Seq<u8>,
    a: Seq<u8>,
    b: Seq<u8>,
    c: Seq<u8>,
    d: Seq<u8>,
    e: Seq<u8>,
)
    ensures
        front + a + b + c + d + e == front + (a + b + c + d + e),
{
    assert(front + a + b + c + d + e =~= front + (a + b + c + d + e));
}

proof fn lemma_rest(session_id: Seq<u8>, list: Seq<u8>, exts: Seq<u8>)
    requires
        session_id.len() == 32,
        list.len() <= 100,
        exts.len() <= 65_535,
    ensures
        ({
            let rest = seq![32u8] + session_id + vec16(list) + seq![1u8, 0u8] + vec16(exts);
            let n = list.len() as int;
            &&& rest.len() == 39 + n + exts.len()
            &&& rest[0] == 32
            &&& rest.subrange(1, 33) == session_id
            &&& be16_at(rest, 33) == n
            &&& rest.subrange(35, 35 + n) == list
            &&& rest[35 + n] == 1 && rest[36 + n] == 0
            &&& be16_at(rest, 37 + n) == exts.len()
            &&& rest.skip(39 + n) == exts
        }),
{
    let rest = seq![32u8] + session_id + vec16(list) + seq![1u8, 0u8] + vec16(exts);
    let n = list.len() as int;
    assert(rest.subrange(1, 33) =~= session_id);
    assert(rest[33] == be16(n)[0] && rest[34] == be16(n)[1]);
    assert(rest.subrange(35, 35 + n) =~= list);
    assert(rest[37 + n] == be16(exts.len() as int)[0]);
    assert(rest[38 + n] == be16(exts.len() as int)[1]);
    assert(rest.skip(39 + n) =~= exts);
}

proof fn lemma_behind(r: Seq<u8>, rest: Seq<u8>, n: int)
    requires
        r.len() >= 43,
        r.skip(43) == rest,
        0 <= n,
        rest.len() >= 39 + 2 * n,
    ensures
        r.len() == 43 + rest.len(),
        r[43] == rest[0],
        r.subrange(44, 76) == rest.subrange(1, 33),
        be16_at(r, 76) == be16_at(rest, 33),
        r.subrange(78, 78 + 2 * n) == rest.subrange(35, 35 + 2 * n),
        r[78 + 2 * n] == rest[35 + 2 * n],
        r[79 + 2 * n] == rest[36 + 2 * n],
        be16_at(r, 80 + 2 * n) == be16_at(rest, 37 + 2 * n),
        r.skip(82 + 2 * n) == rest.skip(39 + 2 * n),
{
    assert forall|i: int| 0 <= i < rest.len() implies r[43 + i] == #[trigger] rest[i] by {
        assert(r.skip(43)[i] == rest[i]);
    }
    assert(r[43] == rest[0]);
    assert(r[76] == rest[33] && r[77] == rest[34]);
    assert(r[78 + 2 * n] == rest[35 + 2 * n]);
    assert(r[79 + 2 * n] == rest[36 + 2 * n]);
    assert(r[80 + 2 * n] == rest[37 + 2 * n]);
    assert(r[81 + 2 * n] == rest[38 + 2 * n]);
    assert(r.subrange(44, 76) =~= rest.subrange(1, 33));
    assert(r.subrange(78, 78 + 2 * n) =~= rest.subrange(35, 35 + 2 * n));
    assert(r.skip(82 + 2 * n) =~= rest.skip(39 + 2 * n));
}

/// A client's hello: a handshake record that holds a message of type 1 with the random, the session id of 32 bytes,
/// the suites behind their length, no compression, and the extensions behind their length.
pub proof fn law_client_hello_in_numbers(version: u16, sni: Seq<u8>, d: FakeHelloDraws)
    requires
        d.wf(),
        sni.len() <= 60_000,
    ensures
        ({
            let r = hello_record(version, 1, hello_body(sni, d));
            let n = suites_of(d).len() as int;
            &&& r[0] == 22
            &&& be16_at(r, 1) == version
            &&& be16_at(r, 3) == r.len() - 5
            &&& r[5] == 1
            &&& be24_at(r, 6) == r.len() - 9
            &&& be16_at(r, 9) == 0x0303
            &&& r.subrange(11, 43) == d.random@
            &&& r[43] == 32
            &&& r.subrange(44, 76) == d.session_id@
            &&& be16_at(r, 76) == 2 * n
            &&& r.subrange(78, 78 + 2 * n) == list_bytes(suites_of(d))
            &&& r[78 + 2 * n] == 1 && r[79 + 2 * n] == 0
            &&& be16_at(r, 80 + 2 * n) == r.len() - (82 + 2 * n)
            &&& r.skip(82 + 2 * n) == hello_exts(sni, d)
        }),
{
    let list = list_bytes(suites_of(d));
    let exts = hello_exts(sni, d);
    let n = suites_of(d).len() as int;
    lemma_list_len(suites_of(d));
    lemma_exts_len(d, d.order@);
    assert(zero_bytes(d.padding as int).len() == d.padding);
    assert(exts.len() <= 61_000);
    let rest = seq![32u8] + d.session_id@ + vec16(list) + seq![1u8, 0u8] + vec16(exts);
    assert(hello_body(sni, d) == be16(0x0303) + d.random@ + rest) by {
        lemma_regrouped(
            be16(0x0303) + d.random@,
            seq![32u8],
            d.session_id@,
            vec16(list),
            seq![1u8, 0u8],
            vec16(exts),
        );
    }
    lemma_rest(d.session_id@, list, exts);
    lemma_record_front(version, 1, d.random@, rest);
    let r = hello_record(version, 1, hello_body(sni, d));
    lemma_behind(r, rest, n);
}

/// The suites of a hello: four to ten, one of them the reserved number that the draw selects, where the draw puts
/// it, and the others different ones of nine.
pub proof fn law_suites_of_a_hello(d: FakeHelloDraws)
    requires
        d.wf(),
    ensures
        4 <= suites_of(d).len() <= 10,
        suites_of(d)[d.grease_at as int] == 0x0a0a + 0x1010 * (d.suite_grease / 16),
        forall|i: int|
            0 <= i < suites_of(d).len() && i != d.grease_at ==> ({
                let s = #[trigger] suites_of(d)[i];
                s == 0x1301 || s == 0x1302 || s == 0x1303 || s == 0xc02b || s == 0xc02c || s
                    == 0xc02f || s == 0xc030 || s == 0xcca9 || s == 0xcca8
            }),
        forall|i: int, j: int|
            0 <= i < j < suites_of(d).len() ==> #[trigger] suites_of(d)[i] != #[trigger] suites_of(
                d,
            )[j],
{
    let places = d.suites@;
    let all = suites_at(places);
    let s = suites_of(d);
    assert forall|i: int| 0 <= i < places.len() implies #[trigger] all[i]
        == suite_table()[places[i] as int] && places[i] < 9 by {}
    assert forall|i: int| 0 <= i < s.len() && i != d.grease_at implies #[trigger] s[i] == all[if i
        < d.grease_at {
        i
    } else {
        i - 1
    }] by {}
    assert forall|i: int, j: int| 0 <= i < j < s.len() implies #[trigger] s[i]
        != #[trigger] s[j] by {
        let a: int = if i < d.grease_at {
            i
        } else {
            i - 1
        };
        let b: int = if j < d.grease_at {
            j
        } else {
            j - 1
        };
        if i != d.grease_at && j != d.grease_at {
            assert(s[i] == all[a] && s[j] == all[b]);
            assert(places[a] != places[b]);
        } else if i == d.grease_at {
            assert(s[j] == all[b]);
        } else {
            assert(s[i] == all[a]);
        }
    }
}

} // verus!
