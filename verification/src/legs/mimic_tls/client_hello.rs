//! Synthesis of a browser-shaped TLS 1.3 ClientHello.
//!
//! Everything that differs between connections (the random, the session id, the key
//! shares, the GREASE codepoints and the extension order) is drawn afresh; the rest is
//! the profile below, which is refreshed from live captures.

use crate::errors::CoreError;
use crate::random::os_random;
use crate::wire::{append, be16, be24, le64_at, read_u64_le, to_array, zeros};
use vstd::prelude::*;
use vstd::string::StringSliceAdditionalSpecFns;

verus! {

/// When the profile was captured, as `YYYYMM`.
pub const PROFILE_CAPTURED: u32 = 202506;

/// Version field of every hello.
pub const TLS_LEGACY_VERSION: u16 = 0x0303;

/// Handshake type of a ClientHello.
pub const HS_TYPE_CLIENT_HELLO: u8 = 0x01;

pub const EXT_SERVER_NAME: u16 = 0x0000;

pub const EXT_STATUS_REQUEST: u16 = 0x0005;

pub const EXT_SUPPORTED_GROUPS: u16 = 0x000a;

pub const EXT_EC_POINT_FORMATS: u16 = 0x000b;

pub const EXT_SIGNATURE_ALGORITHMS: u16 = 0x000d;

pub const EXT_ALPN: u16 = 0x0010;

pub const EXT_SCT: u16 = 0x0012;

pub const EXT_PADDING: u16 = 0x0015;

pub const EXT_EXTENDED_MASTER_SECRET: u16 = 0x0017;

pub const EXT_COMPRESS_CERTIFICATE: u16 = 0x001b;

pub const EXT_SESSION_TICKET: u16 = 0x0023;

pub const EXT_PSK_KEY_EXCHANGE_MODES: u16 = 0x002d;

pub const EXT_SUPPORTED_VERSIONS: u16 = 0x002b;

pub const EXT_KEY_SHARE: u16 = 0x0033;

pub const EXT_APPLICATION_SETTINGS: u16 = 0x4469;

pub const EXT_RENEGOTIATION_INFO: u16 = 0xff01;

/// The hybrid post-quantum group.
pub const GROUP_X25519_MLKEM768: u16 = 0x11ec;

pub const GROUP_X25519: u16 = 0x001d;

pub const GROUP_SECP256R1: u16 = 0x0017;

pub const GROUP_SECP384R1: u16 = 0x0018;

/// The number of extensions before padding.
pub const EXTENSION_COUNT: usize = 17;

/// Length on the wire of a public key of `group`.
pub open spec fn key_exchange_len(group: u16) -> nat {
    if group == GROUP_X25519_MLKEM768 {
        1216
    } else if group == GROUP_SECP256R1 {
        65
    } else if group == GROUP_SECP384R1 {
        97
    } else {
        32
    }
}

/// Length on the wire of a public key of `group`.
pub fn group_key_exchange_len(group: u16) -> (n: usize)
    ensures
        n == key_exchange_len(group),
{
    if group == GROUP_X25519_MLKEM768 {
        1216
    } else if group == GROUP_SECP256R1 {
        65
    } else if group == GROUP_SECP384R1 {
        97
    } else {
        32
    }
}

/// The cipher suites of the profile, in order.
pub open spec fn profile_cipher_suites() -> Seq<u16> {
    seq![
        0x1301u16, 0x1302u16, 0x1303u16, 0xc02bu16, 0xc02fu16, 0xc02cu16, 0xc030u16, 0xcca9u16,
        0xcca8u16, 0xc013u16, 0xc014u16, 0x009cu16, 0x009du16, 0x002fu16, 0x0035u16,
    ]
}

/// The groups of the profile, in order.
pub open spec fn profile_groups() -> Seq<u16> {
    seq![GROUP_X25519_MLKEM768, GROUP_X25519, GROUP_SECP256R1, GROUP_SECP384R1]
}

/// The signature algorithms of the profile, in order.
pub open spec fn profile_signature_algorithms() -> Seq<u16> {
    seq![
        0x0403u16, 0x0804u16, 0x0401u16, 0x0503u16, 0x0805u16, 0x0501u16, 0x0806u16, 0x0601u16,
    ]
}

fn cipher_suites() -> (v: Vec<u16>)
    ensures
        v@ == profile_cipher_suites(),
{
    let v: Vec<u16> = vec![
        0x1301, 0x1302, 0x1303, 0xc02b, 0xc02f, 0xc02c, 0xc030, 0xcca9, 0xcca8, 0xc013, 0xc014,
        0x009c, 0x009d, 0x002f, 0x0035,
    ];
    assert(v@ =~= profile_cipher_suites());
    v
}

fn groups() -> (v: Vec<u16>)
    ensures
        v@ == profile_groups(),
{
    let v: Vec<u16> = vec![
        GROUP_X25519_MLKEM768, GROUP_X25519, GROUP_SECP256R1, GROUP_SECP384R1,
    ];
    assert(v@ =~= profile_groups());
    v
}

fn signature_algorithms() -> (v: Vec<u16>)
    ensures
        v@ == profile_signature_algorithms(),
{
    let v: Vec<u16> = vec![0x0403, 0x0804, 0x0401, 0x0503, 0x0805, 0x0501, 0x0806, 0x0601];
    assert(v@ =~= profile_signature_algorithms());
    v
}

/// Whether `v` is one of the sixteen GREASE codepoints.
pub open spec fn grease(v: u16) -> bool {
    v / 256 == v % 256 && v % 16 == 10
}

/// Whether `v` is one of the sixteen GREASE codepoints.
pub fn is_grease(v: u16) -> (b: bool)
    ensures
        b == grease(v),
{
    v / 256 == v % 256 && v % 16 == 10
}

/// The GREASE codepoint that a random number selects.
pub open spec fn grease_of(draw: u64) -> u16 {
    ((draw % 16) * 4112 + 2570) as u16
}

/// The GREASE codepoint that a random number selects.
pub fn grease_value(draw: u64) -> (v: u16)
    ensures
        v == grease_of(draw),
        grease(v),
{
    let n: u16 = (draw % 16) as u16;
    n * 4112 + 2570
}

/// The big-endian bytes of the numbers of a list.
pub open spec fn list_bytes(list: Seq<u16>) -> Seq<u8>
    decreases list.len(),
{
    if list.len() == 0 {
        Seq::empty()
    } else {
        list_bytes(list.drop_last()) + be16(list.last() as int)
    }
}

/// A byte string behind its two-byte length.
pub open spec fn vec16(body: Seq<u8>) -> Seq<u8> {
    be16(body.len() as int) + body
}

/// One extension: its type, the length of its data, its data.
pub open spec fn extension_bytes(ext_type: u16, data: Seq<u8>) -> Seq<u8> {
    be16(ext_type as int) + vec16(data)
}

/// Append the low two bytes of a length, big-endian.
pub fn push_len16(out: &mut Vec<u8>, n: usize)
    ensures
        final(out)@ == old(out)@ + be16(n as int),
{
    out.push((n / 256 % 256) as u8);
    out.push((n % 256) as u8);
    assert(out@ =~= old(out)@ + be16(n as int));
}

/// Append the low three bytes of a length, big-endian.
pub fn push_len24(out: &mut Vec<u8>, n: usize)
    ensures
        final(out)@ == old(out)@ + be24(n as int),
{
    out.push((n / 65536 % 256) as u8);
    out.push((n / 256 % 256) as u8);
    out.push((n % 256) as u8);
    assert(out@ =~= old(out)@ + be24(n as int));
}

/// Append a byte string behind its two-byte length.
pub fn push_u16_vec(out: &mut Vec<u8>, body: &[u8])
    ensures
        final(out)@ == old(out)@ + vec16(body@),
{
    push_len16(out, body.len());
    append(out, body);
    assert(out@ =~= old(out)@ + vec16(body@));
}

/// Append the numbers of a list.
pub fn push_u16_list(out: &mut Vec<u8>, list: &Vec<u16>)
    ensures
        final(out)@ == old(out)@ + list_bytes(list@),
{
    let mut i: usize = 0;
    assert(list@.take(0) =~= Seq::<u16>::empty());
    assert(out@ =~= old(out)@ + list_bytes(list@.take(0)));
    while i < list.len()
        invariant
            i <= list@.len(),
            out@ == old(out)@ + list_bytes(list@.take(i as int)),
        decreases list@.len() - i,
    {
        let ghost before = out@;
        crate::wire::push_u16(out, list[i]);
        proof {
            let next = list@.take(i + 1);
            assert(next.drop_last() =~= list@.take(i as int));
            assert(next.last() == list@[i as int]);
            assert(out@ =~= old(out)@ + list_bytes(next));
        }
        i += 1;
    }
    assert(list@.take(i as int) =~= list@);
}

/// Encode one extension.
pub fn extension(ext_type: u16, data: &[u8]) -> (e: Vec<u8>)
    ensures
        e@ == extension_bytes(ext_type, data@),
{
    let mut e: Vec<u8> = Vec::new();
    crate::wire::push_u16(&mut e, ext_type);
    push_u16_vec(&mut e, data);
    assert(e@ =~= extension_bytes(ext_type, data@));
    e
}

/// What is drawn afresh for one ClientHello.
pub struct ClientHelloDraws {
    /// GREASE codepoints of the cipher list, the group list, the first and the last
    /// extension, the version list and the key share.
    pub grease_cipher: u16,
    pub grease_group: u16,
    pub grease_ext_first: u16,
    pub grease_ext_last: u16,
    pub grease_version: u16,
    pub grease_key_share: u16,
    /// The hello random.
    pub random: [u8; 32],
    /// The legacy session id.
    pub session_id: [u8; 32],
    /// The key share of the hybrid group.
    pub hybrid_share: Vec<u8>,
    /// The key share of x25519.
    pub x25519_share: Vec<u8>,
    /// The numbers that drive the extension shuffle.
    pub picks: Vec<u64>,
}

impl ClientHelloDraws {
    /// Every GREASE field is a GREASE codepoint, the shares have the length of their
    /// group, and there is one number for each shuffle step.
    pub open spec fn wf(&self) -> bool {
        &&& grease(self.grease_cipher)
        &&& grease(self.grease_group)
        &&& grease(self.grease_ext_first)
        &&& grease(self.grease_ext_last)
        &&& grease(self.grease_version)
        &&& grease(self.grease_key_share)
        &&& self.hybrid_share@.len() == 1216
        &&& self.x25519_share@.len() == 32
        &&& self.picks@.len() == EXTENSION_COUNT - 1
    }
}

/// The key shares: one GREASE share of a zero byte, then the two real groups.
pub open spec fn key_shares(d: ClientHelloDraws) -> Seq<u8> {
    be16(d.grease_key_share as int) + vec16(seq![0u8]) + (be16(GROUP_X25519_MLKEM768 as int)
        + vec16(d.hybrid_share@)) + (be16(GROUP_X25519 as int) + vec16(d.x25519_share@))
}

/// The type of extension `i` before the shuffle.
pub open spec fn hello_ext_type(d: ClientHelloDraws, i: int) -> u16 {
    if i == 0 {
        d.grease_ext_first
    } else if i == 1 {
        EXT_SERVER_NAME
    } else if i == 2 {
        EXT_EXTENDED_MASTER_SECRET
    } else if i == 3 {
        EXT_RENEGOTIATION_INFO
    } else if i == 4 {
        EXT_SUPPORTED_GROUPS
    } else if i == 5 {
        EXT_EC_POINT_FORMATS
    } else if i == 6 {
        EXT_SESSION_TICKET
    } else if i == 7 {
        EXT_ALPN
    } else if i == 8 {
        EXT_STATUS_REQUEST
    } else if i == 9 {
        EXT_SIGNATURE_ALGORITHMS
    } else if i == 10 {
        EXT_SCT
    } else if i == 11 {
        EXT_KEY_SHARE
    } else if i == 12 {
        EXT_PSK_KEY_EXCHANGE_MODES
    } else if i == 13 {
        EXT_SUPPORTED_VERSIONS
    } else if i == 14 {
        EXT_COMPRESS_CERTIFICATE
    } else if i == 15 {
        EXT_APPLICATION_SETTINGS
    } else {
        d.grease_ext_last
    }
}

/// The data of extension `i` before the shuffle.
pub open spec fn hello_ext_data(sni: Seq<u8>, d: ClientHelloDraws, i: int) -> Seq<u8> {
    if i == 1 {
        vec16(seq![0u8] + vec16(sni))
    } else if i == 3 {
        seq![0u8]
    } else if i == 4 {
        vec16(be16(d.grease_group as int) + list_bytes(profile_groups()))
    } else if i == 5 {
        seq![1u8, 0u8]
    } else if i == 7 {
        // "h2" and "http/1.1", each behind its length
        vec16(
            seq![
                2u8, 0x68u8, 0x32u8, 8u8, 0x68u8, 0x74u8, 0x74u8, 0x70u8, 0x2fu8, 0x31u8, 0x2eu8,
                0x31u8,
            ],
        )
    } else if i == 8 {
        seq![1u8, 0u8, 0u8, 0u8, 0u8]
    } else if i == 9 {
        vec16(list_bytes(profile_signature_algorithms()))
    } else if i == 11 {
        vec16(key_shares(d))
    } else if i == 12 {
        seq![1u8, 1u8]
    } else if i == 13 {
        seq![4u8] + be16(d.grease_version as int) + be16(0x0304)
    } else if i == 14 {
        seq![2u8, 0u8, 2u8]
    } else if i == 15 {
        vec16(seq![2u8, 0x68u8, 0x32u8])
    } else {
        Seq::empty()
    }
}

/// Extension `i` before the shuffle.
pub open spec fn hello_extension(sni: Seq<u8>, d: ClientHelloDraws, i: int) -> Seq<u8> {
    extension_bytes(hello_ext_type(d, i), hello_ext_data(sni, d, i))
}

/// Swap two places of a sequence.
pub open spec fn swapped(order: Seq<usize>, i: int, j: int) -> Seq<usize> {
    order.update(i, order[j]).update(j, order[i])
}

/// The Fisher-Yates shuffle of the places `0..=i`, one number of `picks` for each step.
pub open spec fn shuffled(order: Seq<usize>, picks: Seq<u64>, i: int) -> Seq<usize>
    decreases i,
{
    if i <= 0 {
        order
    } else {
        let j = picks[order.len() - 1 - i] as int % (i + 1);
        shuffled(swapped(order, i, j), picks, i - 1)
    }
}

/// The order in which the extensions are sent.
pub open spec fn extension_order(picks: Seq<u64>) -> Seq<usize> {
    shuffled(
        Seq::new(EXTENSION_COUNT as nat, |i: int| i as usize),
        picks,
        EXTENSION_COUNT - 1,
    )
}

/// The extensions that `order` names, one after another.
pub open spec fn extensions_in_order(sni: Seq<u8>, d: ClientHelloDraws, order: Seq<usize>) -> Seq<u8>
    decreases order.len(),
{
    if order.len() == 0 {
        Seq::empty()
    } else {
        extensions_in_order(sni, d, order.drop_last()) + hello_extension(
            sni,
            d,
            order.last() as int,
        )
    }
}

/// The fields before the extensions.
pub open spec fn hello_prefix(d: ClientHelloDraws) -> Seq<u8> {
    be16(TLS_LEGACY_VERSION as int) + d.random@ + seq![32u8] + d.session_id@ + vec16(
        be16(d.grease_cipher as int) + list_bytes(profile_cipher_suites()),
    ) + seq![1u8, 0u8]
}

/// The padding extension: it lifts a body of 256 to 511 bytes to 512.
pub open spec fn padding(so_far: int) -> Seq<u8> {
    if 256 <= so_far < 512 {
        extension_bytes(
            EXT_PADDING,
            Seq::new((if so_far <= 508 { 508 - so_far } else { 0 }) as nat, |i: int| 0u8),
        )
    } else {
        Seq::empty()
    }
}

/// The extension block.
pub open spec fn hello_extensions(sni: Seq<u8>, d: ClientHelloDraws) -> Seq<u8> {
    let sent = extensions_in_order(sni, d, extension_order(d.picks@));
    sent + padding((hello_prefix(d).len() + 2 + sent.len()) as int)
}

/// The whole ClientHello handshake message.
pub open spec fn client_hello_message(sni: Seq<u8>, d: ClientHelloDraws) -> Seq<u8> {
    let body = hello_prefix(d) + vec16(hello_extensions(sni, d));
    seq![HS_TYPE_CLIENT_HELLO] + be24(body.len() as int) + body
}

/// The padding extension for a body that is `so_far` bytes long, or none.
pub fn padding_extension(so_far: usize) -> (p: Option<Vec<u8>>)
    ensures
        p is Some <==> 256 <= so_far < 512,
        p matches Some(e) ==> e@ == padding(so_far as int),
{
    if so_far >= 256 && so_far < 512 {
        let pad: usize = if so_far <= 508 {
            508 - so_far
        } else {
            0
        };
        let fill: Vec<u8> = zeros(pad);
        Some(extension(EXT_PADDING, fill.as_slice()))
    } else {
        None
    }
}

/// Shuffle `order` in place with the numbers of `picks`.
pub fn shuffle(order: &mut Vec<usize>, picks: &Vec<u64>)
    requires
        old(order)@.len() <= picks@.len() + 1,
    ensures
        final(order)@ == shuffled(old(order)@, picks@, old(order)@.len() - 1),
        final(order)@.len() == old(order)@.len(),
{
    let n: usize = order.len();
    if n < 2 {
        return;
    }
    let mut i: usize = n - 1;
    while i > 0
        invariant
            i < n,
            n == order@.len(),
            n <= picks@.len() + 1,
            n == old(order)@.len(),
            shuffled(order@, picks@, i as int) == shuffled(old(order)@, picks@, n - 1),
        decreases i,
    {
        let j: usize = (picks[n - 1 - i] % (i as u64 + 1)) as usize;
        let a: usize = order[i];
        let b: usize = order[j];
        order[i] = b;
        order[j] = a;
        i -= 1;
    }
}

fn server_name_data(sni: &[u8]) -> (v: Vec<u8>)
    ensures
        v@ == vec16(seq![0u8] + vec16(sni@)),
{
    let mut entry: Vec<u8> = Vec::new();
    entry.push(0);
    push_u16_vec(&mut entry, sni);
    assert(entry@ =~= seq![0u8] + vec16(sni@));
    let mut v: Vec<u8> = Vec::new();
    push_u16_vec(&mut v, entry.as_slice());
    assert(v@ =~= vec16(entry@));
    v
}

fn greased_list_data(grease_first: u16, list: &Vec<u16>) -> (v: Vec<u8>)
    ensures
        v@ == vec16(be16(grease_first as int) + list_bytes(list@)),
{
    let mut inner: Vec<u8> = Vec::new();
    crate::wire::push_u16(&mut inner, grease_first);
    push_u16_list(&mut inner, list);
    assert(inner@ =~= be16(grease_first as int) + list_bytes(list@));
    let mut v: Vec<u8> = Vec::new();
    push_u16_vec(&mut v, inner.as_slice());
    assert(v@ =~= vec16(inner@));
    v
}

fn signature_algorithms_data() -> (v: Vec<u8>)
    ensures
        v@ == vec16(list_bytes(profile_signature_algorithms())),
{
    let mut inner: Vec<u8> = Vec::new();
    push_u16_list(&mut inner, &signature_algorithms());
    assert(inner@ =~= list_bytes(profile_signature_algorithms()));
    let mut v: Vec<u8> = Vec::new();
    push_u16_vec(&mut v, inner.as_slice());
    assert(v@ =~= vec16(inner@));
    v
}

fn key_share_data(d: &ClientHelloDraws) -> (v: Vec<u8>)
    ensures
        v@ == vec16(key_shares(*d)),
{
    let mut shares: Vec<u8> = Vec::new();
    crate::wire::push_u16(&mut shares, d.grease_key_share);
    let zero: Vec<u8> = vec![0u8];
    assert(zero@ =~= seq![0u8]);
    push_u16_vec(&mut shares, zero.as_slice());
    crate::wire::push_u16(&mut shares, GROUP_X25519_MLKEM768);
    push_u16_vec(&mut shares, d.hybrid_share.as_slice());
    crate::wire::push_u16(&mut shares, GROUP_X25519);
    push_u16_vec(&mut shares, d.x25519_share.as_slice());
    assert(shares@ =~= key_shares(*d));
    let mut v: Vec<u8> = Vec::new();
    push_u16_vec(&mut v, shares.as_slice());
    assert(v@ =~= vec16(shares@));
    v
}

fn wrapped(body: Vec<u8>) -> (v: Vec<u8>)
    ensures
        v@ == vec16(body@),
{
    let mut v: Vec<u8> = Vec::new();
    push_u16_vec(&mut v, body.as_slice());
    assert(v@ =~= vec16(body@));
    v
}

fn versions_data(grease_version: u16) -> (v: Vec<u8>)
    ensures
        v@ == seq![4u8] + be16(grease_version as int) + be16(0x0304),
{
    let mut v: Vec<u8> = Vec::new();
    v.push(4);
    crate::wire::push_u16(&mut v, grease_version);
    crate::wire::push_u16(&mut v, 0x0304);
    assert(v@ =~= seq![4u8] + be16(grease_version as int) + be16(0x0304));
    v
}

/// The data of extension `i` before the shuffle.
fn extension_data(sni: &[u8], d: &ClientHelloDraws, i: usize) -> (v: Vec<u8>)
    ensures
        v@ == hello_ext_data(sni@, *d, i as int),
{
    let v: Vec<u8> = if i == 1 {
        server_name_data(sni)
    } else if i == 3 {
        vec![0u8]
    } else if i == 4 {
        greased_list_data(d.grease_group, &groups())
    } else if i == 5 {
        vec![1u8, 0u8]
    } else if i == 7 {
        let protocols: Vec<u8> = vec![
            2u8, 0x68u8, 0x32u8, 8u8, 0x68u8, 0x74u8, 0x74u8, 0x70u8, 0x2fu8, 0x31u8, 0x2eu8,
            0x31u8,
        ];
        assert(protocols@ =~= seq![
            2u8, 0x68u8, 0x32u8, 8u8, 0x68u8, 0x74u8, 0x74u8, 0x70u8, 0x2fu8, 0x31u8, 0x2eu8,
            0x31u8,
        ]);
        wrapped(protocols)
    } else if i == 8 {
        vec![1u8, 0u8, 0u8, 0u8, 0u8]
    } else if i == 9 {
        signature_algorithms_data()
    } else if i == 11 {
        key_share_data(d)
    } else if i == 12 {
        vec![1u8, 1u8]
    } else if i == 13 {
        versions_data(d.grease_version)
    } else if i == 14 {
        vec![2u8, 0u8, 2u8]
    } else if i == 15 {
        let protocols: Vec<u8> = vec![2u8, 0x68u8, 0x32u8];
        assert(protocols@ =~= seq![2u8, 0x68u8, 0x32u8]);
        wrapped(protocols)
    } else {
        Vec::new()
    };
    assert(v@ =~= hello_ext_data(sni@, *d, i as int));
    v
}

/// The type of extension `i` before the shuffle.
fn extension_type(d: &ClientHelloDraws, i: usize) -> (t: u16)
    ensures
        t == hello_ext_type(*d, i as int),
{
    if i == 0 {
        d.grease_ext_first
    } else if i == 1 {
        EXT_SERVER_NAME
    } else if i == 2 {
        EXT_EXTENDED_MASTER_SECRET
    } else if i == 3 {
        EXT_RENEGOTIATION_INFO
    } else if i == 4 {
        EXT_SUPPORTED_GROUPS
    } else if i == 5 {
        EXT_EC_POINT_FORMATS
    } else if i == 6 {
        EXT_SESSION_TICKET
    } else if i == 7 {
        EXT_ALPN
    } else if i == 8 {
        EXT_STATUS_REQUEST
    } else if i == 9 {
        EXT_SIGNATURE_ALGORITHMS
    } else if i == 10 {
        EXT_SCT
    } else if i == 11 {
        EXT_KEY_SHARE
    } else if i == 12 {
        EXT_PSK_KEY_EXCHANGE_MODES
    } else if i == 13 {
        EXT_SUPPORTED_VERSIONS
    } else if i == 14 {
        EXT_COMPRESS_CERTIFICATE
    } else if i == 15 {
        EXT_APPLICATION_SETTINGS
    } else {
        d.grease_ext_last
    }
}

fn ordered_extensions(sni: &[u8], d: &ClientHelloDraws, order: &Vec<usize>) -> (out: Vec<u8>)
    ensures
        out@ == extensions_in_order(sni@, *d, order@),
{
    let mut out: Vec<u8> = Vec::new();
    let mut i: usize = 0;
    assert(order@.take(0) =~= Seq::<usize>::empty());
    while i < order.len()
        invariant
            i <= order@.len(),
            out@ == extensions_in_order(sni@, *d, order@.take(i as int)),
        decreases order@.len() - i,
    {
        let k: usize = order[i];
        let data: Vec<u8> = extension_data(sni, d, k);
        let e: Vec<u8> = extension(extension_type(d, k), data.as_slice());
        append(&mut out, e.as_slice());
        proof {
            let next = order@.take(i + 1);
            assert(next.drop_last() =~= order@.take(i as int));
            assert(next.last() == k);
        }
        i += 1;
    }
    assert(order@.take(i as int) =~= order@);
    out
}

/// The fields before the extensions.
fn prefix(d: &ClientHelloDraws) -> (body: Vec<u8>)
    ensures
        body@ == hello_prefix(*d),
{
    let mut body: Vec<u8> = Vec::new();
    crate::wire::push_u16(&mut body, TLS_LEGACY_VERSION);
    append(&mut body, d.random.as_slice());
    body.push(32);
    append(&mut body, d.session_id.as_slice());
    let suites: Vec<u8> = greased_list_data(d.grease_cipher, &cipher_suites());
    append(&mut body, suites.as_slice());
    body.push(1);
    body.push(0);
    assert(body@ =~= hello_prefix(*d));
    body
}

/// Build the ClientHello handshake message for the server name `sni` from what was drawn.
pub fn build_client_hello_from(sni: &str, d: &ClientHelloDraws) -> (msg: Vec<u8>)
    requires
        d.wf(),
    ensures
        msg@ == client_hello_message(sni.spec_bytes(), *d),
{
    let name: &[u8] = sni.as_bytes();
    let mut body: Vec<u8> = prefix(d);
    let mut order: Vec<usize> = Vec::new();
    while order.len() < EXTENSION_COUNT
        invariant
            order@.len() <= EXTENSION_COUNT,
            forall|k: int| 0 <= k < order@.len() ==> order@[k] == k,
        decreases EXTENSION_COUNT - order@.len(),
    {
        let k: usize = order.len();
        order.push(k);
    }
    assert(order@ =~= Seq::new(EXTENSION_COUNT as nat, |i: int| i as usize));
    shuffle(&mut order, &d.picks);
    let mut exts: Vec<u8> = ordered_extensions(name, d, &order);
    let ghost sent = exts@;
    if body.len() < 512 && exts.len() < 512 {
        if let Some(pad) = padding_extension(body.len() + 2 + exts.len()) {
            append(&mut exts, pad.as_slice());
        }
    }
    assert(exts@ =~= hello_extensions(name@, *d));
    push_u16_vec(&mut body, exts.as_slice());
    let mut msg: Vec<u8> = Vec::new();
    msg.push(HS_TYPE_CLIENT_HELLO);
    push_len24(&mut msg, body.len());
    append(&mut msg, body.as_slice());
    assert(msg@ =~= client_hello_message(name@, *d));
    msg
}

/// What one ClientHello is drawn from: 1488 random bytes.
pub fn client_hello_draws_from(s: &[u8]) -> (d: ClientHelloDraws)
    requires
        s@.len() == 1488,
    ensures
        d.wf(),
        d.grease_cipher == grease_of(le64_at(s@, 0) as u64),
        d.grease_group == grease_of(le64_at(s@, 8) as u64),
        d.grease_ext_first == grease_of(le64_at(s@, 16) as u64),
        d.grease_ext_last == grease_of(le64_at(s@, 24) as u64),
        d.grease_version == grease_of(le64_at(s@, 32) as u64),
        d.grease_key_share == grease_of(le64_at(s@, 40) as u64),
        d.random@ == s@.subrange(48, 80),
        d.session_id@ == s@.subrange(80, 112),
        d.hybrid_share@ == s@.subrange(112, 1328),
        d.x25519_share@ == s@.subrange(1328, 1360),
        forall|i: int| 0 <= i < 16 ==> #[trigger] d.picks@[i] == le64_at(s@, 1360 + 8 * i),
{
    let mut picks: Vec<u64> = Vec::new();
    while picks.len() < 16
        invariant
            picks@.len() <= 16,
            s@.len() == 1488,
            forall|i: int|
                0 <= i < picks@.len() ==> #[trigger] picks@[i] == le64_at(s@, 1360 + 8 * i),
        decreases 16 - picks@.len(),
    {
        let at: usize = 1360 + 8 * picks.len();
        picks.push(read_u64_le(s, at));
    }
    ClientHelloDraws {
        grease_cipher: grease_value(read_u64_le(s, 0)),
        grease_group: grease_value(read_u64_le(s, 8)),
        grease_ext_first: grease_value(read_u64_le(s, 16)),
        grease_ext_last: grease_value(read_u64_le(s, 24)),
        grease_version: grease_value(read_u64_le(s, 32)),
        grease_key_share: grease_value(read_u64_le(s, 40)),
        random: to_array::<32>(vstd::slice::slice_subrange(s, 48, 80)),
        session_id: to_array::<32>(vstd::slice::slice_subrange(s, 80, 112)),
        hybrid_share: crate::wire::copy_bytes(vstd::slice::slice_subrange(s, 112, 1328)),
        x25519_share: crate::wire::copy_bytes(vstd::slice::slice_subrange(s, 1328, 1360)),
        picks,
    }
}

/// Draw what one ClientHello needs.
pub fn draw_client_hello() -> (r: Result<ClientHelloDraws, CoreError>)
    ensures
        r matches Ok(d) ==> d.wf(),
        r matches Err(e) ==> e is RngError,
{
    match os_random(1488) {
        Ok(bytes) => Ok(client_hello_draws_from(bytes.as_slice())),
        Err(_) => Err(CoreError::RngError),
    }
}

/// Build a ClientHello handshake message for the server name `sni` with fresh randomness.
/// It fails only when the operating system supplies none.
pub fn build_client_hello(sni: &str) -> (r: Result<Vec<u8>, CoreError>)
    ensures
        r matches Ok(msg) ==> exists|d: ClientHelloDraws|
            d.wf() && msg@ == client_hello_message(sni.spec_bytes(), d),
        r matches Err(e) ==> e is RngError,
{
    match draw_client_hello() {
        Ok(d) => {
            let msg: Vec<u8> = build_client_hello_from(sni, &d);
            Ok(msg)
        },
        Err(e) => Err(e),
    }
}

/// The month count of a `YYYYMM` number.
pub open spec fn months(yyyymm: u32) -> int {
    yyyymm / 100 * 12 + yyyymm % 100
}

/// Whether the profile is at most `max_age_months` old in the month `now_yyyymm`.
pub fn profile_is_fresh(now_yyyymm: u32, max_age_months: u32) -> (fresh: bool)
    ensures
        fresh == (months(now_yyyymm) - months(PROFILE_CAPTURED) <= max_age_months),
{
    let now: u32 = now_yyyymm / 100 * 12 + now_yyyymm % 100;
    let captured: u32 = PROFILE_CAPTURED / 100 * 12 + PROFILE_CAPTURED % 100;
    now.saturating_sub(captured) <= max_age_months
}

/// The GREASE codepoint that a number selects: 0x0a0a and fifteen more, each 0x1010 above the one before.
pub proof fn law_grease_codepoints(draw: u64, v: u16)
    ensures
        grease_of(draw) == 0x0a0a + 0x1010 * (draw % 16),
        grease(grease_of(draw)),
        grease(v) <==> exists|k: u64| k < 16 && #[trigger] grease_of(k) == v,
{
    if grease(v) {
        let k = ((v - 0x0a0a) / 0x1010) as u64;
        assert(v == 257 * (v % 256));
        assert(v % 256 == 16 * (v % 256 / 16) + 10);
        assert(grease_of(k) == v);
    }
}

/// The lengths of key shares: 1216 bytes for the hybrid group, 65 and 97 for the two curves, and 32 for x25519.
pub proof fn law_share_lengths()
    ensures
        key_exchange_len(0x11ec) == 1216,
        key_exchange_len(0x0017) == 65,
        key_exchange_len(0x0018) == 97,
        key_exchange_len(0x001d) == 32,
{
}

/// How old the profile is: it was captured in June 2025, and ages one month with each month.
pub proof fn law_profile_ages(year: u32, month: u32)
    requires
        2025 <= year <= 9999,
        1 <= month <= 12,
    ensures
        months((year * 100 + month) as u32) - months(PROFILE_CAPTURED) == (year - 2025) * 12 + month
            - 6,
{
}

/// Which hellos are padded: a body of 256 to 511 bytes is lifted to 512 or a little more, and no other.
pub proof fn law_padding_lifts_to_512(so_far: int)
    requires
        0 <= so_far,
    ensures
        so_far < 256 || so_far >= 512 ==> padding(so_far).len() == 0,
        256 <= so_far <= 508 ==> so_far + padding(so_far).len() == 512,
        508 < so_far < 512 ==> padding(so_far).len() == 4,
{
}

proof fn lemma_places_above_stay(order: Seq<usize>, picks: Seq<u64>, i: int, k: int)
    requires
        -1 <= i < k < order.len(),
    ensures
        shuffled(order, picks, i).len() == order.len(),
        shuffled(order, picks, i)[k] == order[k],
    decreases i,
{
    if i > 0 {
        let j = picks[order.len() - 1 - i] as int % (i + 1);
        lemma_places_above_stay(swapped(order, i, j), picks, i - 1, k);
    }
}

/// How the order is drawn: the first number decides which of all extensions comes last, and each further one which
/// of those that are left comes next before it. Every extension can come last.
pub proof fn law_each_number_decides_a_place(order: Seq<usize>, picks: Seq<u64>, i: int)
    requires
        0 < i < order.len(),
    ensures
        ({
            let j = picks[order.len() - 1 - i] as int % (i + 1);
            let r = shuffled(order, picks, i);
            &&& r[i] == order[j]
            &&& forall|k: int| i < k < order.len() ==> #[trigger] r[k] == order[k]
            &&& r == shuffled(order.update(i, order[j]).update(j, order[i]), picks, i - 1)
        }),
        extension_order(picks)[16] == picks[0] % 17,
{
    let j = picks[order.len() - 1 - i] as int % (i + 1);
    let next = swapped(order, i, j);
    lemma_places_above_stay(next, picks, i - 1, i);
    assert forall|k: int| i < k < order.len() implies #[trigger] shuffled(order, picks, i)[k]
        == order[k] by {
        lemma_places_above_stay(order, picks, i, k);
    }
    let start = Seq::new(EXTENSION_COUNT as nat, |n: int| n as usize);
    let first = picks[0] as int % 17;
    lemma_places_above_stay(swapped(start, 16, first), picks, 15, 16);
}

} // verus!
