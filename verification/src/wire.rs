//! Fixed-width integer encodings and byte-buffer helpers shared by every codec.

use vstd::prelude::*;

verus! {

/// The two big-endian bytes of `v`.
pub open spec fn be16(v: int) -> Seq<u8> {
    seq![(v / 256 % 256) as u8, (v % 256) as u8]
}

/// The three big-endian bytes of `v`.
pub open spec fn be24(v: int) -> Seq<u8> {
    seq![(v / 65536 % 256) as u8, (v / 256 % 256) as u8, (v % 256) as u8]
}

/// The four big-endian bytes of `v`.
pub open spec fn be32(v: int) -> Seq<u8> {
    seq![
        (v / 16777216 % 256) as u8,
        (v / 65536 % 256) as u8,
        (v / 256 % 256) as u8,
        (v % 256) as u8,
    ]
}

/// The eight big-endian bytes of `v`.
pub open spec fn be64(v: int) -> Seq<u8> {
    be32(v / 4294967296) + be32(v % 4294967296)
}

/// The four little-endian bytes of `v`.
pub open spec fn le32(v: int) -> Seq<u8> {
    seq![
        (v % 256) as u8,
        (v / 256 % 256) as u8,
        (v / 65536 % 256) as u8,
        (v / 16777216 % 256) as u8,
    ]
}

/// The eight little-endian bytes of `v`.
pub open spec fn le64(v: int) -> Seq<u8> {
    le32(v % 4294967296) + le32(v / 4294967296)
}

/// The value of the two big-endian bytes of `s` at `i`.
pub open spec fn be16_at(s: Seq<u8>, i: int) -> int {
    s[i] * 256 + s[i + 1]
}

/// The value of the three big-endian bytes of `s` at `i`.
pub open spec fn be24_at(s: Seq<u8>, i: int) -> int {
    s[i] * 65536 + s[i + 1] * 256 + s[i + 2]
}

/// The value of the four big-endian bytes of `s` at `i`.
pub open spec fn be32_at(s: Seq<u8>, i: int) -> int {
    s[i] * 16777216 + s[i + 1] * 65536 + s[i + 2] * 256 + s[i + 3]
}

/// The value of the four little-endian bytes of `s` at `i`.
pub open spec fn le32_at(s: Seq<u8>, i: int) -> int {
    s[i] + s[i + 1] * 256 + s[i + 2] * 65536 + s[i + 3] * 16777216
}

/// The value of the eight little-endian bytes of `s` at `i`.
pub open spec fn le64_at(s: Seq<u8>, i: int) -> int {
    le32_at(s, i) + le32_at(s, i + 4) * 4294967296
}

/// A value below the width of its encoding is read back from its big-endian bytes.
pub proof fn lemma_be_round_trip(v: int)
    ensures
        0 <= v < 65536 ==> be16_at(be16(v), 0) == v,
        0 <= v < 16777216 ==> be24_at(be24(v), 0) == v,
        0 <= v < 4294967296 ==> be32_at(be32(v), 0) == v,
{
}

/// A value is read back where its big-endian bytes stand inside a longer string.
pub proof fn lemma_be32_inside(s: Seq<u8>, i: int, v: int)
    requires
        0 <= v < 4294967296,
        0 <= i,
        i + 4 <= s.len(),
        s.subrange(i, i + 4) == be32(v),
    ensures
        be32_at(s, i) == v,
{
    let part = s.subrange(i, i + 4);
    assert(part[0] == s[i]);
    assert(part[1] == s[i + 1]);
    assert(part[2] == s[i + 2]);
    assert(part[3] == s[i + 3]);
}

/// A value is read back where its big-endian bytes stand inside a longer string.
pub proof fn lemma_be16_inside(s: Seq<u8>, i: int, v: int)
    requires
        0 <= v < 65536,
        0 <= i,
        i + 2 <= s.len(),
        s.subrange(i, i + 2) == be16(v),
    ensures
        be16_at(s, i) == v,
{
    let part = s.subrange(i, i + 2);
    assert(part[0] == s[i]);
    assert(part[1] == s[i + 1]);
}

/// The four big-endian bytes of a value depend on its low 32 bits alone.
pub proof fn lemma_be32_low_bits(v: int)
    requires
        0 <= v,
    ensures
        be32(v % 4294967296) == be32(v),
{
    let w = v % 4294967296;
    let k = v / 4294967296;
    assert(v == k * 4294967296 + w);
    assert(v / 16777216 == k * 256 + w / 16777216);
    assert(v / 65536 == k * 65536 + w / 65536);
    assert(v / 256 == k * 16777216 + w / 256);
    assert((k * 256 + w / 16777216) % 256 == w / 16777216 % 256);
    assert((k * 65536 + w / 65536) % 256 == w / 65536 % 256);
    assert((k * 16777216 + w / 256) % 256 == w / 256 % 256);
    assert(v % 256 == w % 256);
    assert(be32(w) =~= be32(v));
}

/// A value below the width of its encoding is read back from its little-endian bytes.
pub proof fn lemma_le_round_trip(v: int)
    ensures
        0 <= v < 4294967296 ==> le32_at(le32(v), 0) == v,
        0 <= v < 18446744073709551616 ==> le64_at(le64(v), 0) == v,
{
    if 0 <= v < 18446744073709551616 {
        let lo = v % 4294967296;
        let hi = v / 4294967296;
        assert(le32_at(le32(lo), 0) == lo);
        assert(le32_at(le32(hi), 0) == hi);
        assert(le64(v)[4] == le32(hi)[0]);
        assert(le64(v)[5] == le32(hi)[1]);
        assert(le64(v)[6] == le32(hi)[2]);
        assert(le64(v)[7] == le32(hi)[3]);
    }
}

proof fn lemma_four_digits(a: int, b: int, c: int, d: int)
    requires
        0 <= a < 256,
        0 <= b < 256,
        0 <= c < 256,
        0 <= d < 256,
    ensures
        ({
            let v = a + b * 256 + c * 65536 + d * 16777216;
            &&& v % 256 == a
            &&& v / 256 % 256 == b
            &&& v / 65536 % 256 == c
            &&& v / 16777216 % 256 == d
            &&& 0 <= v < 4294967296
        }),
{
    let v = a + b * 256 + c * 65536 + d * 16777216;
    assert(v / 256 == b + c * 256 + d * 65536);
    assert(v / 65536 == c + d * 256);
    assert(v / 16777216 == d);
}

/// Four bytes are the little-endian bytes of their value.
pub proof fn lemma_le32_of_bytes(s: Seq<u8>)
    requires
        s.len() == 4,
    ensures
        le32(le32_at(s, 0)) == s,
        0 <= le32_at(s, 0) <= u32::MAX,
{
    lemma_four_digits(s[0] as int, s[1] as int, s[2] as int, s[3] as int);
    let t = le32(le32_at(s, 0));
    assert(t[0] == s[0]);
    assert(t[1] == s[1]);
    assert(t[2] == s[2]);
    assert(t[3] == s[3]);
    assert(t =~= s);
}

/// Append the bytes of `data`.
pub fn append(out: &mut Vec<u8>, data: &[u8])
    ensures
        final(out)@ == old(out)@ + data@,
{
    out.extend_from_slice(data);
    assert(out@ =~= old(out)@ + data@);
}

/// Append the big-endian bytes of `v`.
pub fn push_u16(out: &mut Vec<u8>, v: u16)
    ensures
        final(out)@ == old(out)@ + be16(v as int),
{
    out.push((v / 256) as u8);
    out.push((v % 256) as u8);
    assert(out@ =~= old(out)@ + be16(v as int));
}

/// Append the big-endian bytes of `v`.
pub fn push_u32(out: &mut Vec<u8>, v: u32)
    ensures
        final(out)@ == old(out)@ + be32(v as int),
{
    out.push((v / 16777216) as u8);
    out.push((v / 65536 % 256) as u8);
    out.push((v / 256 % 256) as u8);
    out.push((v % 256) as u8);
    assert(out@ =~= old(out)@ + be32(v as int));
}

/// Append the big-endian bytes of `v`.
pub fn push_u64(out: &mut Vec<u8>, v: u64)
    ensures
        final(out)@ == old(out)@ + be64(v as int),
{
    push_u32(out, (v / 4294967296) as u32);
    push_u32(out, (v % 4294967296) as u32);
    assert(out@ =~= old(out)@ + be64(v as int));
}

/// Append the little-endian bytes of `v`.
pub fn push_u32_le(out: &mut Vec<u8>, v: u32)
    ensures
        final(out)@ == old(out)@ + le32(v as int),
{
    out.push((v % 256) as u8);
    out.push((v / 256 % 256) as u8);
    out.push((v / 65536 % 256) as u8);
    out.push((v / 16777216) as u8);
    assert(out@ =~= old(out)@ + le32(v as int));
}

/// Append the little-endian bytes of `v`.
pub fn push_u64_le(out: &mut Vec<u8>, v: u64)
    ensures
        final(out)@ == old(out)@ + le64(v as int),
{
    push_u32_le(out, (v % 4294967296) as u32);
    push_u32_le(out, (v / 4294967296) as u32);
    assert(out@ =~= old(out)@ + le64(v as int));
}

/// Read the two big-endian bytes at `i`.
pub fn read_u16(s: &[u8], i: usize) -> (v: u16)
    requires
        i + 2 <= s@.len(),
    ensures
        v == be16_at(s@, i as int),
{
    s[i] as u16 * 256 + s[i + 1] as u16
}

/// Read the three big-endian bytes at `i`.
pub fn read_u24(s: &[u8], i: usize) -> (v: u32)
    requires
        i + 3 <= s@.len(),
    ensures
        v == be24_at(s@, i as int),
{
    s[i] as u32 * 65536 + s[i + 1] as u32 * 256 + s[i + 2] as u32
}

/// Read the four big-endian bytes at `i`.
pub fn read_u32(s: &[u8], i: usize) -> (v: u32)
    requires
        i + 4 <= s@.len(),
    ensures
        v == be32_at(s@, i as int),
{
    s[i] as u32 * 16777216 + s[i + 1] as u32 * 65536 + s[i + 2] as u32 * 256 + s[i + 3] as u32
}

/// Read the four little-endian bytes at `i`.
pub fn read_u32_le(s: &[u8], i: usize) -> (v: u32)
    requires
        i + 4 <= s@.len(),
    ensures
        v == le32_at(s@, i as int),
{
    s[i] as u32 + s[i + 1] as u32 * 256 + s[i + 2] as u32 * 65536 + s[i + 3] as u32 * 16777216
}

/// Read the eight little-endian bytes at `i`.
pub fn read_u64_le(s: &[u8], i: usize) -> (v: u64)
    requires
        i + 8 <= s@.len(),
    ensures
        v == le64_at(s@, i as int),
{
    assert(i + 8 <= s.len());
    read_u32_le(s, i) as u64 + read_u32_le(s, i + 4) as u64 * 4294967296
}

/// Copy the bytes of `s` into a fixed array of `N` bytes.
pub fn to_array<const N: usize>(s: &[u8]) -> (a: [u8; N])
    requires
        s@.len() == N,
    ensures
        a@ == s@,
{
    let mut a: [u8; N] = [0u8; N];
    let mut i: usize = 0;
    while i < N
        invariant
            i <= N,
            s@.len() == N,
            forall|k: int| 0 <= k < i ==> a@[k] == s@[k],
        decreases N - i,
    {
        a[i] = s[i];
        i += 1;
    }
    assert(a@ =~= s@);
    a
}

/// Whether two byte strings are equal.
pub fn same_bytes(a: &[u8], b: &[u8]) -> (eq: bool)
    ensures
        eq == (a@ == b@),
{
    if a.len() != b.len() {
        return false;
    }
    let mut i: usize = 0;
    while i < a.len()
        invariant
            i <= a@.len(),
            a@.len() == b@.len(),
            forall|k: int| 0 <= k < i ==> a@[k] == b@[k],
        decreases a@.len() - i,
    {
        if a[i] != b[i] {
            return false;
        }
        i += 1;
    }
    assert(a@ =~= b@);
    true
}

/// A vector of `n` zero bytes.
pub fn zeros(n: usize) -> (v: Vec<u8>)
    ensures
        v@ == Seq::new(n as nat, |i: int| 0u8),
{
    let v: Vec<u8> = vec![0u8; n];
    assert(v@ =~= Seq::new(n as nat, |i: int| 0u8));
    v
}

/// A copy of the bytes of `s`.
pub fn copy_bytes(s: &[u8]) -> (v: Vec<u8>)
    ensures
        v@ == s@,
{
    let mut v: Vec<u8> = Vec::with_capacity(s.len());
    append(&mut v, s);
    assert(v@ =~= s@);
    v
}

/// The encodings in numbers: the most significant byte first, or last.
pub proof fn law_byte_order(v: int)
    requires
        0 <= v < 4294967296,
    ensures
        v < 65536 ==> be16(v)[0] * 256 + be16(v)[1] == v && be16(v).len() == 2,
        v < 16777216 ==> be24(v)[0] * 65536 + be24(v)[1] * 256 + be24(v)[2] == v && be24(v).len() == 3,
        be32(v)[0] * 16777216 + be32(v)[1] * 65536 + be32(v)[2] * 256 + be32(v)[3] == v && be32(v).len()
            == 4,
        le32(v)[3] * 16777216 + le32(v)[2] * 65536 + le32(v)[1] * 256 + le32(v)[0] == v && le32(v).len()
            == 4,
        be64(v).take(4) == be32(0) && be64(v).skip(4) == be32(v),
        le64(v).take(4) == le32(v) && le64(v).skip(4) == le32(0),
{
    assert(be64(v).take(4) =~= be32(0));
    assert(be64(v).skip(4) =~= be32(v));
    assert(le64(v).take(4) =~= le32(v));
    assert(le64(v).skip(4) =~= le32(0));
}

} // verus!
