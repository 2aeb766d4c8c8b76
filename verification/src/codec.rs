//! The binary layout of handshake messages.
//!
//! Fixed arrays stand as they are, a byte string stands behind its length as a 32-bit
//! little-endian number, and an optional value stands behind a byte that is 0 or 1. A message
//! ends where its last field ends.

use crate::text::{decimal, push_decimal};
use crate::wire::{append, copy_bytes, le32, le32_at, push_u32_le, read_u32_le, to_array};
use vstd::prelude::*;
use vstd::slice::slice_subrange;

verus! {

/// Why a message could not be read.
#[derive(Debug, Clone, Copy, PartialEq, Eq, Structural)]
pub enum DecodeFault {
    /// The message ends before its fields do.
    UnexpectedLength,
    /// Bytes are left behind the last field.
    NotAllBytesRead,
    /// A truth value is neither 0 nor 1.
    BadBool(u8),
    /// The byte before an optional value is neither 0 nor 1.
    BadOption(u8),
}

impl DecodeFault {
    /// The text of the fault.
    pub open spec fn spec_text(self) -> Seq<char> {
        match self {
            DecodeFault::UnexpectedLength => "Unexpected length of input"@,
            DecodeFault::NotAllBytesRead => "Not all bytes read"@,
            DecodeFault::BadBool(b) => "Invalid bool representation: "@ + decimal(b as nat),
            DecodeFault::BadOption(b) => "Invalid Option representation: "@ + decimal(b as nat)
                + ". The first byte must be 0 or 1"@,
        }
    }

    /// The text of the fault.
    pub fn to_text(&self) -> (s: String)
        ensures
            s@ == self.spec_text(),
    {
        match self {
            DecodeFault::UnexpectedLength => "Unexpected length of input".to_owned(),
            DecodeFault::NotAllBytesRead => "Not all bytes read".to_owned(),
            DecodeFault::BadBool(b) => {
                let mut s: String = "Invalid bool representation: ".to_owned();
                push_decimal(&mut s, *b as u64);
                s
            },
            DecodeFault::BadOption(b) => {
                let mut s: String = "Invalid Option representation: ".to_owned();
                push_decimal(&mut s, *b as u64);
                s.append(". The first byte must be 0 or 1");
                s
            },
        }
    }
}

/// A byte string behind its length.
#[verifier::opaque]
pub open spec fn prefixed(v: Seq<u8>) -> Seq<u8> {
    le32(v.len() as int) + v
}

/// An optional value behind its tag.
#[verifier::opaque]
pub open spec fn tagged(o: Option<Seq<u8>>) -> Seq<u8> {
    match o {
        Some(v) => seq![1u8] + v,
        None => seq![0u8],
    }
}

/// A truth value.
#[verifier::opaque]
pub open spec fn flag_byte(b: bool) -> Seq<u8> {
    if b {
        seq![1u8]
    } else {
        seq![0u8]
    }
}

/// The longest byte string that the layout can hold.
pub open spec fn fits(v: Seq<u8>) -> bool {
    v.len() <= u32::MAX
}

/// The first `n` bytes and the rest.
#[verifier::opaque]
pub open spec fn take(s: Seq<u8>, n: int) -> Result<(Seq<u8>, Seq<u8>), DecodeFault> {
    if n <= s.len() {
        Ok((s.take(n), s.skip(n)))
    } else {
        Err(DecodeFault::UnexpectedLength)
    }
}

/// A byte string that stands behind its length, and the rest.
#[verifier::opaque]
pub open spec fn take_prefixed(s: Seq<u8>) -> Result<(Seq<u8>, Seq<u8>), DecodeFault> {
    match take(s, 4) {
        Ok((len, rest)) => take(rest, le32_at(len, 0)),
        Err(e) => Err(e),
    }
}

/// The tag of an optional value, and the rest.
#[verifier::opaque]
pub open spec fn take_tag(s: Seq<u8>) -> Result<(bool, Seq<u8>), DecodeFault> {
    if s.len() == 0 {
        Err(DecodeFault::UnexpectedLength)
    } else if s[0] > 1 {
        Err(DecodeFault::BadOption(s[0]))
    } else {
        Ok((s[0] == 1, s.skip(1)))
    }
}

/// A truth value, and the rest.
#[verifier::opaque]
pub open spec fn take_flag(s: Seq<u8>) -> Result<(bool, Seq<u8>), DecodeFault> {
    if s.len() == 0 {
        Err(DecodeFault::UnexpectedLength)
    } else if s[0] > 1 {
        Err(DecodeFault::BadBool(s[0]))
    } else {
        Ok((s[0] == 1, s.skip(1)))
    }
}

/// An optional value of `n` bytes, and the rest.
#[verifier::opaque]
pub open spec fn take_optional(s: Seq<u8>, n: int) -> Result<
    (Option<Seq<u8>>, Seq<u8>),
    DecodeFault,
> {
    match take_tag(s) {
        Ok((true, rest)) => match take(rest, n) {
            Ok((v, rest)) => Ok((Some(v), rest)),
            Err(e) => Err(e),
        },
        Ok((false, rest)) => Ok((None, rest)),
        Err(e) => Err(e),
    }
}

/// What was put in front is read back.
pub proof fn lemma_take(v: Seq<u8>, rest: Seq<u8>)
    ensures
        take(v + rest, v.len() as int) == Ok::<_, DecodeFault>((v, rest)),
{
    reveal(take);
    assert((v + rest).take(v.len() as int) =~= v);
    assert((v + rest).skip(v.len() as int) =~= rest);
}

/// A prefixed string is read back.
pub proof fn lemma_take_prefixed(v: Seq<u8>, rest: Seq<u8>)
    requires
        fits(v),
    ensures
        take_prefixed(prefixed(v) + rest) == Ok::<_, DecodeFault>((v, rest)),
{
    reveal(take_prefixed);
    reveal(prefixed);
    let len = le32(v.len() as int);
    assert(prefixed(v) + rest =~= len + (v + rest));
    lemma_take(len, v + rest);
    lemma_take(v, rest);
    crate::wire::lemma_le_round_trip(v.len() as int);
}

/// A tagged value of `n` bytes is read back.
pub proof fn lemma_take_optional(o: Option<Seq<u8>>, n: int, rest: Seq<u8>)
    requires
        o matches Some(v) ==> v.len() == n,
    ensures
        take_optional(tagged(o) + rest, n) == Ok::<_, DecodeFault>((o, rest)),
{
    reveal(take_optional);
    reveal(tagged);
    reveal(take_tag);
    match o {
        Some(v) => {
            assert((tagged(o) + rest).skip(1) =~= v + rest);
            lemma_take(v, rest);
        },
        None => {
            assert((tagged(o) + rest).skip(1) =~= rest);
        },
    }
}

/// A truth value is read back.
pub proof fn lemma_take_flag(b: bool, rest: Seq<u8>)
    ensures
        take_flag(flag_byte(b) + rest) == Ok::<_, DecodeFault>((b, rest)),
{
    reveal(take_flag);
    reveal(flag_byte);
    assert((flag_byte(b) + rest).skip(1) =~= rest);
}

/// What was read stood in front.
pub proof fn lemma_taken(s: Seq<u8>, n: int)
    requires
        0 <= n,
    ensures
        take(s, n) matches Ok((v, rest)) ==> s == v + rest && v.len() == n,
{
    reveal(take);
    if n <= s.len() {
        assert(s =~= s.take(n) + s.skip(n));
    }
}

/// A string that was read stood in front, behind its length.
pub proof fn lemma_taken_prefixed(s: Seq<u8>)
    ensures
        take_prefixed(s) matches Ok((v, rest)) ==> s == prefixed(v) + rest && fits(v),
{
    reveal(take_prefixed);
    reveal(take);
    reveal(prefixed);
    if let Ok((v, rest)) = take_prefixed(s) {
        let len = s.take(4);
        crate::wire::lemma_le32_of_bytes(len);
        assert(v.len() == le32_at(len, 0));
        assert(s =~= len + (v + rest));
        assert(len + (v + rest) =~= (len + v) + rest);
    }
}

/// An optional value that was read stood in front, behind its tag.
pub proof fn lemma_taken_optional(s: Seq<u8>, n: int)
    requires
        0 <= n,
    ensures
        take_optional(s, n) matches Ok((o, rest)) ==> s == tagged(o) + rest && (o matches Some(v)
            ==> v.len() == n),
{
    reveal(take_optional);
    reveal(take_tag);
    reveal(take);
    reveal(tagged);
    if let Ok((o, rest)) = take_optional(s, n) {
        assert(s =~= tagged(o) + rest);
    }
}

/// Strings in a row, grouped from the right instead of the left.
pub proof fn lemma_regroup(a: Seq<u8>, b: Seq<u8>, c: Seq<u8>)
    ensures
        (a + b) + c == a + (b + c),
{
    assert((a + b) + c =~= a + (b + c));
}

/// Append a byte string behind its length.
pub fn push_prefixed(out: &mut Vec<u8>, v: &[u8])
    requires
        fits(v@),
    ensures
        final(out)@ == old(out)@ + prefixed(v@),
{
    proof {
        reveal(prefixed);
    }
    push_u32_le(out, v.len() as u32);
    append(out, v);
    assert(out@ =~= old(out)@ + prefixed(v@));
}

/// Append a truth value.
pub fn push_flag(out: &mut Vec<u8>, b: bool)
    ensures
        final(out)@ == old(out)@ + flag_byte(b),
{
    proof {
        reveal(flag_byte);
    }
    out.push(
        if b {
            1u8
        } else {
            0u8
        },
    );
    assert(out@ =~= old(out)@ + flag_byte(b));
}

/// An optional array, as a byte string.
pub open spec fn optional_bytes(o: Option<[u8; 32]>) -> Option<Seq<u8>> {
    match o {
        Some(a) => Some(a@),
        None => None,
    }
}

/// Append an optional array behind its tag.
pub fn push_optional(out: &mut Vec<u8>, o: &Option<[u8; 32]>)
    ensures
        final(out)@ == old(out)@ + tagged(optional_bytes(*o)),
{
    proof {
        reveal(tagged);
    }
    match o {
        Some(a) => {
            out.push(1u8);
            append(out, a.as_slice());
            assert(out@ =~= old(out)@ + tagged(optional_bytes(*o)));
        },
        None => {
            out.push(0u8);
            assert(out@ =~= old(out)@ + tagged(optional_bytes(*o)));
        },
    }
}

/// Reads the fields of a message one after the other.
pub struct Reader<'a> {
    data: &'a [u8],
    pos: usize,
}

impl<'a> View for Reader<'a> {
    type V = Seq<u8>;

    /// What is left to read.
    closed spec fn view(&self) -> Seq<u8> {
        self.data@.skip(self.pos as int)
    }
}

impl<'a> Reader<'a> {
    #[verifier::type_invariant]
    spec fn inv(&self) -> bool {
        self.pos <= self.data@.len()
    }

    /// A reader at the front of `data`.
    pub fn new(data: &'a [u8]) -> (r: Self)
        ensures
            r@ == data@,
    {
        let r: Reader<'a> = Reader { data, pos: 0 };
        assert(r@ =~= data@);
        r
    }

    /// Read `n` bytes.
    pub fn take(&mut self, n: usize) -> (r: Result<&'a [u8], DecodeFault>)
        ensures
            match take(old(self)@, n as int) {
                Ok((v, rest)) => (r matches Ok(got) && got@ == v) && final(self)@ == rest,
                Err(e) => r == Err::<&'a [u8], DecodeFault>(e) && final(self)@ == old(self)@,
            },
    {
        proof {
            reveal(take);
        }
        proof {
            use_type_invariant(&*self);
        }
        if self.data.len() - self.pos < n {
            return Err(DecodeFault::UnexpectedLength);
        }
        let got: &'a [u8] = slice_subrange(self.data, self.pos, self.pos + n);
        assert(got@ =~= self@.take(n as int));
        self.pos = self.pos + n;
        assert(self@ =~= old(self)@.skip(n as int));
        Ok(got)
    }

    /// Read an array.
    pub fn array<const N: usize>(&mut self) -> (r: Result<[u8; N], DecodeFault>)
        ensures
            match take(old(self)@, N as int) {
                Ok((v, rest)) => (r matches Ok(got) && got@ == v) && final(self)@ == rest,
                Err(e) => r == Err::<[u8; N], DecodeFault>(e) && final(self)@ == old(self)@,
            },
    {
        proof {
            lemma_taken(self@, N as int);
        }
        match self.take(N) {
            Ok(got) => Ok(to_array::<N>(got)),
            Err(e) => Err(e),
        }
    }

    /// Read a byte string that stands behind its length.
    pub fn prefixed(&mut self) -> (r: Result<Vec<u8>, DecodeFault>)
        ensures
            match take_prefixed(old(self)@) {
                Ok((v, rest)) => (r matches Ok(got) && got@ == v) && final(self)@ == rest,
                Err(e) => r == Err::<Vec<u8>, DecodeFault>(e),
            },
    {
        proof {
            reveal(take_prefixed);
            reveal(take);
        }
        match self.take(4) {
            Ok(len) => {
                let n: u32 = read_u32_le(len, 0);
                match self.take(n as usize) {
                    Ok(got) => Ok(copy_bytes(got)),
                    Err(e) => Err(e),
                }
            },
            Err(e) => Err(e),
        }
    }

    /// Read the tag of an optional value.
    pub fn tag(&mut self) -> (r: Result<bool, DecodeFault>)
        ensures
            match take_tag(old(self)@) {
                Ok((b, rest)) => r == Ok::<bool, DecodeFault>(b) && final(self)@ == rest,
                Err(e) => r == Err::<bool, DecodeFault>(e),
            },
    {
        proof {
            reveal(take_tag);
            reveal(take);
        }
        match self.take(1) {
            Ok(got) => {
                assert(got@[0] == old(self)@[0]);
                if got[0] > 1 {
                    Err(DecodeFault::BadOption(got[0]))
                } else {
                    Ok(got[0] == 1)
                }
            },
            Err(e) => Err(e),
        }
    }

    /// Read a truth value.
    pub fn flag(&mut self) -> (r: Result<bool, DecodeFault>)
        ensures
            match take_flag(old(self)@) {
                Ok((b, rest)) => r == Ok::<bool, DecodeFault>(b) && final(self)@ == rest,
                Err(e) => r == Err::<bool, DecodeFault>(e),
            },
    {
        proof {
            reveal(take_flag);
            reveal(take);
        }
        match self.take(1) {
            Ok(got) => {
                assert(got@[0] == old(self)@[0]);
                if got[0] > 1 {
                    Err(DecodeFault::BadBool(got[0]))
                } else {
                    Ok(got[0] == 1)
                }
            },
            Err(e) => Err(e),
        }
    }

    /// Read an optional array of 32 bytes.
    pub fn optional(&mut self) -> (r: Result<Option<[u8; 32]>, DecodeFault>)
        ensures
            match take_optional(old(self)@, 32) {
                Ok((v, rest)) => (r matches Ok(got) && optional_bytes(got) == v) && final(self)@
                    == rest,
                Err(e) => r == Err::<Option<[u8; 32]>, DecodeFault>(e),
            },
    {
        proof {
            reveal(take_optional);
        }
        match self.tag() {
            Ok(true) => match self.array::<32>() {
                Ok(a) => Ok(Some(a)),
                Err(e) => Err(e),
            },
            Ok(false) => Ok(None),
            Err(e) => Err(e),
        }
    }

    /// Whether nothing is left.
    pub fn at_end(&self) -> (b: bool)
        ensures
            b == (self@.len() == 0),
    {
        proof {
            use_type_invariant(self);
        }
        self.pos == self.data.len()
    }
}

/// The layout in numbers: a byte string stands behind its length, least significant byte first, an absent value is
/// a zero and a present one stands behind a one, and a truth value is a one or a zero.
pub proof fn law_layout_in_numbers(v: Seq<u8>, b: bool)
    requires
        fits(v),
    ensures
        prefixed(v).len() == 4 + v.len(),
        prefixed(v)[0] + prefixed(v)[1] * 256 + prefixed(v)[2] * 65536 + prefixed(v)[3] * 16777216
            == v.len(),
        prefixed(v).skip(4) == v,
        tagged(None) == seq![0u8],
        tagged(Some(v)).len() == 1 + v.len(),
        tagged(Some(v))[0] == 1,
        tagged(Some(v)).skip(1) == v,
        flag_byte(true) == seq![1u8],
        flag_byte(false) == seq![0u8],
{
    reveal(prefixed);
    reveal(tagged);
    reveal(flag_byte);
    let n = v.len() as int;
    assert(prefixed(v)[0] == le32(n)[0] && prefixed(v)[1] == le32(n)[1]);
    assert(prefixed(v)[2] == le32(n)[2] && prefixed(v)[3] == le32(n)[3]);
    assert(prefixed(v).skip(4) =~= v);
    assert(tagged(Some(v)).skip(1) =~= v);
}

/// What a reader refuses, and what it takes: too few bytes, a tag or a truth value above one, and else the value
/// and what stands behind it.
pub proof fn law_what_is_taken(s: Seq<u8>, n: int)
    requires
        0 <= n,
    ensures
        s.len() < n ==> take(s, n) == Err::<(Seq<u8>, Seq<u8>), DecodeFault>(
            DecodeFault::UnexpectedLength,
        ),
        s.len() >= n ==> take(s, n) == Ok::<(Seq<u8>, Seq<u8>), DecodeFault>((s.take(n), s.skip(n))),
        s.len() == 0 ==> take_tag(s) == Err::<(bool, Seq<u8>), DecodeFault>(
            DecodeFault::UnexpectedLength,
        ) && take_flag(s) == Err::<(bool, Seq<u8>), DecodeFault>(DecodeFault::UnexpectedLength),
        s.len() > 0 && s[0] > 1 ==> take_tag(s) == Err::<(bool, Seq<u8>), DecodeFault>(
            DecodeFault::BadOption(s[0]),
        ) && take_flag(s) == Err::<(bool, Seq<u8>), DecodeFault>(DecodeFault::BadBool(s[0])),
        s.len() > 0 && s[0] <= 1 ==> take_tag(s) == Ok::<(bool, Seq<u8>), DecodeFault>(
            (s[0] == 1, s.skip(1)),
        ) && take_flag(s) == Ok::<(bool, Seq<u8>), DecodeFault>((s[0] == 1, s.skip(1))),
{
    reveal(take);
    reveal(take_tag);
    reveal(take_flag);
}

} // verus!
