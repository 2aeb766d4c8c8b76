//! Stream framing: each frame is `[len u32 be][sealed payload]`, where the four
//! length bytes are authenticated with the payload, and optional padding of the
//! payload to a bucketed size.

use crate::text::{decimal, push_decimal};
use crate::wire::{append, be16, be16_at, be32, be32_at, copy_bytes, push_u16, push_u32};
use crate::wire::{read_u16, read_u32, to_array};
use vstd::prelude::*;
use vstd::slice::slice_subrange;

verus! {

/// Width of the length header.
pub const FRAME_HEADER_SIZE: usize = 4;

/// Largest payload of one frame, before sealing.
pub const MAX_FRAME_PAYLOAD: usize = 65536;

/// Bytes that sealing adds to a payload.
pub const AEAD_OVERHEAD: usize = 16;

/// Messages longer than this are sealed off the caller's thread.
pub const SPAWN_BLOCKING_THRESHOLD: usize = 262144;

/// A frame error.
#[derive(Debug, Clone)]
pub enum FrameError {
    /// The stream failed, with the cause as text.
    Io(String),
    EncryptFailed,
    DecryptFailed,
    FrameTooLarge(usize),
}

impl FrameError {
    /// The message of the error.
    pub open spec fn spec_text(self) -> Seq<char> {
        match self {
            FrameError::Io(cause) => "Frame I/O error: "@ + cause@,
            FrameError::EncryptFailed => "Frame encryption failed"@,
            FrameError::DecryptFailed => "Frame decryption / auth failed"@,
            FrameError::FrameTooLarge(n) => "Frame too large: "@ + decimal(n as nat) + " bytes"@,
        }
    }

    /// The message of the error.
    pub fn to_text(&self) -> (s: String)
        ensures
            s@ == self.spec_text(),
    {
        match self {
            FrameError::Io(cause) => {
                let mut s: String = "Frame I/O error: ".to_owned();
                s.append(cause.as_str());
                s
            },
            FrameError::EncryptFailed => "Frame encryption failed".to_owned(),
            FrameError::DecryptFailed => "Frame decryption / auth failed".to_owned(),
            FrameError::FrameTooLarge(n) => {
                let mut s: String = "Frame too large: ".to_owned();
                push_decimal(&mut s, *n as u64);
                s.append(" bytes");
                s
            },
        }
    }
}

/// A frame before sealing: the authenticated length header and the payload to seal.
pub struct FrameJob {
    pub header: [u8; 4],
    pub payload: Vec<u8>,
}

/// The length header of a frame whose payload has `payload_len` bytes.
pub open spec fn frame_header(payload_len: int) -> Seq<u8> {
    be32(payload_len + AEAD_OVERHEAD)
}

impl FrameJob {
    /// Whether this is the unsealed frame of `payload`.
    pub open spec fn carries(self, payload: Seq<u8>) -> bool {
        &&& self.payload@ == payload
        &&& self.header@ == frame_header(payload.len() as int)
    }
}

/// How many frames a message of `len` bytes takes.
pub open spec fn frame_count(len: int) -> int {
    (len + MAX_FRAME_PAYLOAD - 1) / MAX_FRAME_PAYLOAD as int
}

/// The part of a message that frame `i` carries.
pub open spec fn frame_part(data: Seq<u8>, i: int) -> Seq<u8> {
    let start = i * MAX_FRAME_PAYLOAD;
    let end = if start + MAX_FRAME_PAYLOAD <= data.len() {
        start + MAX_FRAME_PAYLOAD
    } else {
        data.len() as int
    };
    data.subrange(start, end)
}

/// The bytes of the first `n` sealed frames, one after the other.
pub open spec fn batch_bytes(headers: Seq<Seq<u8>>, sealed: Seq<Seq<u8>>, n: int) -> Seq<u8>
    decreases n,
{
    if n <= 0 {
        Seq::empty()
    } else {
        batch_bytes(headers, sealed, n - 1) + headers[n - 1] + sealed[n - 1]
    }
}

/// The headers of unsealed frames.
pub open spec fn headers_of(jobs: Seq<FrameJob>) -> Seq<Seq<u8>> {
    jobs.map_values(|j: FrameJob| j.header@)
}

/// The bytes of sealed payloads.
pub open spec fn sealed_of(sealed: Seq<Option<Vec<u8>>>) -> Seq<Seq<u8>> {
    sealed.map_values(|s: Option<Vec<u8>>| s->Some_0@)
}

fn frame_job(payload: &[u8]) -> (job: FrameJob)
    ensures
        job.carries(payload@),
{
    let full: u128 = payload.len() as u128 + AEAD_OVERHEAD as u128;
    let len: u32 = (full % 4294967296) as u32;
    let mut header: Vec<u8> = Vec::with_capacity(FRAME_HEADER_SIZE);
    push_u32(&mut header, len);
    assert(header@ =~= be32(len as int));
    proof {
        crate::wire::lemma_be32_low_bits(full as int);
    }
    FrameJob { header: to_array::<4>(header.as_slice()), payload: copy_bytes(payload) }
}

/// Turns messages into frames.
#[derive(Debug, Clone, Copy, PartialEq, Eq, Structural)]
pub struct FrameWriter;

impl Default for FrameWriter {
    fn default() -> (w: Self)
        ensures
            w == FrameWriter,
    {
        FrameWriter
    }
}

impl FrameWriter {
    /// A frame writer.
    pub fn new() -> (w: Self)
        ensures
            w == FrameWriter,
    {
        FrameWriter
    }

    /// The frames of one message, in order, to be sealed and joined. A message
    /// longer than a frame is cut into several, and an empty one takes none.
    pub fn write_frame(&self, data: &[u8]) -> (jobs: Vec<FrameJob>)
        ensures
            jobs@.len() == frame_count(data@.len() as int),
            forall|i: int|
                0 <= i < jobs@.len() ==> (#[trigger] jobs@[i]).carries(frame_part(data@, i)),
    {
        let mut jobs: Vec<FrameJob> = Vec::new();
        let mut start: usize = 0;
        while start < data.len()
            invariant
                start <= data@.len(),
                start == jobs@.len() * MAX_FRAME_PAYLOAD || start == data@.len(),
                start == data@.len() ==> jobs@.len() == frame_count(data@.len() as int),
                forall|i: int|
                    0 <= i < jobs@.len() ==> (#[trigger] jobs@[i]).carries(frame_part(data@, i)),
            decreases data@.len() - start,
        {
            let rest: usize = data.len() - start;
            let take: usize = if rest < MAX_FRAME_PAYLOAD {
                rest
            } else {
                MAX_FRAME_PAYLOAD
            };
            let job = frame_job(slice_subrange(data, start, start + take));
            assert(data@.subrange(start as int, start + take) =~= frame_part(
                data@,
                jobs@.len() as int,
            ));
            jobs.push(job);
            start = start + take;
        }
        jobs
    }

    /// The frames of several messages, one frame each.
    pub fn write_frames_batch(&self, payloads: &[&[u8]]) -> (jobs: Vec<FrameJob>)
        ensures
            jobs@.len() == payloads@.len(),
            forall|i: int| 0 <= i < jobs@.len() ==> (#[trigger] jobs@[i]).carries(payloads@[i]@),
    {
        let mut jobs: Vec<FrameJob> = Vec::new();
        let mut i: usize = 0;
        while i < payloads.len()
            invariant
                i <= payloads@.len(),
                jobs@.len() == i,
                forall|k: int| 0 <= k < i ==> (#[trigger] jobs@[k]).carries(payloads@[k]@),
            decreases payloads@.len() - i,
        {
            let job = frame_job(payloads[i]);
            jobs.push(job);
            i += 1;
        }
        jobs
    }

    /// The frames of one message padded to the sizes of `profile`.
    pub fn write_frame_padded(&self, data: &[u8], profile: PaddingProfile) -> (jobs: Vec<FrameJob>)
        requires
            data@.len() + 2 <= usize::MAX,
        ensures
            exists|padded: Seq<u8>|
                {
                    &&& #[trigger] is_padding_of(padded, data@, profile)
                    &&& jobs@.len() == frame_count(padded.len() as int)
                    &&& forall|i: int|
                        0 <= i < jobs@.len() ==> (#[trigger] jobs@[i]).carries(frame_part(padded, i))
                },
    {
        let padded = apply_adaptive_padding(data, profile);
        self.write_frame(padded.as_slice())
    }

    /// The bytes to write for frames whose payloads have been sealed. A payload that
    /// could not be sealed fails the whole batch.
    pub fn join_frames(&self, jobs: &Vec<FrameJob>, sealed: &Vec<Option<Vec<u8>>>) -> (r: Result<
        Vec<u8>,
        FrameError,
    >)
        requires
            jobs@.len() == sealed@.len(),
        ensures
            r is Err <==> exists|i: int| 0 <= i < sealed@.len() && (#[trigger] sealed@[i]) is None,
            r matches Err(e) ==> e is EncryptFailed,
            r matches Ok(bytes) ==> bytes@ == batch_bytes(
                headers_of(jobs@),
                sealed_of(sealed@),
                jobs@.len() as int,
            ),
    {
        let mut out: Vec<u8> = Vec::new();
        let mut i: usize = 0;
        while i < jobs.len()
            invariant
                i <= jobs@.len(),
                jobs@.len() == sealed@.len(),
                forall|k: int| 0 <= k < i ==> (#[trigger] sealed@[k]) is Some,
                out@ == batch_bytes(headers_of(jobs@), sealed_of(sealed@), i as int),
            decreases jobs@.len() - i,
        {
            match &sealed[i] {
                None => {
                    assert(sealed@[i as int] is None);
                    return Err(FrameError::EncryptFailed);
                },
                Some(bytes) => {
                    append(&mut out, jobs[i].header.as_slice());
                    append(&mut out, bytes.as_slice());
                    assert(headers_of(jobs@)[i as int] == jobs@[i as int].header@);
                    assert(sealed_of(sealed@)[i as int] == bytes@);
                    assert(batch_bytes(headers_of(jobs@), sealed_of(sealed@), i + 1)
                        == batch_bytes(headers_of(jobs@), sealed_of(sealed@), i as int)
                        + headers_of(jobs@)[i as int] + sealed_of(sealed@)[i as int]);
                },
            }
            i += 1;
        }
        Ok(out)
    }
}

/// Reads frames back: first the header, then as many sealed bytes as it announces.
#[derive(Debug, Clone, Copy)]
pub struct FrameReader {
    header_buf: [u8; 4],
}

impl FrameReader {
    /// The header read last.
    pub closed spec fn header(&self) -> Seq<u8> {
        self.header_buf@
    }

    /// A reader that has read nothing.
    pub fn new() -> (r: Self)
        ensures
            r.header() == seq![0u8, 0u8, 0u8, 0u8],
    {
        let r = FrameReader { header_buf: [0u8; 4] };
        assert(r.header_buf@ =~= seq![0u8, 0u8, 0u8, 0u8]);
        r
    }

    /// Take a header. Returns how many sealed bytes to read after it.
    pub fn read_header(&mut self, header: [u8; 4]) -> (r: Result<usize, FrameError>)
        ensures
            final(self).header() == header@,
            be32_at(header@, 0) <= MAX_FRAME_PAYLOAD + AEAD_OVERHEAD ==> (r matches Ok(n) && n
                == be32_at(header@, 0)),
            be32_at(header@, 0) > MAX_FRAME_PAYLOAD + AEAD_OVERHEAD ==> (r matches Err(
                FrameError::FrameTooLarge(n),
            ) && n == be32_at(header@, 0)),
    {
        self.header_buf = header;
        let ct_len: usize = read_u32(header.as_slice(), 0) as usize;
        if ct_len > MAX_FRAME_PAYLOAD + AEAD_OVERHEAD {
            return Err(FrameError::FrameTooLarge(ct_len));
        }
        Ok(ct_len)
    }

    /// The header that authenticates the sealed bytes.
    pub fn associated_data(&self) -> (h: [u8; 4])
        ensures
            h@ == self.header(),
    {
        self.header_buf
    }

    /// The payload of the frame, given what opening its sealed bytes gave.
    pub fn read_frame(&self, opened: Option<Vec<u8>>) -> (r: Result<Vec<u8>, FrameError>)
        ensures
            opened matches Some(p) ==> r == Ok::<Vec<u8>, FrameError>(p),
            opened is None ==> (r matches Err(e) && e is DecryptFailed),
    {
        match opened {
            Some(payload) => Ok(payload),
            None => Err(FrameError::DecryptFailed),
        }
    }

    /// The payload of a padded frame. One whose padding cannot be taken off is
    /// returned as it is.
    pub fn read_frame_padded(&self, opened: Option<Vec<u8>>) -> (r: Result<Vec<u8>, FrameError>)
        ensures
            opened matches Some(p) ==> (r matches Ok(out) && out@ == (match stripped(p@) {
                Some(payload) => payload,
                None => p@,
            })),
            opened is None ==> (r matches Err(e) && e is DecryptFailed),
    {
        let padded = match self.read_frame(opened) {
            Ok(p) => p,
            Err(e) => {
                return Err(e);
            },
        };
        let payload: Vec<u8> = match strip_adaptive_padding(padded.as_slice()) {
            Some(payload) => copy_bytes(payload),
            None => {
                return Ok(padded);
            },
        };
        Ok(payload)
    }
}

impl Default for FrameReader {
    fn default() -> (r: Self)
        ensures
            r.header() == seq![0u8, 0u8, 0u8, 0u8],
    {
        FrameReader::new()
    }
}

/// The traffic whose packet sizes padding imitates.
#[derive(Debug, Clone, Copy, PartialEq, Eq, Structural)]
pub enum PaddingProfile {
    /// No padding.
    Off,
    DtlsSrtp,
    HttpsTls,
    FixedMtu,
}

impl PaddingProfile {
    /// The sizes that payloads are padded to, ascending.
    pub open spec fn sizes(self) -> Seq<usize> {
        match self {
            PaddingProfile::Off => seq![],
            PaddingProfile::DtlsSrtp => seq![64usize, 128, 256, 512, 1024, 1200],
            PaddingProfile::HttpsTls => seq![128usize, 256, 512, 1024, 2048, 4096, 8192],
            PaddingProfile::FixedMtu => seq![1400usize],
        }
    }

    fn size_list(self) -> (v: Vec<usize>)
        ensures
            v@ == self.sizes(),
            forall|i: int, j: int| 0 <= i < j < v@.len() ==> v@[i] < v@[j],
    {
        let v: Vec<usize> = match self {
            PaddingProfile::Off => vec![],
            PaddingProfile::DtlsSrtp => vec![64, 128, 256, 512, 1024, 1200],
            PaddingProfile::HttpsTls => vec![128, 256, 512, 1024, 2048, 4096, 8192],
            PaddingProfile::FixedMtu => vec![1400],
        };
        assert(v@ =~= self.sizes());
        v
    }
}

/// Whether `size` is the size that `len` bytes are padded to: the smallest size of
/// the profile that holds them, or their own length where none does.
#[verifier::opaque]
pub open spec fn is_pad_size(size: int, len: int, profile: PaddingProfile) -> bool {
    ||| exists|k: int|
        {
            &&& 0 <= k < profile.sizes().len()
            &&& #[trigger] profile.sizes()[k] == size
            &&& len <= size
            &&& forall|j: int|
                0 <= j < profile.sizes().len() && len <= #[trigger] profile.sizes()[j] ==> size
                    <= profile.sizes()[j]
        }
    ||| {
        &&& size == len
        &&& forall|j: int|
            0 <= j < profile.sizes().len() ==> #[trigger] profile.sizes()[j] < len
    }
}

/// The size that `payload_len` bytes are padded to.
pub fn adaptive_pad_size(payload_len: usize, profile: PaddingProfile) -> (size: usize)
    ensures
        is_pad_size(size as int, payload_len as int, profile),
        size >= payload_len,
{
    proof {
        reveal(is_pad_size);
    }
    let sizes = profile.size_list();
    let mut i: usize = 0;
    while i < sizes.len()
        invariant
            i <= sizes@.len(),
            sizes@ == profile.sizes(),
            forall|a: int, b: int| 0 <= a < b < sizes@.len() ==> sizes@[a] < sizes@[b],
            forall|j: int| 0 <= j < i ==> sizes@[j] < payload_len,
        decreases sizes@.len() - i,
    {
        proof {
            reveal(is_pad_size);
        }
        if payload_len <= sizes[i] {
            assert(profile.sizes()[i as int] == sizes@[i as int]);
            return sizes[i];
        }
        i += 1;
    }
    payload_len
}

/// Whether `padded` is the padded form of `payload`: its length in two bytes, the
/// payload, and zeros up to the size that the profile asks for.
pub open spec fn is_padding_of(padded: Seq<u8>, payload: Seq<u8>, profile: PaddingProfile) -> bool {
    &&& is_pad_size(padded.len() as int, payload.len() as int + 2, profile)
    &&& padded.len() >= payload.len() + 2
    &&& padded == be16(payload.len() as int) + payload + Seq::new(
        (padded.len() - payload.len() - 2) as nat,
        |i: int| 0u8,
    )
}

/// Pad `payload` to a size of the profile. The length field holds the low sixteen
/// bits of the length.
pub fn apply_adaptive_padding(payload: &[u8], profile: PaddingProfile) -> (padded: Vec<u8>)
    requires
        payload@.len() + 2 <= usize::MAX,
    ensures
        is_padding_of(padded@, payload@, profile),
{
    let padded_size: usize = adaptive_pad_size(payload.len() + 2, profile);
    let mut buf: Vec<u8> = Vec::with_capacity(padded_size);
    push_u16(&mut buf, (payload.len() % 65536) as u16);
    assert(be16((payload@.len() % 65536) as int) =~= be16(payload@.len() as int));
    append(&mut buf, payload);
    buf.resize(padded_size, 0);
    assert(buf@ =~= be16(payload@.len() as int) + payload@ + Seq::new(
        (padded_size - payload@.len() - 2) as nat,
        |i: int| 0u8,
    ));
    buf
}

/// What is left of a padded string without its length field and padding, if its
/// length field fits it.
pub open spec fn stripped(padded: Seq<u8>) -> Option<Seq<u8>> {
    if padded.len() < 2 || 2 + be16_at(padded, 0) > padded.len() {
        None
    } else {
        Some(padded.subrange(2, 2 + be16_at(padded, 0)))
    }
}

/// Take the length field and the padding off.
pub fn strip_adaptive_padding(padded: &[u8]) -> (r: Option<&[u8]>)
    ensures
        r is Some <==> stripped(padded@) is Some,
        r matches Some(payload) ==> Some(payload@) == stripped(padded@),
{
    if padded.len() < 2 {
        return None;
    }
    let orig_len: usize = read_u16(padded, 0) as usize;
    if orig_len > padded.len() - 2 {
        return None;
    }
    Some(slice_subrange(padded, 2, 2 + orig_len))
}

/// Padding is taken off again: what comes out is what was padded.
pub proof fn law_padding_comes_off(padded: Seq<u8>, payload: Seq<u8>, profile: PaddingProfile)
    requires
        payload.len() <= u16::MAX,
        is_padding_of(padded, payload, profile),
    ensures
        stripped(padded) == Some(payload),
{
    crate::wire::lemma_be_round_trip(payload.len() as int);
    assert(padded[0] == be16(payload.len() as int)[0]);
    assert(padded[1] == be16(payload.len() as int)[1]);
    assert(padded.subrange(2, 2 + payload.len() as int) =~= payload);
}

/// The size that a payload is padded to is determined by its length and the profile.
pub proof fn law_pad_size_is_unique(a: int, b: int, len: int, profile: PaddingProfile)
    requires
        is_pad_size(a, len, profile),
        is_pad_size(b, len, profile),
    ensures
        a == b,
        a >= len,
{
    reveal(is_pad_size);
}

/// The parts of a message that its frames carry, put together, are the message.
pub proof fn law_parts_make_up_the_message(data: Seq<u8>, n: int)
    requires
        0 <= n <= frame_count(data.len() as int),
    ensures
        parts_up_to(data, n) == data.subrange(
            0,
            if n * MAX_FRAME_PAYLOAD <= data.len() {
                n * MAX_FRAME_PAYLOAD
            } else {
                data.len() as int
            },
        ),
        n == frame_count(data.len() as int) ==> parts_up_to(data, n) == data,
    decreases n,
{
    if n > 0 {
        law_parts_make_up_the_message(data, n - 1);
        assert((n - 1) * MAX_FRAME_PAYLOAD < data.len());
        assert(parts_up_to(data, n) =~= data.subrange(
            0,
            if n * MAX_FRAME_PAYLOAD <= data.len() {
                n * MAX_FRAME_PAYLOAD
            } else {
                data.len() as int
            },
        ));
    } else {
        assert(parts_up_to(data, 0) =~= data.subrange(0, 0));
    }
    if n == frame_count(data.len() as int) {
        assert(data.subrange(0, data.len() as int) =~= data);
    }
}

/// The first `n` parts of a message, put together.
pub open spec fn parts_up_to(data: Seq<u8>, n: int) -> Seq<u8>
    decreases n,
{
    if n <= 0 {
        Seq::empty()
    } else {
        parts_up_to(data, n - 1) + frame_part(data, n - 1)
    }
}

/// Every frame that a message is cut into is one that a reader accepts, and its
/// header announces the length of its sealed payload.
pub proof fn law_written_frames_are_accepted(data: Seq<u8>, i: int)
    requires
        0 <= i < frame_count(data.len() as int),
    ensures
        be32_at(frame_header(frame_part(data, i).len() as int), 0) == frame_part(data, i).len()
            + AEAD_OVERHEAD,
        frame_part(data, i).len() + AEAD_OVERHEAD <= MAX_FRAME_PAYLOAD + AEAD_OVERHEAD,
        frame_part(data, i).len() > 0,
{
    assert(i * MAX_FRAME_PAYLOAD < data.len());
    crate::wire::lemma_be_round_trip(frame_part(data, i).len() + AEAD_OVERHEAD);
}

/// In a batch of sealed frames whose headers announce their lengths, each header
/// is found behind the frames before it, followed by the sealed bytes it announces.
pub proof fn law_batch_is_read_back(headers: Seq<Seq<u8>>, sealed: Seq<Seq<u8>>, n: int, i: int)
    requires
        0 <= i < n <= headers.len(),
        headers.len() == sealed.len(),
        forall|k: int| 0 <= k < n ==> #[trigger] headers[k] == be32(sealed[k].len() as int),
        forall|k: int| 0 <= k < n ==> (#[trigger] sealed[k]).len() <= u32::MAX,
    ensures
        ({
            let all = batch_bytes(headers, sealed, n);
            let at = batch_bytes(headers, sealed, i).len() as int;
            &&& at + 4 + sealed[i].len() <= all.len()
            &&& be32_at(all, at) == sealed[i].len()
            &&& all.subrange(at + 4, at + 4 + sealed[i].len()) == sealed[i]
        }),
    decreases n,
{
    let all = batch_bytes(headers, sealed, n);
    let at = batch_bytes(headers, sealed, i).len() as int;
    let before = batch_bytes(headers, sealed, n - 1);
    assert(headers[n - 1] == be32(sealed[n - 1].len() as int));
    if i == n - 1 {
        assert(all.subrange(at, at + 4) =~= headers[i]);
        crate::wire::lemma_be32_inside(all, at, sealed[i].len() as int);
        assert(all.subrange(at + 4, at + 4 + sealed[i].len()) =~= sealed[i]);
    } else {
        law_batch_is_read_back(headers, sealed, n - 1, i);
        assert(all.subrange(0, before.len() as int) =~= before);
        assert(all[at] == before[at]);
        assert(all[at + 1] == before[at + 1]);
        assert(all[at + 2] == before[at + 2]);
        assert(all[at + 3] == before[at + 3]);
        assert(all.subrange(at + 4, at + 4 + sealed[i].len()) =~= before.subrange(
            at + 4,
            at + 4 + sealed[i].len(),
        ));
    }
}

/// How a message is cut: into as few frames of 64 KiB as hold it, all of them full but the last, which is not
/// empty. The header of each is the length of its payload and the 16 bytes that sealing adds.
pub proof fn law_frames_are_full(data: Seq<u8>, i: int)
    requires
        0 <= i < frame_count(data.len() as int),
    ensures
        (frame_count(data.len() as int) - 1) * 65_536 < data.len() <= frame_count(data.len() as int)
            * 65_536,
        i < frame_count(data.len() as int) - 1 ==> frame_part(data, i).len() == 65_536,
        i == frame_count(data.len() as int) - 1 ==> frame_part(data, i).len() == data.len() - i
            * 65_536,
        forall|k: int|
            0 <= k < frame_part(data, i).len() ==> #[trigger] frame_part(data, i)[k] == data[i * 65_536
                + k],
        frame_header(frame_part(data, i).len() as int) == be32(
            frame_part(data, i).len() as int + 16,
        ),
{
}

/// An empty message takes no frame.
pub proof fn law_empty_message_takes_no_frame()
    ensures
        frame_count(0) == 0,
        frame_count(1) == 1,
        frame_count(65_536) == 1,
        frame_count(65_537) == 2,
{
}

/// The sizes that payloads are padded to, in numbers. Nothing is padded without a profile, and nothing above
/// the largest size of a profile.
pub proof fn law_pad_sizes_in_numbers(size: int, len: int, profile: PaddingProfile)
    requires
        is_pad_size(size, len, profile),
    ensures
        profile == PaddingProfile::Off ==> size == len,
        profile == PaddingProfile::FixedMtu ==> size == (if len <= 1400 {
            1400
        } else {
            len
        }),
        profile == PaddingProfile::DtlsSrtp ==> size == (if len <= 64 {
            64
        } else if len <= 128 {
            128
        } else if len <= 256 {
            256
        } else if len <= 512 {
            512
        } else if len <= 1024 {
            1024
        } else if len <= 1200 {
            1200
        } else {
            len
        }),
        profile == PaddingProfile::HttpsTls ==> size == (if len <= 128 {
            128
        } else if len <= 256 {
            256
        } else if len <= 512 {
            512
        } else if len <= 1024 {
            1024
        } else if len <= 2048 {
            2048
        } else if len <= 4096 {
            4096
        } else if len <= 8192 {
            8192
        } else {
            len
        }),
{
    reveal(is_pad_size);
    let s = profile.sizes();
    if profile == PaddingProfile::FixedMtu {
        assert(profile.sizes()[0] == 1400);
    }
    if s.len() > 5 {
        assert(s[1] == s[1] && s[2] == s[2] && s[3] == s[3] && s[4] == s[4] && s[5] == s[5]);
    }
    if s.len() > 6 {
        assert(s[6] == s[6]);
    }
}

/// What a padded payload looks like: its length in two bytes, the payload, and zeros; and what comes off it
/// again is as long as the length field says, if that much is there.
pub proof fn law_padding_is_zeros(padded: Seq<u8>, payload: Seq<u8>, profile: PaddingProfile)
    requires
        is_padding_of(padded, payload, profile),
        payload.len() <= 65_535,
    ensures
        be16_at(padded, 0) == payload.len(),
        padded.subrange(2, 2 + payload.len() as int) == payload,
        forall|i: int| 2 + payload.len() <= i < padded.len() ==> #[trigger] padded[i] == 0,
        stripped(padded) is Some <==> padded.len() >= 2 && padded.len() >= 2 + be16_at(padded, 0),
        stripped(padded) is Some ==> stripped(padded)->0 == padded.subrange(
            2,
            2 + be16_at(padded, 0),
        ),
{
    law_padding_comes_off(padded, payload, profile);
    crate::wire::lemma_be_round_trip(payload.len() as int);
    assert(padded[0] == be16(payload.len() as int)[0]);
    assert(padded[1] == be16(payload.len() as int)[1]);
}

/// What is refused as padding: a string without a length field, or with one that says more than there is.
pub proof fn law_false_padding_is_refused(padded: Seq<u8>)
    ensures
        padded.len() < 2 ==> stripped(padded) is None,
        padded.len() >= 2 && padded[0] * 256 + padded[1] > padded.len() - 2 ==> stripped(padded)
            is None,
        padded.len() >= 2 && padded[0] * 256 + padded[1] <= padded.len() - 2 ==> stripped(padded)
            == Some(padded.subrange(2, 2 + padded[0] * 256 + padded[1])),
{
}

} // verus!
