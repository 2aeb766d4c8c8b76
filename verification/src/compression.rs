//! Adaptive payload compression with LZ4 or Zstd. Compression switches itself off
//! when the first samples show that it does not pay.

use crate::metrics::Ratio;
use crate::text::{hex_byte, push_hex_byte};
use crate::wire::{copy_bytes, le32_at, read_u32_le};
use vstd::prelude::*;

verus! {

/// Payloads shorter than this are not compressed.
pub const MIN_COMPRESS_SIZE: usize = 64;

/// A compression algorithm.
#[derive(Debug, Clone, Copy, PartialEq, Eq, Structural)]
pub enum CompressionAlgo {
    /// No compression.
    Off,
    /// LZ4 block compression.
    Lz4,
    /// Zstd.
    Zstd1,
}

impl CompressionAlgo {
    /// The byte that stands for the algorithm.
    pub open spec fn spec_byte(self) -> u8 {
        match self {
            CompressionAlgo::Off => 0,
            CompressionAlgo::Lz4 => 1,
            CompressionAlgo::Zstd1 => 2,
        }
    }

    /// The algorithm that a byte stands for.
    pub fn from_byte(b: u8) -> (r: Option<Self>)
        ensures
            r is Some <==> b <= 2,
            r matches Some(algo) ==> algo.spec_byte() == b,
    {
        match b {
            0 => Some(CompressionAlgo::Off),
            1 => Some(CompressionAlgo::Lz4),
            2 => Some(CompressionAlgo::Zstd1),
            _ => None,
        }
    }

    /// The byte that stands for the algorithm.
    pub fn to_byte(self) -> (b: u8)
        ensures
            b == self.spec_byte(),
    {
        match self {
            CompressionAlgo::Off => 0,
            CompressionAlgo::Lz4 => 1,
            CompressionAlgo::Zstd1 => 2,
        }
    }
}

/// What `lz4_flex::compress_prepend_size` makes of a byte string on the target that the crate
/// is built for. The block is one that every target decompresses to the same bytes, but
/// targets of 32 and of 64 bits hash their input differently and may pick other matches: the
/// name is not to be compared across the two.
pub uninterp spec fn lz4_encoded(data: Seq<u8>) -> Seq<u8>;

/// What `lz4_flex::decompress_size_prepended` makes of a byte string, or the text of its error.
pub uninterp spec fn lz4_decoded(data: Seq<u8>) -> Result<Seq<u8>, Seq<char>>;

/// Whether a byte string is decompressed to `data`.
pub open spec fn lz4_holds(encoded: Seq<u8>, data: Seq<u8>) -> bool {
    lz4_decoded(encoded) matches Ok(plain) && plain == data
}

/// What `zstd::encode_all` makes of a byte string at a level.
pub uninterp spec fn zstd_encoded(data: Seq<u8>, level: int) -> Option<Seq<u8>>;

/// What `zstd::decode_all` makes of a byte string, or the text of its error.
pub uninterp spec fn zstd_decoded(data: Seq<u8>) -> Result<Seq<u8>, Seq<char>>;

/// Whether `n` bytes 0xff stand in `data` from `i` on.
pub open spec fn ff_run(data: Seq<u8>, i: int, n: int) -> bool {
    &&& 0 <= i
    &&& 0 <= n
    &&& i + n <= data.len()
    &&& forall|j: int| i <= j < i + n ==> data[j] == 0xffu8
}

/// Whether lengths made of `n` bytes 0xff and one byte more can be added up: the sum fits 32
/// bits, and with what a length starts from and the `announced` bytes of output it fits a
/// machine word.
pub open spec fn sum_fits(n: int, announced: int) -> bool {
    &&& 255 * n + 254 <= u32::MAX
    &&& announced + 19 + 255 * n + 254 <= usize::MAX
}

/// Whether the LZ4 decoder can work on a byte string: the length that it announces can be
/// allocated, and no run of bytes 0xff behind it is so long that a length made of it would
/// overflow. A byte string of less than 16 MB has no such run on a machine of 64 bits.
pub open spec fn lz4_readable(data: Seq<u8>) -> bool {
    data.len() >= 4 ==> {
        &&& le32_at(data, 0) <= isize::MAX
        &&& forall|i: int, n: int|
            4 <= i && #[trigger] ff_run(data, i, n) ==> sum_fits(n, le32_at(data, 0))
    }
}

/// Whether a byte string can be handed to the algorithm that the byte stands for.
pub open spec fn decompressible(algo_byte: u8, data: Seq<u8>) -> bool {
    algo_byte == 1 ==> lz4_readable(data)
}

/// Calls `lz4_flex::compress_prepend_size`: an LZ4 block behind the length of the
/// input in four bytes, little-endian. `lz4_flex::decompress_size_prepended` gives the input back,
/// as long as its length fits the four bytes. It reserves 110 bytes for each 100 of the input
/// and panics where that overflows, which the precondition leaves out.
#[verifier::external_body]
fn lz4_encode(data: &[u8]) -> (r: Vec<u8>)
    requires
        data@.len() * 110 <= usize::MAX,
    ensures
        r@ == lz4_encoded(data@),
        data@.len() > u32::MAX || lz4_holds(r@, data@),
        data@.len() > u32::MAX || r@.len() >= 4 && le32_at(r@, 0) == data@.len(),
{
    lz4_flex::compress_prepend_size(data)
}

/// Calls `lz4_flex::decompress_size_prepended`, and turns its error into text. It reserves
/// the length that the first four bytes announce and panics where no allocation can hold it.
/// A length in the block is the sum of its bytes up to the first that is not 0xff; it is added
/// up in 32 bits, then to 15 or 19 and to the place in the output, and overflow panics. The
/// precondition leaves both out.
#[verifier::external_body]
fn lz4_decode(data: &[u8]) -> (r: Result<Vec<u8>, String>)
    requires
        lz4_readable(data@),
    ensures
        r matches Ok(out) ==> (lz4_decoded(data@) matches Ok(plain) && plain == out@),
        r matches Err(text) ==> (lz4_decoded(data@) matches Err(message) && message == text@),
{
    lz4_flex::decompress_size_prepended(data).map_err(|e| e.to_string())
}

/// Calls `zstd::encode_all`: a Zstd frame of the input, from which `zstd::decode_all`
/// gives the input back.
#[verifier::external_body]
fn zstd_encode(data: &[u8], level: i32) -> (r: Option<Vec<u8>>)
    ensures
        r matches Some(out) ==> zstd_encoded(data@, level as int) == Some(out@),
        r is None ==> zstd_encoded(data@, level as int) is None,
        r matches Some(out) ==> (zstd_decoded(out@) matches Ok(plain) && plain == data@),
{
    zstd::encode_all(data, level).ok()
}

/// Calls `zstd::decode_all`, and turns its error into text.
#[verifier::external_body]
fn zstd_decode(data: &[u8]) -> (r: Result<Vec<u8>, String>)
    ensures
        r matches Ok(out) ==> (zstd_decoded(data@) matches Ok(plain) && plain == out@),
        r matches Err(text) ==> (zstd_decoded(data@) matches Err(message) && message == text@),
{
    zstd::decode_all(data).map_err(|e| e.to_string())
}

/// Compression statistics. The counters wrap at their limit.
#[derive(Debug, Clone, Copy, PartialEq, Eq, Structural)]
pub struct CompressionStats {
    /// Uncompressed bytes fed in.
    pub total_input: u64,
    /// Compressed bytes that came out.
    pub total_output: u64,
    /// How many payloads were compressed.
    pub samples: u32,
}

impl Default for CompressionStats {
    fn default() -> (s: Self)
        ensures
            s == no_samples(),
    {
        CompressionStats::new()
    }
}

/// Statistics of nothing.
pub open spec fn no_samples() -> CompressionStats {
    CompressionStats { total_input: 0, total_output: 0, samples: 0 }
}

impl CompressionStats {
    /// Statistics of nothing.
    pub fn new() -> (s: Self)
        ensures
            s == no_samples(),
    {
        CompressionStats { total_input: 0, total_output: 0, samples: 0 }
    }

    /// The input in units of the output; one where nothing came out.
    pub open spec fn spec_ratio(self) -> Ratio {
        if self.total_output == 0 {
            Ratio { numerator: 1, denominator: 1 }
        } else {
            Ratio { numerator: self.total_input, denominator: self.total_output }
        }
    }

    /// The compression ratio, input over output: higher is better, one is no gain.
    pub fn ratio(&self) -> (r: Ratio)
        ensures
            r == self.spec_ratio(),
    {
        if self.total_output == 0 {
            Ratio { numerator: 1, denominator: 1 }
        } else {
            Ratio { numerator: self.total_input, denominator: self.total_output }
        }
    }

    /// The statistics with one more payload counted.
    pub open spec fn with_sample(self, input: nat, output: nat) -> CompressionStats {
        CompressionStats {
            total_input: ((self.total_input + input) % 18446744073709551616) as u64,
            total_output: ((self.total_output + output) % 18446744073709551616) as u64,
            samples: ((self.samples + 1) % 4294967296) as u32,
        }
    }
}

/// Whether a ratio is below a threshold in hundredths.
pub open spec fn ratio_below(r: Ratio, threshold_percent: u32) -> bool {
    r.numerator * 100 < r.denominator * threshold_percent
}

/// The state of a compressor.
#[derive(Debug, Clone, Copy, PartialEq, Eq, Structural)]
pub struct CompressorState {
    pub algo: CompressionAlgo,
    pub stats: CompressionStats,
    /// Compression stays on only if the ratio reaches this many hundredths.
    pub probe_threshold_percent: u32,
    /// After how many samples the ratio is looked at.
    pub probe_samples: u32,
    /// Whether the look at the ratio switched compression off.
    pub disabled_by_probe: bool,
    /// The Zstd level, from 1 to 22.
    pub zstd_level: i32,
}

impl CompressorState {
    /// A fresh compressor.
    pub open spec fn fresh(algo: CompressionAlgo, level: i32) -> CompressorState {
        CompressorState {
            algo,
            stats: no_samples(),
            probe_threshold_percent: 105,
            probe_samples: 32,
            disabled_by_probe: false,
            zstd_level: level,
        }
    }

    /// The algorithm in use.
    pub open spec fn active(self) -> CompressionAlgo {
        if self.disabled_by_probe {
            CompressionAlgo::Off
        } else {
            self.algo
        }
    }

    /// Whether a payload is put through the algorithm at all.
    pub open spec fn tries(self, data: Seq<u8>) -> bool {
        self.active() != CompressionAlgo::Off && data.len() >= MIN_COMPRESS_SIZE
    }

    /// What the algorithm makes of a payload.
    pub open spec fn encoded(self, data: Seq<u8>) -> Seq<u8> {
        match self.active() {
            CompressionAlgo::Off => data,
            CompressionAlgo::Lz4 => lz4_encoded(data),
            CompressionAlgo::Zstd1 => match zstd_encoded(data, self.zstd_level as int) {
                Some(frame) => frame,
                None => data,
            },
        }
    }

    /// Whether counting a payload that came out `output` bytes long ends the trial
    /// period with too small a gain.
    pub open spec fn gives_up(self, input: nat, output: nat) -> bool {
        let stats = self.stats.with_sample(input, output);
        stats.samples == self.probe_samples && ratio_below(
            stats.spec_ratio(),
            self.probe_threshold_percent,
        )
    }

    /// The state after a payload was compressed.
    pub open spec fn counted(self, input: nat, output: nat) -> CompressorState {
        CompressorState {
            stats: self.stats.with_sample(input, output),
            disabled_by_probe: self.disabled_by_probe || self.gives_up(input, output),
            ..self
        }
    }

    /// What is handed out for a payload and its compressed form: the byte of the
    /// algorithm and the bytes to send.
    pub open spec fn choice(self, data: Seq<u8>, compressed: Seq<u8>) -> (u8, Seq<u8>) {
        if self.gives_up(data.len(), compressed.len()) || compressed.len() >= data.len() {
            (0u8, data)
        } else {
            (self.active().spec_byte(), compressed)
        }
    }
}

/// What decompression gives, if it succeeds.
pub open spec fn decompressed(algo_byte: u8, data: Seq<u8>) -> Option<Seq<u8>> {
    if algo_byte == 0 {
        Some(data)
    } else if algo_byte == 1 {
        match lz4_decoded(data) {
            Ok(plain) => Some(plain),
            Err(_) => None,
        }
    } else if algo_byte == 2 {
        match zstd_decoded(data) {
            Ok(plain) => Some(plain),
            Err(_) => None,
        }
    } else {
        None
    }
}

/// A compressor that switches itself off where compression does not pay.
pub struct AdaptiveCompressor {
    state: CompressorState,
}

impl View for AdaptiveCompressor {
    type V = CompressorState;

    closed spec fn view(&self) -> CompressorState {
        self.state
    }
}

impl AdaptiveCompressor {
    /// A compressor for `algo`.
    pub fn new(algo: CompressionAlgo) -> (c: Self)
        ensures
            c@ == CompressorState::fresh(algo, 1),
    {
        AdaptiveCompressor {
            state: CompressorState {
                algo,
                stats: CompressionStats::new(),
                probe_threshold_percent: 105,
                probe_samples: 32,
                disabled_by_probe: false,
                zstd_level: 1,
            },
        }
    }

    /// A compressor that compresses nothing.
    pub fn none() -> (c: Self)
        ensures
            c@ == CompressorState::fresh(CompressionAlgo::Off, 1),
    {
        AdaptiveCompressor::new(CompressionAlgo::Off)
    }

    /// An LZ4 compressor.
    pub fn lz4() -> (c: Self)
        ensures
            c@ == CompressorState::fresh(CompressionAlgo::Lz4, 1),
    {
        AdaptiveCompressor::new(CompressionAlgo::Lz4)
    }

    /// A Zstd compressor, with the level brought into the range from 1 to 22.
    pub fn zstd(level: i32) -> (c: Self)
        ensures
            c@ == CompressorState::fresh(
                CompressionAlgo::Zstd1,
                if level < 1 {
                    1
                } else if level > 22 {
                    22
                } else {
                    level
                },
            ),
    {
        let mut c = AdaptiveCompressor::new(CompressionAlgo::Zstd1);
        c.state.zstd_level = if level < 1 {
            1
        } else if level > 22 {
            22
        } else {
            level
        };
        c
    }

    /// Set after how many samples the ratio is looked at, and how many hundredths
    /// it has to reach.
    pub fn set_probe(&mut self, samples: u32, threshold_percent: u32)
        ensures
            final(self)@ == (CompressorState {
                probe_samples: samples,
                probe_threshold_percent: threshold_percent,
                ..old(self)@
            }),
    {
        self.state.probe_samples = samples;
        self.state.probe_threshold_percent = threshold_percent;
    }

    /// The algorithm in use, which is none once the ratio was found too small.
    pub fn algorithm(&self) -> (a: CompressionAlgo)
        ensures
            a == self@.active(),
    {
        if self.state.disabled_by_probe {
            CompressionAlgo::Off
        } else {
            self.state.algo
        }
    }

    /// Whether payloads are compressed.
    pub fn is_active(&self) -> (b: bool)
        ensures
            b == (self@.active() != CompressionAlgo::Off),
    {
        self.algorithm() != CompressionAlgo::Off
    }

    /// Whether the look at the ratio switched compression off.
    pub fn is_disabled_by_probe(&self) -> (b: bool)
        ensures
            b == self@.disabled_by_probe,
    {
        self.state.disabled_by_probe
    }

    /// Compress a payload: the byte of the algorithm and the bytes to send. The
    /// payload is handed out as it is where compression is off, where the payload
    /// is small and where its compressed form is not shorter. Decompression gives
    /// the payload back. LZ4 needs room for 110 bytes for each 100 of the payload. What comes
    /// of a payload of less than 16 MB can always be handed to `decompress`.
    pub fn compress(&mut self, data: &[u8]) -> (r: (u8, Vec<u8>))
        requires
            old(self)@.active() == CompressionAlgo::Lz4 ==> data@.len() * 110 <= usize::MAX,
        ensures
            !old(self)@.tries(data@) ==> {
                &&& final(self)@ == old(self)@
                &&& r.0 == 0
                &&& r.1@ == data@
            },
            old(self)@.tries(data@) ==> {
                &&& final(self)@ == old(self)@.counted(
                    data@.len(),
                    old(self)@.encoded(data@).len(),
                )
                &&& (r.0, r.1@) == old(self)@.choice(data@, old(self)@.encoded(data@))
            },
            data@.len() <= u32::MAX ==> decompressed(r.0, r.1@) == Some(data@),
            256 * data@.len() <= u32::MAX ==> decompressible(r.0, r.1@),
    {
        let active = self.algorithm();
        if data.len() < MIN_COMPRESS_SIZE {
            return (0, copy_bytes(data));
        }
        let compressed: Vec<u8> = match active {
            CompressionAlgo::Off => {
                return (0, copy_bytes(data));
            },
            CompressionAlgo::Lz4 => lz4_encode(data),
            CompressionAlgo::Zstd1 => match zstd_encode(data, self.state.zstd_level) {
                Some(frame) => frame,
                None => copy_bytes(data),
            },
        };
        self.settle(data, compressed)
    }

    /// Count a payload and its compressed form, and decide which of the two to send.
    pub fn settle(&mut self, data: &[u8], compressed: Vec<u8>) -> (r: (u8, Vec<u8>))
        ensures
            final(self)@ == old(self)@.counted(data@.len(), compressed@.len()),
            (r.0, r.1@) == old(self)@.choice(data@, compressed@),
    {
        let active = self.algorithm();
        let stats = CompressionStats {
            total_input: self.state.stats.total_input.wrapping_add(data.len() as u64),
            total_output: self.state.stats.total_output.wrapping_add(compressed.len() as u64),
            samples: self.state.stats.samples.wrapping_add(1),
        };
        assert(stats == self@.stats.with_sample(data@.len(), compressed@.len()));
        self.state.stats = stats;
        let ratio = stats.ratio();
        let threshold: u32 = self.state.probe_threshold_percent;
        assert(ratio.denominator * threshold <= 18446744073709551615 * 4294967295)
            by (nonlinear_arith)
            requires
                ratio.denominator <= 18446744073709551615,
                threshold <= 4294967295,
        ;
        let below = (ratio.numerator as u128) * 100 < (ratio.denominator as u128) * (
        threshold as u128);
        if stats.samples == self.state.probe_samples && below {
            self.state.disabled_by_probe = true;
            return (0, copy_bytes(data));
        }
        if compressed.len() < data.len() {
            (active.to_byte(), compressed)
        } else {
            (0, copy_bytes(data))
        }
    }

    /// Whether `decompress` can work on a byte string.
    pub fn can_decompress(algo_byte: u8, data: &[u8]) -> (b: bool)
        ensures
            b == decompressible(algo_byte, data@),
    {
        if algo_byte != 1 || data.len() < 4 {
            return true;
        }
        let announced: u32 = read_u32_le(data, 0);
        let longest: usize = longest_ff_run(data);
        let sum: u128 = 255 * longest as u128 + 254;
        let good: bool = announced as u64 <= isize::MAX as u64 && sum <= u32::MAX as u128
            && announced as u128 + 19 + sum <= usize::MAX as u128;
        proof {
            let i = choose|i: int| 4 <= i && #[trigger] ff_run(data@, i, longest as int);
            assert(ff_run(data@, i, longest as int));
        }
        good
    }

    /// Undo compression by the algorithm that the byte stands for. An LZ4 block has to
    /// announce a length that can be allocated, as any is on a 64-bit machine, and to hold no
    /// run of bytes 0xff that is too long to add up; `can_decompress` tells.
    pub fn decompress(algo_byte: u8, data: &[u8]) -> (r: Result<Vec<u8>, CompressionError>)
        requires
            decompressible(algo_byte, data@),
        ensures
            algo_byte == 0 ==> (r matches Ok(out) && out@ == data@),
            algo_byte == 1 ==> (match lz4_decoded(data@) {
                Ok(plain) => r matches Ok(out) && out@ == plain,
                Err(text) => r matches Err(CompressionError::DecompressFailed(m)) && m@ == "LZ4: "@
                    + text,
            }),
            algo_byte == 2 ==> (match zstd_decoded(data@) {
                Ok(plain) => r matches Ok(out) && out@ == plain,
                Err(text) => r matches Err(CompressionError::DecompressFailed(m)) && m@ == "Zstd: "@
                    + text,
            }),
            algo_byte > 2 ==> (r matches Err(CompressionError::UnknownAlgorithm(b)) && b
                == algo_byte),
            r is Ok <==> decompressed(algo_byte, data@) is Some,
            r matches Ok(out) ==> decompressed(algo_byte, data@) == Some(out@),
    {
        match CompressionAlgo::from_byte(algo_byte) {
            None => Err(CompressionError::UnknownAlgorithm(algo_byte)),
            Some(CompressionAlgo::Off) => Ok(copy_bytes(data)),
            Some(CompressionAlgo::Lz4) => match lz4_decode(data) {
                Ok(out) => Ok(out),
                Err(text) => {
                    let mut m: String = "LZ4: ".to_owned();
                    m.append(text.as_str());
                    Err(CompressionError::DecompressFailed(m))
                },
            },
            Some(CompressionAlgo::Zstd1) => match zstd_decode(data) {
                Ok(out) => Ok(out),
                Err(text) => {
                    let mut m: String = "Zstd: ".to_owned();
                    m.append(text.as_str());
                    Err(CompressionError::DecompressFailed(m))
                },
            },
        }
    }

    /// The statistics.
    pub fn stats(&self) -> (s: &CompressionStats)
        ensures
            *s == self@.stats,
    {
        &self.state.stats
    }

    /// Forget the samples, and switch compression on again.
    pub fn reset_probe(&mut self)
        ensures
            final(self)@ == (CompressorState {
                stats: no_samples(),
                disabled_by_probe: false,
                ..old(self)@
            }),
    {
        self.state.stats = CompressionStats::new();
        self.state.disabled_by_probe = false;
    }
}

/// The length of the longest run of bytes 0xff behind the first four bytes.
fn longest_ff_run(data: &[u8]) -> (longest: usize)
    requires
        data@.len() >= 4,
    ensures
        exists|i: int| 4 <= i && #[trigger] ff_run(data@, i, longest as int),
        forall|i: int, n: int| 4 <= i && #[trigger] ff_run(data@, i, n) ==> n <= longest,
{
    let mut longest: usize = 0;
    let mut run: usize = 0;
    let mut at: usize = 4;
    assert(ff_run(data@, 4, 0));
    while at < data.len()
        invariant
            4 <= at <= data@.len(),
            run <= at - 4,
            run <= longest <= at - 4,
            ff_run(data@, at - run, run as int),
            at - run == 4 || data@[at - run - 1] != 0xffu8,
            exists|i: int| 4 <= i && #[trigger] ff_run(data@, i, longest as int),
            forall|i: int, n: int|
                4 <= i && i + n <= at && #[trigger] ff_run(data@, i, n) ==> n <= longest,
        decreases data@.len() - at,
    {
        let ghost old_run = run as int;
        let ghost old_longest = longest as int;
        if data[at] == 0xff {
            run += 1;
            assert(ff_run(data@, at + 1 - run, run as int));
            if run > longest {
                longest = run;
            }
        } else {
            run = 0;
            assert(ff_run(data@, at + 1, 0));
        }
        proof {
            assert forall|i: int, n: int|
                4 <= i && i + n <= at + 1 && #[trigger] ff_run(data@, i, n) implies n
                <= longest by {
                if i + n == at + 1 && n > 0 {
                    assert(data@[at as int] == 0xffu8);
                    if n > run {
                        assert(data@[at - old_run - 1] == 0xffu8);
                    }
                }
            }
        }
        at += 1;
    }
    longest
}

/// A compression error.
#[derive(Debug, Clone)]
pub enum CompressionError {
    UnknownAlgorithm(u8),
    DecompressFailed(String),
}

impl CompressionError {
    /// The message of the error.
    pub open spec fn spec_text(self) -> Seq<char> {
        match self {
            CompressionError::UnknownAlgorithm(b) => "Unknown compression algorithm: 0x"@
                + hex_byte(b),
            CompressionError::DecompressFailed(m) => "Decompression failed: "@ + m@,
        }
    }

    /// The message of the error.
    pub fn to_text(&self) -> (s: String)
        ensures
            s@ == self.spec_text(),
    {
        match self {
            CompressionError::UnknownAlgorithm(b) => {
                let mut s: String = "Unknown compression algorithm: 0x".to_owned();
                push_hex_byte(&mut s, *b);
                s
            },
            CompressionError::DecompressFailed(m) => {
                let mut s: String = "Decompression failed: ".to_owned();
                s.append(m.as_str());
                s
            },
        }
    }
}

/// What is handed out is never longer than the payload.
pub proof fn law_compression_never_expands(
    state: CompressorState,
    data: Seq<u8>,
    compressed: Seq<u8>,
)
    ensures
        state.choice(data, compressed).1.len() <= data.len(),
{
}

/// Once the trial period ended with too small a gain, nothing is compressed until
/// the samples are forgotten.
pub proof fn law_disabled_stays_disabled(
    state: CompressorState,
    data: Seq<u8>,
    input: nat,
    output: nat,
)
    requires
        state.disabled_by_probe || state.gives_up(input, output),
    ensures
        !state.counted(input, output).tries(data),
        state.counted(input, output).active() == CompressionAlgo::Off,
{
}

/// Compression is switched off exactly by the sample that ends the trial period with less input
/// per output than the threshold, in hundredths; nothing but that sample switches it off, and
/// nothing that is counted switches it on again.
pub proof fn law_compression_ends_only_where_it_does_not_pay(
    state: CompressorState,
    input: nat,
    output: nat,
)
    requires
        state.stats.total_input + input <= u64::MAX,
        state.stats.total_output + output <= u64::MAX,
        state.stats.samples < u32::MAX,
        state.stats.total_output + output > 0,
    ensures
        ({
            let next = state.counted(input, output);
            let gain = (state.stats.total_input + input) * 100;
            let due = (state.stats.total_output + output) * state.probe_threshold_percent;
            &&& gain >= due ==> next.disabled_by_probe == state.disabled_by_probe
            &&& state.stats.samples + 1 != state.probe_samples ==> next.disabled_by_probe
                == state.disabled_by_probe
            &&& gain < due && state.stats.samples + 1 == state.probe_samples
                ==> next.disabled_by_probe
            &&& state.disabled_by_probe ==> next.disabled_by_probe
            &&& next.stats.total_input == state.stats.total_input + input
            &&& next.stats.total_output == state.stats.total_output + output
            &&& next.stats.samples == state.stats.samples + 1
            &&& next.algo == state.algo && next.zstd_level == state.zstd_level
            &&& next.probe_samples == state.probe_samples && next.probe_threshold_percent
                == state.probe_threshold_percent
        }),
{
}

/// What is handed out: a compressed form that is shorter than the payload, behind the byte of
/// the algorithm in use, unless that very payload switched compression off; else the payload.
/// The byte is 1 for LZ4 and 2 for Zstd, and 0 always means the payload itself.
pub proof fn law_shorter_form_is_handed_out(
    state: CompressorState,
    data: Seq<u8>,
    compressed: Seq<u8>,
)
    ensures
        ({
            let out = state.choice(data, compressed);
            let next = state.counted(data.len(), compressed.len());
            &&& out.1 == data || out.1 == compressed
            &&& out.1 != data ==> out.1 == compressed && compressed.len() < data.len()
            &&& compressed.len() >= data.len() ==> out == (0u8, data)
            &&& compressed.len() < data.len() && !state.disabled_by_probe && state.algo
                == CompressionAlgo::Lz4 && !next.disabled_by_probe ==> out == (1u8, compressed)
            &&& compressed.len() < data.len() && !state.disabled_by_probe && state.algo
                == CompressionAlgo::Zstd1 && !next.disabled_by_probe ==> out == (2u8, compressed)
            &&& !state.disabled_by_probe && next.disabled_by_probe ==> out == (0u8, data)
        }),
{
}

/// Which payloads are compressed: all of 64 bytes or more, until compression is switched off or
/// where there is an algorithm at all. A fresh compressor looks at its 32nd sample for a gain of
/// five hundredths.
pub proof fn law_which_payloads_are_compressed(
    state: CompressorState,
    algo: CompressionAlgo,
    level: i32,
    data: Seq<u8>,
)
    ensures
        state.tries(data) <==> data.len() >= 64 && !state.disabled_by_probe && state.algo
            != CompressionAlgo::Off,
        state.disabled_by_probe ==> state.encoded(data) == data,
        !state.disabled_by_probe && state.algo == CompressionAlgo::Lz4 ==> state.encoded(data)
            == lz4_encoded(data),
        !state.disabled_by_probe && state.algo == CompressionAlgo::Zstd1 ==> state.encoded(data)
            == (match zstd_encoded(data, state.zstd_level as int) {
            Some(frame) => frame,
            None => data,
        }),
        ({
            let fresh = CompressorState::fresh(algo, level);
            &&& fresh.algo == algo && fresh.zstd_level == level && !fresh.disabled_by_probe
            &&& fresh.stats.samples == 0 && fresh.stats.total_input == 0
                && fresh.stats.total_output == 0
            &&& fresh.probe_samples == 32 && fresh.probe_threshold_percent == 105
        }),
{
}

/// What the bytes of the algorithms mean to a reader: 0 is the payload itself, 1 an LZ4 block, 2
/// a Zstd frame, and no other byte is read.
pub proof fn law_algorithm_bytes_are_read(algo_byte: u8, data: Seq<u8>)
    ensures
        decompressed(0, data) == Some(data),
        decompressed(1, data) is Some <==> lz4_decoded(data) is Ok,
        lz4_decoded(data) matches Ok(plain) ==> decompressed(1, data) == Some(plain),
        decompressed(2, data) is Some <==> zstd_decoded(data) is Ok,
        zstd_decoded(data) matches Ok(plain) ==> decompressed(2, data) == Some(plain),
        algo_byte > 2 ==> decompressed(algo_byte, data) is None,
        CompressionAlgo::Off.spec_byte() == 0,
        CompressionAlgo::Lz4.spec_byte() == 1,
        CompressionAlgo::Zstd1.spec_byte() == 2,
{
}

/// Where nothing came out of the compressor, the ratio counts as one to one, which is judged like any other.
pub proof fn law_nothing_out_counts_as_no_gain(state: CompressorState, input: nat)
    requires
        state.stats.total_output == 0,
        state.stats.samples < u32::MAX,
    ensures
        ({
            let next = state.counted(input, 0);
            &&& state.stats.samples + 1 == state.probe_samples ==> (next.disabled_by_probe
                <==> state.disabled_by_probe || state.probe_threshold_percent > 100)
            &&& state.stats.samples + 1 != state.probe_samples ==> next.disabled_by_probe
                == state.disabled_by_probe
        }),
{
    let stats = state.stats.with_sample(input, 0);
    assert(stats.total_output == 0);
    assert(stats.samples == state.stats.samples + 1);
    assert(stats.spec_ratio() == (Ratio { numerator: 1, denominator: 1 }));
}

} // verus!
