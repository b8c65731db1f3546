//! Compression of payloads: the choice of algorithm, the dispatch to the
//! codecs, and the statistics of what was compressed.
//!
//! Measuring a payload's entropy takes floating point, so the caller hands
//! in its verdict as a `DataProfile`; the byte counts it rests on, and
//! whether the payload repeats itself, are computed here.

use vstd::prelude::*;
use crate::broker::codecs::{
    brotli_compress, brotli_decoded, brotli_decompress, brotli_encoded, cpu_count,
    deflate_compress, deflate_decoded, deflate_decompress, deflate_encoded, elapsed_since,
    gzip_compress, gzip_decoded, gzip_decompress, gzip_encoded, instant_now, lz4_sized_block,
    lz4_compress, lz4_decompress_sized, lz4_sized_decoded, snappy_compress, snappy_decoded,
    snappy_compressible, snappy_decompress, snappy_encoded, xz_compress, xz_decoded, xz_decompress, xz_encoded,
    zstd_decode, zstd_decoded, zstd_encode, zstd_encoded,
};
use crate::broker::error::{Error, Result};
use crate::broker::message::{Message, MessageMetadata};
use crate::broker::names::NameMap;
use crate::broker::security::{zero_bytes, zeros};
use crate::broker::time::duration_as_nanos;
use crate::qiss::buffer::{bytes_as_slice, bytes_from_vec, bytes_view};
use crate::qiss::types::Timestamp;

verus! {

/// Compression configuration.
#[derive(Debug, Clone, Copy)]
pub struct CompressionConfig {
    /// Default compression algorithm
    pub default_algorithm: CompressionAlgorithm,
    /// Enable hardware acceleration
    pub enable_hardware_acceleration: bool,
    /// Compression level (1-22, higher = better compression)
    pub compression_level: u8,
    /// Enable adaptive compression
    pub enable_adaptive: bool,
    /// Compression threshold (bytes)
    pub compression_threshold: usize,
    /// Enable dictionary compression
    pub enable_dictionary: bool,
    /// Dictionary size
    pub dictionary_size: usize,
    /// Enable parallel compression
    pub enable_parallel: bool,
    /// Number of compression threads
    pub compression_threads: usize,
}

impl Default for CompressionConfig {
    fn default() -> (c: Self)
        ensures
            c.default_algorithm == CompressionAlgorithm::Lz4,
            c.enable_hardware_acceleration,
            c.compression_level == 6,
            c.enable_adaptive,
            c.compression_threshold == 1024,
            c.enable_dictionary,
            c.dictionary_size == 64 * 1024,
            c.enable_parallel,
            c.compression_threads >= 1,
    {
        CompressionConfig {
            default_algorithm: CompressionAlgorithm::Lz4,
            enable_hardware_acceleration: true,
            compression_level: 6,
            enable_adaptive: true,
            compression_threshold: 1024,
            enable_dictionary: true,
            dictionary_size: 64 * 1024,
            enable_parallel: true,
            compression_threads: cpu_count(),
        }
    }
}

/// Compression algorithm.
#[derive(Debug, Clone, Copy, PartialEq, Eq, Structural)]
pub enum CompressionAlgorithm {
    /// No compression
    Uncompressed,
    /// LZ4 compression (fastest)
    Lz4,
    /// LZ4 High Compression
    Lz4Hc,
    /// Zstandard compression (balanced)
    Zstd,
    /// Brotli compression (best ratio)
    Brotli,
    /// Snappy compression (very fast)
    Snappy,
    /// LZMA compression (high ratio)
    Lzma,
    /// Deflate compression
    Deflate,
    /// Gzip compression
    Gzip,
}

/// The name of an algorithm.
pub open spec fn algorithm_name(a: CompressionAlgorithm) -> Seq<char> {
    match a {
        CompressionAlgorithm::Uncompressed => "none"@,
        CompressionAlgorithm::Lz4 => "lz4"@,
        CompressionAlgorithm::Lz4Hc => "lz4hc"@,
        CompressionAlgorithm::Zstd => "zstd"@,
        CompressionAlgorithm::Brotli => "brotli"@,
        CompressionAlgorithm::Snappy => "snappy"@,
        CompressionAlgorithm::Lzma => "lzma"@,
        CompressionAlgorithm::Deflate => "deflate"@,
        CompressionAlgorithm::Gzip => "gzip"@,
    }
}

impl CompressionAlgorithm {
    /// The algorithm's name.
    pub fn name(&self) -> (s: &'static str)
        ensures
            s@ == algorithm_name(*self),
    {
        proof {
            reveal_strlit("none");
            reveal_strlit("lz4");
            reveal_strlit("lz4hc");
            reveal_strlit("zstd");
            reveal_strlit("brotli");
            reveal_strlit("snappy");
            reveal_strlit("lzma");
            reveal_strlit("deflate");
            reveal_strlit("gzip");
        }
        match self {
            CompressionAlgorithm::Uncompressed => "none",
            CompressionAlgorithm::Lz4 => "lz4",
            CompressionAlgorithm::Lz4Hc => "lz4hc",
            CompressionAlgorithm::Zstd => "zstd",
            CompressionAlgorithm::Brotli => "brotli",
            CompressionAlgorithm::Snappy => "snappy",
            CompressionAlgorithm::Lzma => "lzma",
            CompressionAlgorithm::Deflate => "deflate",
            CompressionAlgorithm::Gzip => "gzip",
        }
    }
}

/// What `data` compresses to with `algorithm` at `level`.
pub open spec fn encoded(algorithm: CompressionAlgorithm, data: Seq<u8>, level: u8) -> Seq<u8> {
    match algorithm {
        CompressionAlgorithm::Uncompressed => data,
        CompressionAlgorithm::Lz4 => lz4_sized_block(data),
        CompressionAlgorithm::Lz4Hc => lz4_sized_block(data),
        CompressionAlgorithm::Zstd => zstd_encoded(data, level as i32),
        CompressionAlgorithm::Brotli => brotli_encoded(data, level as u32),
        CompressionAlgorithm::Snappy => snappy_encoded(data),
        CompressionAlgorithm::Lzma => xz_encoded(data),
        CompressionAlgorithm::Deflate => deflate_encoded(data, deflate_level(level)),
        CompressionAlgorithm::Gzip => gzip_encoded(data, deflate_level(level)),
    }
}

/// What `data` decompresses to with `algorithm`, when it does.
pub open spec fn decoded(algorithm: CompressionAlgorithm, data: Seq<u8>) -> Option<Seq<u8>> {
    match algorithm {
        CompressionAlgorithm::Uncompressed => Some(data),
        CompressionAlgorithm::Lz4 => Some(lz4_sized_decoded(data)),
        CompressionAlgorithm::Lz4Hc => Some(lz4_sized_decoded(data)),
        CompressionAlgorithm::Zstd => Some(zstd_decoded(data)),
        CompressionAlgorithm::Brotli => Some(brotli_decoded(data)),
        CompressionAlgorithm::Snappy => Some(snappy_decoded(data)),
        CompressionAlgorithm::Lzma => Some(xz_decoded(data)),
        CompressionAlgorithm::Deflate => Some(deflate_decoded(data)),
        CompressionAlgorithm::Gzip => Some(gzip_decoded(data)),
    }
}

/// Algorithm-specific statistics.
#[derive(Debug, Clone, Copy)]
pub struct AlgorithmStats {
    /// Number of compressions
    pub compressions: u64,
    /// Number of decompressions
    pub decompressions: u64,
    /// Total input bytes
    pub input_bytes: u64,
    /// Total output bytes
    pub output_bytes: u64,
    /// Total compression time (microseconds)
    pub compression_time_us: u64,
    /// Total decompression time (microseconds)
    pub decompression_time_us: u64,
}

/// Statistics of no operation.
pub open spec fn zero_algorithm_stats() -> AlgorithmStats {
    AlgorithmStats {
        compressions: 0,
        decompressions: 0,
        input_bytes: 0,
        output_bytes: 0,
        compression_time_us: 0,
        decompression_time_us: 0,
    }
}

/// Compression statistics. (The average ratios are the caller's to
/// compute from these totals.)
#[derive(Debug)]
pub struct CompressionStats {
    /// Total bytes compressed
    pub total_bytes_compressed: u64,
    /// Total bytes decompressed
    pub total_bytes_decompressed: u64,
    /// Total compression time (microseconds)
    pub total_compression_time_us: u64,
    /// Total decompression time (microseconds)
    pub total_decompression_time_us: u64,
    /// Bytes out of the latest compression
    pub last_output_bytes: u64,
    /// Operations per algorithm, by name
    pub algorithm_stats: NameMap<AlgorithmStats>,
}

/// A compression dictionary.
#[derive(Debug)]
pub struct CompressionDictionary {
    /// Dictionary data
    pub data: Vec<u8>,
    /// Algorithm this dictionary is optimized for
    pub algorithm: CompressionAlgorithm,
    /// Creation timestamp
    pub created_at: Timestamp,
    /// Usage count
    pub usage_count: u64,
}

/// Hardware acceleration capabilities.
#[derive(Debug)]
pub struct HardwareAcceleration {
    /// Intel QuickAssist support
    pub qat_support: bool,
    /// Intel IAA support
    pub iaa_support: bool,
    /// NVIDIA GPU compression support
    pub gpu_support: bool,
    /// Available acceleration algorithms
    pub supported_algorithms: Vec<CompressionAlgorithm>,
}

/// What the caller measured of a payload: whether its entropy (per bit,
/// from 0 to 1) is below one half or above 0.8.
#[derive(Debug, Clone, Copy)]
pub struct DataProfile {
    /// Entropy below 0.5
    pub low_entropy: bool,
    /// Entropy above 0.8
    pub high_entropy: bool,
}

/// More than 30% of the bytes after the first repeat the byte before them.
pub open spec fn is_repetitive(data: Seq<u8>) -> bool {
    data.len() >= 2 && 10 * repeats(data) > 3 * (data.len() - 1)
}

/// The algorithm adaptive compression picks for `data`: Brotli for
/// repetitive data of low entropy, else LZ4 for data under 4 KiB, else
/// Zstandard for data of high entropy, else the preferred one.
pub open spec fn optimal_algorithm(data: Seq<u8>, p: DataProfile, preferred: CompressionAlgorithm) -> CompressionAlgorithm {
    if p.low_entropy && is_repetitive(data) {
        CompressionAlgorithm::Brotli
    } else if data.len() < 4096 {
        CompressionAlgorithm::Lz4
    } else if p.high_entropy {
        CompressionAlgorithm::Zstd
    } else {
        preferred
    }
}

/// The number of bytes equal to the byte before them.
pub open spec fn repeats(s: Seq<u8>) -> nat
    decreases s.len(),
{
    if s.len() < 2 {
        0
    } else {
        repeats(s.drop_last()) + if s.last() == s[s.len() - 2] {
            1nat
        } else {
            0nat
        }
    }
}

/// How often `b` occurs in `s`.
pub open spec fn occurrences(s: Seq<u8>, b: u8) -> nat
    decreases s.len(),
{
    if s.len() == 0 {
        0
    } else {
        occurrences(s.drop_last(), b) + if s.last() == b {
            1nat
        } else {
            0nat
        }
    }
}

/// Compressed data container.
#[derive(Debug)]
pub struct CompressedData {
    /// Compressed data
    pub data: Vec<u8>,
    /// Compression algorithm used
    pub algorithm: CompressionAlgorithm,
    /// Original size
    pub original_size: usize,
    /// Compression time (microseconds)
    pub compression_time_us: u64,
}

impl CompressedData {
    /// New compressed data.
    pub fn new(data: Vec<u8>, algorithm: CompressionAlgorithm, original_size: usize, compression_time_us: u64) -> (c: Self)
        ensures
            c.data == data,
            c.algorithm == algorithm,
            c.original_size == original_size,
            c.compression_time_us == compression_time_us,
    {
        CompressedData { data, algorithm, original_size, compression_time_us }
    }

    /// The bytes saved: how much smaller the data is than the original,
    /// zero if it is not.
    pub fn space_saved(&self) -> (n: usize)
        ensures
            n == if self.original_size >= self.data@.len() {
                self.original_size - self.data@.len()
            } else {
                0
            },
    {
        self.original_size.saturating_sub(self.data.len())
    }
}

/// Compressed message container.
#[derive(Debug)]
pub struct CompressedMessage {
    /// Message metadata
    pub metadata: MessageMetadata,
    /// Compressed payload
    pub compressed_payload: CompressedData,
    /// Original payload size
    pub original_size: usize,
}

/// `a + b`, or the largest value where that overflows.
pub open spec fn sat_add(a: u64, b: int) -> u64 {
    if a + b > u64::MAX {
        u64::MAX
    } else {
        (a + b) as u64
    }
}

/// The algorithm's codec takes `n` bytes: every codec does, but Snappy
/// only as many as its format allows.
pub open spec fn takes(a: CompressionAlgorithm, n: nat) -> bool {
    a == CompressionAlgorithm::Snappy ==> snappy_compressible(n)
}

/// `data` fits the algorithm's frame: LZ4 blocks record the original length
/// in four bytes, so they hold fewer than 2^32 bytes; Snappy blocks hold no
/// more than its format allows.
pub open spec fn fits_frame(a: CompressionAlgorithm, data: Seq<u8>) -> bool {
    &&& (a == CompressionAlgorithm::Lz4 || a == CompressionAlgorithm::Lz4Hc) ==> data.len() <= u32::MAX
    &&& a == CompressionAlgorithm::Snappy ==> snappy_compressible(data.len())
}

/// The level flate2's Deflate and gzip encoders are given: the configured
/// one, at most 10 (the backend treats every higher level as 10).
pub open spec fn deflate_level(level: u8) -> u32 {
    if level > 10 {
        10
    } else {
        level as u32
    }
}

/// The statistics of an algorithm after a compression of `input` bytes
/// into `output` bytes that took `time` microseconds.
pub open spec fn after_compression(s: AlgorithmStats, input: nat, output: nat, time: u64) -> AlgorithmStats {
    AlgorithmStats {
        compressions: sat_add(s.compressions, 1),
        input_bytes: sat_add(s.input_bytes, input as int),
        output_bytes: sat_add(s.output_bytes, output as int),
        compression_time_us: sat_add(s.compression_time_us, time as int),
        ..s
    }
}

/// The statistics of an algorithm after a decompression that took `time`
/// microseconds.
pub open spec fn after_decompression(s: AlgorithmStats, time: u64) -> AlgorithmStats {
    AlgorithmStats {
        decompressions: sat_add(s.decompressions, 1),
        decompression_time_us: sat_add(s.decompression_time_us, time as int),
        ..s
    }
}

/// The statistics kept of `name` in `m`, zero if none are.
pub open spec fn kept_stats(m: Map<Seq<char>, AlgorithmStats>, name: Seq<char>) -> AlgorithmStats {
    if m.contains_key(name) {
        m[name]
    } else {
        zero_algorithm_stats()
    }
}

/// The frequency of every byte value in `data`.
pub fn byte_frequencies(data: &[u8]) -> (f: Vec<u32>)
    requires
        data@.len() <= u32::MAX,
    ensures
        f@.len() == 256,
        forall|b: int| 0 <= b < 256 ==> #[trigger] f@[b] == occurrences(data@, b as u8),
{
    let mut f: Vec<u32> = Vec::new();
    let mut k: usize = 0;
    while k < 256
        invariant
            k <= 256,
            f@.len() == k,
            forall|b: int| 0 <= b < k ==> #[trigger] f@[b] == 0,
        decreases 256 - k,
    {
        f.push(0);
        k = k + 1;
    }
    let mut i: usize = 0;
    while i < data.len()
        invariant
            data@.len() <= u32::MAX,
            i <= data@.len(),
            f@.len() == 256,
            forall|b: int| 0 <= b < 256 ==> #[trigger] f@[b] == occurrences(data@.take(i as int), b as u8),
            forall|b: int| 0 <= b < 256 ==> #[trigger] f@[b] <= i,
        decreases data.len() - i,
    {
        let x = data[i] as usize;
        assert(data@.take(i + 1).drop_last() =~= data@.take(i as int));
        let c = f[x];
        f.set(x, c + 1);
        assert forall|b: int| 0 <= b < 256 implies #[trigger] f@[b] == occurrences(data@.take(i + 1), b as u8) by {
            assert(data@.take(i + 1).last() == data@[i as int]);
            if b == x {
                assert((b as u8) == data@[i as int]);
            } else {
                assert((b as u8) != data@[i as int]) by {
                    assert(data@[i as int] as int == x);
                }
            }
        }
        i = i + 1;
    }
    assert(data@.take(i as int) =~= data@);
    f
}

/// The number of bytes of `data` equal to the byte before them.
pub fn count_repetitions(data: &[u8]) -> (n: usize)
    ensures
        n == repeats(data@),
{
    if data.len() < 2 {
        return 0;
    }
    let mut n: usize = 0;
    let mut i: usize = 1;
    assert(data@.take(1).len() == 1);
    while i < data.len()
        invariant
            1 <= i <= data@.len(),
            n == repeats(data@.take(i as int)),
            n < i,
        decreases data.len() - i,
    {
        assert(data@.take(i + 1).drop_last() =~= data@.take(i as int));
        if data[i] == data[i - 1] {
            n = n + 1;
        }
        i = i + 1;
    }
    assert(data@.take(i as int) =~= data@);
    n
}

/// High-performance compression engine.
pub struct CompressionEngine {
    config: CompressionConfig,
    stats: CompressionStats,
    dictionaries: Vec<CompressionDictionary>,
    hardware_support: HardwareAcceleration,
}

impl CompressionEngine {
    /// The configuration.
    pub closed spec fn spec_config(&self) -> CompressionConfig {
        self.config
    }

    /// Total bytes compressed.
    pub closed spec fn compressed_bytes(&self) -> u64 {
        self.stats.total_bytes_compressed
    }

    /// Total bytes decompressed.
    pub closed spec fn decompressed_bytes(&self) -> u64 {
        self.stats.total_bytes_decompressed
    }

    /// Total compression time.
    pub closed spec fn compression_time(&self) -> u64 {
        self.stats.total_compression_time_us
    }

    /// Total decompression time.
    pub closed spec fn decompression_time(&self) -> u64 {
        self.stats.total_decompression_time_us
    }

    /// Bytes out of the latest compression.
    pub closed spec fn last_output(&self) -> u64 {
        self.stats.last_output_bytes
    }

    /// The statistics of each algorithm, by name.
    pub closed spec fn per_algorithm(&self) -> Map<Seq<char>, AlgorithmStats> {
        self.stats.algorithm_stats.map()
    }

    /// The algorithms that have dictionaries, in order.
    pub closed spec fn dictionary_algorithms(&self) -> Seq<CompressionAlgorithm> {
        self.dictionaries@.map_values(|d: CompressionDictionary| d.algorithm)
    }

    /// The engine's invariant.
    pub closed spec fn wf(&self) -> bool {
        self.stats.algorithm_stats.wf()
    }

    /// Whether Intel QuickAssist is present: it is not looked for.
    pub fn check_qat_support() -> (b: bool)
        ensures
            !b,
    {
        false
    }

    /// Whether Intel IAA is present: it is not looked for.
    pub fn check_iaa_support() -> (b: bool)
        ensures
            !b,
    {
        false
    }

    /// Whether GPU compression is present: it is not looked for.
    pub fn check_gpu_support() -> (b: bool)
        ensures
            !b,
    {
        false
    }

    /// The hardware acceleration found, with the algorithms each kind
    /// accelerates: none is found.
    pub fn detect_hardware_acceleration(config: &CompressionConfig) -> (h: HardwareAcceleration)
        ensures
            !h.qat_support,
            !h.iaa_support,
            !h.gpu_support,
            h.supported_algorithms@.len() == 0,
    {
        let mut supported_algorithms: Vec<CompressionAlgorithm> = Vec::new();
        let qat_support = Self::check_qat_support();
        if qat_support {
            supported_algorithms.push(CompressionAlgorithm::Deflate);
            supported_algorithms.push(CompressionAlgorithm::Gzip);
            supported_algorithms.push(CompressionAlgorithm::Lz4);
        }
        let iaa_support = Self::check_iaa_support();
        if iaa_support {
            supported_algorithms.push(CompressionAlgorithm::Deflate);
            supported_algorithms.push(CompressionAlgorithm::Lz4);
            supported_algorithms.push(CompressionAlgorithm::Zstd);
        }
        let gpu_support = Self::check_gpu_support();
        if gpu_support {
            supported_algorithms.push(CompressionAlgorithm::Lz4);
            supported_algorithms.push(CompressionAlgorithm::Snappy);
        }
        HardwareAcceleration { qat_support, iaa_support, gpu_support, supported_algorithms }
    }

    /// A dictionary for `algorithm` made at `now`: as many zero bytes as the
    /// configured dictionary size, unused.
    pub fn create_dictionary(&self, algorithm: CompressionAlgorithm, now: Timestamp) -> (d: CompressionDictionary)
        ensures
            d.data@ == zeros(self.spec_config().dictionary_size as nat),
            d.algorithm == algorithm,
            d.created_at == now,
            d.usage_count == 0,
    {
        CompressionDictionary {
            data: zero_bytes(self.config.dictionary_size),
            algorithm,
            created_at: now,
            usage_count: 0,
        }
    }

    /// An engine with zero statistics, the hardware found, and, when
    /// dictionaries are on, dictionaries for Zstandard, Brotli and LZMA.
    pub fn new(config: CompressionConfig) -> (e: Self)
        ensures
            e.wf(),
            e.spec_config() == config,
            e.compressed_bytes() == 0,
            e.decompressed_bytes() == 0,
            e.compression_time() == 0,
            e.decompression_time() == 0,
            e.per_algorithm() == Map::<Seq<char>, AlgorithmStats>::empty(),
            e.dictionary_algorithms() == if config.enable_dictionary {
                seq![CompressionAlgorithm::Zstd, CompressionAlgorithm::Brotli, CompressionAlgorithm::Lzma]
            } else {
                Seq::<CompressionAlgorithm>::empty()
            },
    {
        let hardware_support = Self::detect_hardware_acceleration(&config);
        let mut engine = CompressionEngine {
            config,
            stats: CompressionStats {
                total_bytes_compressed: 0,
                total_bytes_decompressed: 0,
                total_compression_time_us: 0,
                total_decompression_time_us: 0,
                last_output_bytes: 0,
                algorithm_stats: NameMap::new(),
            },
            dictionaries: Vec::new(),
            hardware_support,
        };
        if engine.config.enable_dictionary {
            let now = Timestamp::now();
            let d1 = engine.create_dictionary(CompressionAlgorithm::Zstd, now);
            let d2 = engine.create_dictionary(CompressionAlgorithm::Brotli, now);
            let d3 = engine.create_dictionary(CompressionAlgorithm::Lzma, now);
            engine.dictionaries.push(d1);
            engine.dictionaries.push(d2);
            engine.dictionaries.push(d3);
        }
        assert(engine.dictionary_algorithms() =~= if config.enable_dictionary {
            seq![CompressionAlgorithm::Zstd, CompressionAlgorithm::Brotli, CompressionAlgorithm::Lzma]
        } else {
            Seq::<CompressionAlgorithm>::empty()
        });
        engine
    }

    /// The algorithm adaptive compression picks for `data` of the given
    /// entropy (see `optimal_algorithm`).
    pub fn choose_optimal_algorithm(&self, data: &[u8], profile: &DataProfile, preferred: CompressionAlgorithm) -> (r: Result<CompressionAlgorithm>)
        ensures
            r == Ok::<CompressionAlgorithm, Error>(optimal_algorithm(data@, *profile, preferred)),
    {
        let len = data.len();
        let repetitive = if len >= 2 {
            let n = count_repetitions(data);
            (n as u128) * 10 > 3 * ((len - 1) as u128)
        } else {
            false
        };
        let optimal = if profile.low_entropy && repetitive {
            CompressionAlgorithm::Brotli
        } else if len < 4096 {
            CompressionAlgorithm::Lz4
        } else if profile.high_entropy {
            CompressionAlgorithm::Zstd
        } else {
            preferred
        };
        Ok(optimal)
    }

    /// Record a compression with `algorithm` of `input` bytes into `output`
    /// bytes that took `time` microseconds; the counts saturate.
    pub fn update_compression_stats(&mut self, algorithm: CompressionAlgorithm, input: usize, output: usize, time: u64)
        requires
            old(self).wf(),
        ensures
            final(self).wf(),
            final(self).spec_config() == old(self).spec_config(),
            final(self).dictionary_algorithms() == old(self).dictionary_algorithms(),
            final(self).compressed_bytes() == sat_add(old(self).compressed_bytes(), input as int),
            final(self).compression_time() == sat_add(old(self).compression_time(), time as int),
            final(self).decompressed_bytes() == old(self).decompressed_bytes(),
            final(self).decompression_time() == old(self).decompression_time(),
            final(self).last_output() == output as u64,
            final(self).per_algorithm() == old(self).per_algorithm().insert(
                algorithm_name(algorithm),
                after_compression(kept_stats(old(self).per_algorithm(), algorithm_name(algorithm)), input as nat, output as nat, time),
            ),
    {
        self.stats.total_bytes_compressed = self.stats.total_bytes_compressed.saturating_add(input as u64);
        self.stats.total_compression_time_us = self.stats.total_compression_time_us.saturating_add(time);
        self.stats.last_output_bytes = output as u64;
        let name = algorithm.name();
        let old_stats = match self.stats.algorithm_stats.get(name) {
            Some(a) => *a,
            None => AlgorithmStats {
                compressions: 0,
                decompressions: 0,
                input_bytes: 0,
                output_bytes: 0,
                compression_time_us: 0,
                decompression_time_us: 0,
            },
        };
        let updated = AlgorithmStats {
            compressions: old_stats.compressions.saturating_add(1),
            input_bytes: old_stats.input_bytes.saturating_add(input as u64),
            output_bytes: old_stats.output_bytes.saturating_add(output as u64),
            compression_time_us: old_stats.compression_time_us.saturating_add(time),
            ..old_stats
        };
        self.stats.algorithm_stats.insert(name.to_string(), updated);
    }

    /// Record a decompression with `algorithm` of `input` bytes into
    /// `output` bytes that took `time` microseconds; the counts saturate.
    pub fn update_decompression_stats(&mut self, algorithm: CompressionAlgorithm, input: usize, output: usize, time: u64)
        requires
            old(self).wf(),
        ensures
            final(self).wf(),
            final(self).spec_config() == old(self).spec_config(),
            final(self).dictionary_algorithms() == old(self).dictionary_algorithms(),
            final(self).decompressed_bytes() == sat_add(old(self).decompressed_bytes(), output as int),
            final(self).decompression_time() == sat_add(old(self).decompression_time(), time as int),
            final(self).compressed_bytes() == old(self).compressed_bytes(),
            final(self).compression_time() == old(self).compression_time(),
            final(self).last_output() == old(self).last_output(),
            final(self).per_algorithm() == old(self).per_algorithm().insert(
                algorithm_name(algorithm),
                after_decompression(kept_stats(old(self).per_algorithm(), algorithm_name(algorithm)), time),
            ),
    {
        self.stats.total_bytes_decompressed = self.stats.total_bytes_decompressed.saturating_add(output as u64);
        self.stats.total_decompression_time_us = self.stats.total_decompression_time_us.saturating_add(time);
        let name = algorithm.name();
        let old_stats = match self.stats.algorithm_stats.get(name) {
            Some(a) => *a,
            None => AlgorithmStats {
                compressions: 0,
                decompressions: 0,
                input_bytes: 0,
                output_bytes: 0,
                compression_time_us: 0,
                decompression_time_us: 0,
            },
        };
        let updated = AlgorithmStats {
            decompressions: old_stats.decompressions.saturating_add(1),
            decompression_time_us: old_stats.decompression_time_us.saturating_add(time),
            ..old_stats
        };
        self.stats.algorithm_stats.insert(name.to_string(), updated);
    }

    /// Compress `data` with `algorithm` (the configured default if none).
    /// Data under the threshold is kept as it is. Otherwise adaptive
    /// compression may pick another algorithm by the data's profile; the
    /// data is compressed with it, timed, and recorded.
    pub fn compress(&mut self, data: &[u8], algorithm: Option<CompressionAlgorithm>, profile: &DataProfile) -> (r: Result<CompressedData>)
        requires
            old(self).wf(),
        ensures
            final(self).wf(),
            final(self).spec_config() == old(self).spec_config(),
            ({
                let preferred = match algorithm {
                    Some(a) => a,
                    None => old(self).spec_config().default_algorithm,
                };
                let chosen = if old(self).spec_config().enable_adaptive {
                    optimal_algorithm(data@, *profile, preferred)
                } else {
                    preferred
                };
                if data@.len() < old(self).spec_config().compression_threshold {
                    &&& r matches Ok(c) && c.data@ == data@ && c.algorithm == CompressionAlgorithm::Uncompressed
                        && c.original_size == data@.len() && c.compression_time_us == data@.len()
                    &&& final(self).per_algorithm() == old(self).per_algorithm()
                    &&& final(self).compressed_bytes() == old(self).compressed_bytes()
                } else {
                    &&& takes(chosen, data@.len()) ==> r is Ok
                    &&& r matches Ok(c) ==> {
                        &&& c.data@ == encoded(chosen, data@, old(self).spec_config().compression_level)
                        &&& c.algorithm == chosen
                        &&& c.original_size == data@.len()
                        &&& final(self).compressed_bytes() == sat_add(old(self).compressed_bytes(), data@.len() as int)
                        &&& final(self).last_output() == c.data@.len()
                        &&& final(self).per_algorithm() == old(self).per_algorithm().insert(
                            algorithm_name(chosen),
                            after_compression(kept_stats(old(self).per_algorithm(), algorithm_name(chosen)), data@.len(), c.data@.len(), c.compression_time_us),
                        )
                    }
                    &&& r is Err ==> final(self).per_algorithm() == old(self).per_algorithm()
                }
            }),
    {
        let preferred = match algorithm {
            Some(a) => a,
            None => self.config.default_algorithm,
        };
        let start = instant_now();
        if data.len() < self.config.compression_threshold {
            return Ok(CompressedData::new(
                vstd::slice::slice_to_vec(data),
                CompressionAlgorithm::Uncompressed,
                data.len(),
                data.len() as u64,
            ));
        }
        let chosen = if self.config.enable_adaptive {
            match self.choose_optimal_algorithm(data, profile, preferred) {
                Ok(a) => a,
                Err(e) => return Err(e),
            }
        } else {
            preferred
        };
        let compressed = match self.compress_with(chosen, data) {
            Ok(v) => v,
            Err(e) => return Err(e),
        };
        let elapsed = elapsed_since(&start);
        let time = (duration_as_nanos(&elapsed) / 1000) as u64;
        self.update_compression_stats(chosen, data.len(), compressed.len(), time);
        Ok(CompressedData::new(compressed, chosen, data.len(), time))
    }

    /// Decompress by the algorithm the data names, timed and recorded.
    /// Every algorithm gives back what its compression took in.
    pub fn decompress(&mut self, compressed_data: &CompressedData) -> (r: Result<Vec<u8>>)
        requires
            old(self).wf(),
        ensures
            final(self).wf(),
            final(self).spec_config() == old(self).spec_config(),
            r matches Ok(v) ==> decoded(compressed_data.algorithm, compressed_data.data@) == Some(v@),
            forall|x: Seq<u8>, l: u8|
                #[trigger] encoded(compressed_data.algorithm, x, l) == compressed_data.data@ && fits_frame(compressed_data.algorithm, x)
                ==> (r matches Ok(v) && v@ == x),
            r matches Ok(v) ==> final(self).decompressed_bytes() == sat_add(old(self).decompressed_bytes(), v@.len() as int),
            r is Err ==> final(self).per_algorithm() == old(self).per_algorithm(),
    {
        let start = instant_now();
        let algorithm = compressed_data.algorithm;
        let decompressed = match self.decompress_with(algorithm, compressed_data.data.as_slice()) {
            Ok(v) => v,
            Err(e) => return Err(e),
        };
        let elapsed = elapsed_since(&start);
        let time = (duration_as_nanos(&elapsed) / 1000) as u64;
        self.update_decompression_stats(algorithm, compressed_data.data.len(), decompressed.len(), time);
        Ok(decompressed)
    }

    /// Compress a message's payload (see `compress`), keeping its metadata.
    pub fn compress_message(&mut self, message: &Message, algorithm: Option<CompressionAlgorithm>, profile: &DataProfile) -> (r: Result<CompressedMessage>)
        requires
            old(self).wf(),
        ensures
            final(self).wf(),
            r matches Ok(c) ==> c.original_size == message@.payload.len()
                && c.compressed_payload.original_size == message@.payload.len()
                && c.metadata.message_id == message.metadata.message_id
                && c.metadata.headers.map() == message.metadata.headers.map(),
            message@.payload.len() < old(self).spec_config().compression_threshold ==> (r matches Ok(c)
                && c.compressed_payload.data@ == message@.payload && c.compressed_payload.algorithm == CompressionAlgorithm::Uncompressed),
    {
        let payload = bytes_as_slice(&message.payload);
        let compressed_payload = match self.compress(payload, algorithm, profile) {
            Ok(c) => c,
            Err(e) => return Err(e),
        };
        Ok(CompressedMessage {
            metadata: message.metadata.clone(),
            compressed_payload,
            original_size: payload.len(),
        })
    }

    /// Decompress a message's payload (see `decompress`), keeping its
    /// metadata.
    pub fn decompress_message(&mut self, compressed_message: &CompressedMessage) -> (r: Result<Message>)
        requires
            old(self).wf(),
        ensures
            final(self).wf(),
            r matches Ok(m) ==> decoded(compressed_message.compressed_payload.algorithm, compressed_message.compressed_payload.data@) == Some(bytes_view(m.payload))
                && m.metadata.message_id == compressed_message.metadata.message_id,
            forall|x: Seq<u8>, l: u8|
                #[trigger] encoded(compressed_message.compressed_payload.algorithm, x, l) == compressed_message.compressed_payload.data@
                && fits_frame(compressed_message.compressed_payload.algorithm, x) ==> (r matches Ok(m) && bytes_view(m.payload) == x),
    {
        let payload = match self.decompress(&compressed_message.compressed_payload) {
            Ok(v) => v,
            Err(e) => return Err(e),
        };
        Ok(Message { metadata: compressed_message.metadata.clone(), payload: bytes_from_vec(payload) })
    }

    /// A copy of the statistics.
    pub fn get_stats(&self) -> (s: CompressionStats)
        ensures
            s.total_bytes_compressed == self.compressed_bytes(),
            s.total_bytes_decompressed == self.decompressed_bytes(),
            s.total_compression_time_us == self.compression_time(),
            s.total_decompression_time_us == self.decompression_time(),
            s.last_output_bytes == self.last_output(),
            s.algorithm_stats.map() == self.per_algorithm(),
    {
        CompressionStats {
            total_bytes_compressed: self.stats.total_bytes_compressed,
            total_bytes_decompressed: self.stats.total_bytes_decompressed,
            total_compression_time_us: self.stats.total_compression_time_us,
            total_decompression_time_us: self.stats.total_decompression_time_us,
            last_output_bytes: self.stats.last_output_bytes,
            algorithm_stats: self.stats.algorithm_stats.duplicate(),
        }
    }

    /// Compress `data` with `algorithm` at the configured level.
    pub fn compress_with(&self, algorithm: CompressionAlgorithm, data: &[u8]) -> (r: Result<Vec<u8>>)
        ensures
            r matches Ok(v) ==> v@ == encoded(algorithm, data@, self.spec_config().compression_level),
            takes(algorithm, data@.len()) ==> r is Ok,
    {
        let level = self.config.compression_level;
        match algorithm {
            CompressionAlgorithm::Uncompressed => Ok(vstd::slice::slice_to_vec(data)),
            CompressionAlgorithm::Lz4 => Ok(lz4_compress(data)),
            CompressionAlgorithm::Lz4Hc => Ok(lz4_compress(data)),
            CompressionAlgorithm::Zstd => match zstd_encode(data, level as i32) {
                Ok(v) => Ok(v),
                Err(e) => Err(Error::Io(e)),
            },
            CompressionAlgorithm::Brotli => match brotli_compress(data, level as u32) {
                Ok(v) => Ok(v),
                Err(e) => Err(Error::Io(e)),
            },
            CompressionAlgorithm::Snappy => match snappy_compress(data) {
                Ok(v) => Ok(v),
                Err(e) => Err(Error::Internal(e)),
            },
            CompressionAlgorithm::Lzma => match xz_compress(data) {
                Ok(v) => Ok(v),
                Err(e) => Err(Error::Io(e)),
            },
            CompressionAlgorithm::Deflate => match deflate_compress(data, if level > 10 { 10 } else { level as u32 }) {
                Ok(v) => Ok(v),
                Err(e) => Err(Error::Io(e)),
            },
            CompressionAlgorithm::Gzip => match gzip_compress(data, if level > 10 { 10 } else { level as u32 }) {
                Ok(v) => Ok(v),
                Err(e) => Err(Error::Io(e)),
            },
        }
    }

    /// Decompress `data` that `algorithm` compressed. Every algorithm gives
    /// back the data its compression took in.
    pub fn decompress_with(&self, algorithm: CompressionAlgorithm, data: &[u8]) -> (r: Result<Vec<u8>>)
        ensures
            r matches Ok(v) ==> decoded(algorithm, data@) == Some(v@),
            forall|x: Seq<u8>, l: u8| #[trigger] encoded(algorithm, x, l) == data@ && fits_frame(algorithm, x) ==> (r matches Ok(v) && v@ == x),
    {
        match algorithm {
            CompressionAlgorithm::Uncompressed => Ok(vstd::slice::slice_to_vec(data)),
            CompressionAlgorithm::Lz4 | CompressionAlgorithm::Lz4Hc => {
                let r = lz4_decompress_sized(data);
                assert forall|x: Seq<u8>, l: u8| #[trigger] encoded(algorithm, x, l) == data@ && fits_frame(algorithm, x) implies (r matches Ok(v) && v@ == x) by {
                    assert(data@ == lz4_sized_block(x));
                }
                match r {
                    Ok(v) => Ok(v),
                    Err(e) => Err(Error::Internal(e)),
                }
            },
            CompressionAlgorithm::Zstd => {
                let r = zstd_decode(data);
                assert forall|x: Seq<u8>, l: u8| #[trigger] encoded(algorithm, x, l) == data@ && fits_frame(algorithm, x) implies (r matches Ok(v) && v@ == x) by {
                    assert(data@ == zstd_encoded(x, l as i32));
                }
                match r {
                    Ok(v) => Ok(v),
                    Err(e) => Err(Error::Io(e)),
                }
            },
            CompressionAlgorithm::Brotli => {
                let r = brotli_decompress(data);
                assert forall|x: Seq<u8>, l: u8| #[trigger] encoded(algorithm, x, l) == data@ && fits_frame(algorithm, x) implies (r matches Ok(v) && v@ == x) by {
                    assert(data@ == brotli_encoded(x, l as u32));
                }
                match r {
                    Ok(v) => Ok(v),
                    Err(e) => Err(Error::Io(e)),
                }
            },
            CompressionAlgorithm::Snappy => {
                let r = snappy_decompress(data);
                assert forall|x: Seq<u8>, l: u8| #[trigger] encoded(algorithm, x, l) == data@ && fits_frame(algorithm, x) implies (r matches Ok(v) && v@ == x) by {
                    assert(data@ == snappy_encoded(x));
                }
                match r {
                    Ok(v) => Ok(v),
                    Err(e) => Err(Error::Internal(e)),
                }
            },
            CompressionAlgorithm::Lzma => {
                let r = xz_decompress(data);
                assert forall|x: Seq<u8>, l: u8| #[trigger] encoded(algorithm, x, l) == data@ && fits_frame(algorithm, x) implies (r matches Ok(v) && v@ == x) by {
                    assert(data@ == xz_encoded(x));
                }
                match r {
                    Ok(v) => Ok(v),
                    Err(e) => Err(Error::Internal(e)),
                }
            },
            CompressionAlgorithm::Deflate => {
                let r = deflate_decompress(data);
                assert forall|x: Seq<u8>, l: u8| #[trigger] encoded(algorithm, x, l) == data@ && fits_frame(algorithm, x) implies (r matches Ok(v) && v@ == x) by {
                    assert(data@ == deflate_encoded(x, deflate_level(l)));
                }
                match r {
                    Ok(v) => Ok(v),
                    Err(e) => Err(Error::Io(e)),
                }
            },
            CompressionAlgorithm::Gzip => {
                let r = gzip_decompress(data);
                assert forall|x: Seq<u8>, l: u8| #[trigger] encoded(algorithm, x, l) == data@ && fits_frame(algorithm, x) implies (r matches Ok(v) && v@ == x) by {
                    assert(data@ == gzip_encoded(x, deflate_level(l)));
                }
                match r {
                    Ok(v) => Ok(v),
                    Err(e) => Err(Error::Io(e)),
                }
            },
        }
    }
}

} // verus!
