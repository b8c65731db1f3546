//! Segment storage: the active segment of each topic partition, where a
//! message goes in it and how it is compressed, the index of the messages
//! written, and the statistics. Reading and writing the segment files is
//! the caller's.

use vstd::prelude::*;
use std::time::Duration;
use crate::broker::codecs::{
    brotli_compress, brotli_decompress, brotli_encoded, lz4_compress, lz4_decompress_sized, lz4_sized_block,
    snappy_compress, snappy_compressible, snappy_decompress, snappy_encoded, zstd_decode, zstd_encode, zstd_encoded,
};
use crate::broker::error::{Error, Result, is_storage_error};
use crate::broker::memory::{MemoryPool, MemoryPoolConfig};
use crate::broker::message::{Message, Offset};
use crate::broker::names::NameMap;
use crate::broker::storage::{OffsetIndex, OffsetKeyed, index_key, join_path, path_join};
use crate::broker::text::{decimal, push_signed_decimal, with_decimal};
use crate::broker::time::{duration_from_millis, duration_nanos};
use crate::qiss::types::Timestamp;

verus! {

/// Compression algorithm of a segment.
#[derive(Debug, Clone, Copy, PartialEq, Eq, Structural)]
pub enum CompressionAlgorithm {
    /// No compression
    Uncompressed,
    /// LZ4 compression (fast)
    Lz4,
    /// Zstandard compression (balanced)
    Zstd,
    /// Brotli compression (high ratio)
    Brotli,
    /// Snappy compression (very fast)
    Snappy,
}

/// Segment metadata.
#[derive(Debug, Clone, Copy, PartialEq, Eq, Structural)]
pub struct SegmentMetadata {
    /// Segment ID
    pub segment_id: u64,
    /// Base offset
    pub base_offset: Offset,
    /// Next offset to write
    pub next_offset: Offset,
    /// Segment size in bytes
    pub size: u64,
    /// Number of messages
    pub message_count: u64,
    /// Created timestamp
    pub created_at: Timestamp,
    /// Last modified timestamp
    pub last_modified: Timestamp,
    /// Compression algorithm used
    pub compression: CompressionAlgorithm,
    /// Checksum of the segment
    pub checksum: u64,
}

/// Index entry for fast message lookup.
#[derive(Debug, Clone, Copy, PartialEq, Eq, Structural)]
pub struct IndexEntry {
    /// Message offset
    pub offset: Offset,
    /// Position in segment file
    pub position: u64,
    /// Message size
    pub size: u32,
    /// Timestamp
    pub timestamp: Timestamp,
    /// Compression info
    pub compressed_size: Option<u32>,
}

impl OffsetKeyed for IndexEntry {
    open spec fn offset_key(&self) -> u64 {
        self.offset.0
    }

    fn key(&self) -> (k: u64) {
        self.offset.0
    }
}

/// Segment storage configuration.
#[derive(Debug, Clone)]
pub struct SegmentStorageConfig {
    /// Data directory
    pub data_dir: String,
    /// Segment size in bytes
    pub segment_size: usize,
    /// Index interval (bytes between index entries)
    pub index_interval: usize,
    /// Enable memory mapping
    pub enable_mmap: bool,
    /// Enable compression
    pub enable_compression: bool,
    /// Compression algorithm
    pub compression_algorithm: CompressionAlgorithm,
    /// Flush interval
    pub flush_interval: Duration,
    /// Sync on write
    pub sync_on_write: bool,
    /// Enable zero-copy operations
    pub enable_zero_copy: bool,
    /// Memory pool configuration
    pub memory_pool_config: MemoryPoolConfig,
}

impl Default for SegmentStorageConfig {
    fn default() -> (c: Self)
        ensures
            c.data_dir@ == "./data"@,
            c.segment_size == 1024 * 1024 * 1024,
            c.index_interval == 4096,
            c.enable_mmap,
            c.enable_compression,
            c.compression_algorithm == CompressionAlgorithm::Lz4,
            duration_nanos(c.flush_interval) == 100 * 1_000_000,
            !c.sync_on_write,
            c.enable_zero_copy,
            c.memory_pool_config.chunk_size == 4096,
            c.memory_pool_config.prewarm,
    {
        SegmentStorageConfig {
            data_dir: "./data".to_string(),
            segment_size: 1024 * 1024 * 1024,
            index_interval: 4096,
            enable_mmap: true,
            enable_compression: true,
            compression_algorithm: CompressionAlgorithm::Lz4,
            flush_interval: duration_from_millis(100),
            sync_on_write: false,
            enable_zero_copy: true,
            memory_pool_config: MemoryPoolConfig::default(),
        }
    }
}

/// Storage statistics.
#[derive(Debug, Clone, Copy, PartialEq, Eq, Structural)]
pub struct StorageStats {
    /// Total segments created
    pub total_segments: u64,
    /// Total messages written
    pub total_messages_written: u64,
    /// Total messages read
    pub total_messages_read: u64,
    /// Total bytes written
    pub total_bytes_written: u64,
    /// Total bytes read
    pub total_bytes_read: u64,
    /// Average write latency (microseconds)
    pub avg_write_latency_us: u64,
    /// Average read latency (microseconds)
    pub avg_read_latency_us: u64,
    /// Active segments
    pub active_segments: usize,
}

/// Statistics with every count at zero.
pub open spec fn no_storage_stats() -> StorageStats {
    StorageStats {
        total_segments: 0,
        total_messages_written: 0,
        total_messages_read: 0,
        total_bytes_written: 0,
        total_bytes_read: 0,
        avg_write_latency_us: 0,
        avg_read_latency_us: 0,
        active_segments: 0,
    }
}

impl Default for StorageStats {
    fn default() -> (s: Self)
        ensures
            s == no_storage_stats(),
    {
        StorageStats {
            total_segments: 0,
            total_messages_written: 0,
            total_messages_read: 0,
            total_bytes_written: 0,
            total_bytes_read: 0,
            avg_write_latency_us: 0,
            avg_read_latency_us: 0,
            active_segments: 0,
        }
    }
}

/// The running average after one more sample: the old average counted
/// `n - 1` times and the sample once, over `n`, rounded down.
pub open spec fn next_average(avg: u64, n: nat, sample: u64) -> int {
    (avg * (n - 1) + sample) / (n as int)
}

/// A message of `size` bytes can be counted after `count` of them: the
/// counters and the average's sum stay within 64 bits.
pub open spec fn can_count(count: u64, bytes: u64, avg: u64, size: usize, latency: u64) -> bool {
    &&& count < u64::MAX
    &&& bytes + size <= u64::MAX
    &&& avg * count + latency <= u64::MAX
}

/// Whether a message of `size` bytes can be counted after `count` of them
/// (see `can_count`).
pub fn counts_fit(count: u64, bytes: u64, avg: u64, size: usize, latency: u64) -> (b: bool)
    ensures
        b == can_count(count, bytes, avg, size, latency),
{
    assert((avg as int) * (count as int) <= 0xFFFF_FFFF_FFFF_FFFFint * 0xFFFF_FFFF_FFFF_FFFFint) by (nonlinear_arith)
        requires
            avg <= u64::MAX,
            count <= u64::MAX,
    ;
    let product = avg as u128 * count as u128;
    count < u64::MAX && bytes as u128 + size as u128 <= u64::MAX as u128 && product + latency as u128 <= u64::MAX as u128
}

/// A segment as the storage records it: its metadata, its file, where the
/// next record goes, and the entries of the messages written to it.
#[derive(Debug)]
pub struct Segment {
    /// Segment metadata
    pub metadata: SegmentMetadata,
    /// Segment file path
    pub file_path: String,
    /// Write position
    pub write_position: usize,
    /// Index entries for this segment
    pub index_entries: Vec<IndexEntry>,
}

/// Where a segment's records are, and how they are compressed.
#[derive(Debug)]
pub struct SegmentHandle {
    /// Segment file path
    pub file_path: String,
    /// Segment metadata
    pub metadata: SegmentMetadata,
    /// Write position
    pub write_position: usize,
}

/// The handle of a segment.
pub open spec fn handle_of(s: Segment, h: SegmentHandle) -> bool {
    h.file_path@ == s.file_path@ && h.metadata == s.metadata && h.write_position == s.write_position
}

fn handle(s: &Segment) -> (h: SegmentHandle)
    ensures
        handle_of(*s, h),
{
    SegmentHandle { file_path: s.file_path.clone(), metadata: s.metadata, write_position: s.write_position }
}

/// The decimal digits of `n`, with zeros in front up to `width` digits.
pub open spec fn padded_decimal(n: nat, width: nat) -> Seq<char> {
    if decimal(n).len() < width {
        Seq::new((width - decimal(n).len()) as nat, |i: int| '0') + decimal(n)
    } else {
        decimal(n)
    }
}

/// The bytes a segment compressed with `algorithm` stores for `data`: the
/// data itself when uncompressed.
pub open spec fn stored_form(algorithm: CompressionAlgorithm, data: Seq<u8>) -> Seq<u8> {
    match algorithm {
        CompressionAlgorithm::Uncompressed => data,
        CompressionAlgorithm::Lz4 => lz4_sized_block(data),
        CompressionAlgorithm::Zstd => zstd_encoded(data, 3),
        CompressionAlgorithm::Brotli => brotli_encoded(data, 6),
        CompressionAlgorithm::Snappy => snappy_encoded(data),
    }
}

/// Compress a record's bytes with `algorithm` (Zstandard at level 3, Brotli
/// at quality 6): the bytes to store and, when compressed, their length.
pub fn compress_record(algorithm: CompressionAlgorithm, data: &[u8]) -> (r: Result<(Vec<u8>, Option<u32>)>)
    ensures
        r matches Ok((v, size)) ==> v@ == stored_form(algorithm, data@) && size == if algorithm
            == CompressionAlgorithm::Uncompressed {
            None
        } else {
            Some(v@.len() as u32)
        },
        r is Ok <==> (algorithm == CompressionAlgorithm::Snappy ==> snappy_compressible(data@.len())),
        r matches Err(e) ==> e is Internal,
{
    match algorithm {
        CompressionAlgorithm::Lz4 => {
            let v = lz4_compress(data);
            let n = v.len() as u32;
            Ok((v, Some(n)))
        },
        CompressionAlgorithm::Zstd => match zstd_encode(data, 3) {
            Ok(v) => {
                let n = v.len() as u32;
                Ok((v, Some(n)))
            },
            Err(e) => Err(Error::Io(e)),
        },
        CompressionAlgorithm::Brotli => match brotli_compress(data, 6) {
            Ok(v) => {
                let n = v.len() as u32;
                Ok((v, Some(n)))
            },
            Err(e) => Err(Error::Io(e)),
        },
        CompressionAlgorithm::Snappy => match snappy_compress(data) {
            Ok(v) => {
                let n = v.len() as u32;
                Ok((v, Some(n)))
            },
            Err(e) => Err(Error::Internal(e)),
        },
        CompressionAlgorithm::Uncompressed => {
            let v = copy_bytes(data);
            Ok((v, None))
        },
    }
}

/// Decompress a stored record with `algorithm`; what `compress_record`
/// stored comes back.
pub fn decompress_record(algorithm: CompressionAlgorithm, data: &[u8]) -> (r: Result<Vec<u8>>)
    ensures
        forall|x: Seq<u8>| data@ == #[trigger] stored_form(algorithm, x) && (algorithm == CompressionAlgorithm::Lz4 ==> x.len() <= u32::MAX)
            && (algorithm == CompressionAlgorithm::Snappy ==> snappy_compressible(x.len())) ==> (r matches Ok(v) && v@ == x),
        algorithm == CompressionAlgorithm::Uncompressed ==> (r matches Ok(v) && v@ == data@),
{
    match algorithm {
        CompressionAlgorithm::Lz4 => match lz4_decompress_sized(data) {
            Ok(v) => Ok(v),
            Err(e) => Err(Error::Internal(e)),
        },
        CompressionAlgorithm::Zstd => {
            let r = zstd_decode(data);
            proof {
                assert forall|x: Seq<u8>| data@ == #[trigger] stored_form(algorithm, x) implies r is Ok by {
                    assert(data@ == zstd_encoded(x, 3));
                }
            }
            match r {
                Ok(v) => Ok(v),
                Err(e) => Err(Error::Io(e)),
            }
        },
        CompressionAlgorithm::Brotli => {
            let r = brotli_decompress(data);
            proof {
                assert forall|x: Seq<u8>| data@ == #[trigger] stored_form(algorithm, x) implies r is Ok by {
                    assert(data@ == brotli_encoded(x, 6));
                }
            }
            match r {
                Ok(v) => Ok(v),
                Err(e) => Err(Error::Io(e)),
            }
        },
        CompressionAlgorithm::Snappy => match snappy_decompress(data) {
            Ok(v) => Ok(v),
            Err(e) => Err(Error::Internal(e)),
        },
        CompressionAlgorithm::Uncompressed => Ok(copy_bytes(data)),
    }
}

fn copy_bytes(data: &[u8]) -> (v: Vec<u8>)
    ensures
        v@ == data@,
{
    let mut v: Vec<u8> = Vec::new();
    let mut i: usize = 0;
    while i < data.len()
        invariant
            i <= data@.len(),
            v@ == data@.take(i as int),
        decreases data.len() - i,
    {
        v.push(data[i]);
        assert(v@ =~= data@.take(i + 1));
        i = i + 1;
    }
    assert(data@.take(data@.len() as int) =~= data@);
    v
}

/// Check that a record of `len` bytes at `position` fits in a mapped segment
/// of `capacity` bytes.
pub fn check_write_fits(position: u64, len: usize, capacity: usize) -> (r: Result<()>)
    ensures
        r is Ok <==> position + len <= capacity,
        r matches Err(e) ==> is_storage_error(e, "Segment overflow"@),
{
    if position as u128 + len as u128 > capacity as u128 {
        Err(Error::Storage("Segment overflow".to_string()))
    } else {
        Ok(())
    }
}

/// Check that the `size` bytes at `position` lie within a mapped segment of
/// `capacity` bytes.
pub fn check_read_fits(position: u64, size: usize, capacity: usize) -> (r: Result<()>)
    ensures
        r is Ok <==> position + size <= capacity,
        r matches Err(e) ==> is_storage_error(e, "Read beyond segment"@),
{
    if position as u128 + size as u128 > capacity as u128 {
        Err(Error::Storage("Read beyond segment".to_string()))
    } else {
        Ok(())
    }
}

/// The number of bytes a record takes in its segment: its compressed size
/// where it was compressed, else its size.
pub fn read_size(entry: &IndexEntry) -> (n: u32)
    ensures
        n == match entry.compressed_size {
            Some(c) => c,
            None => entry.size,
        },
{
    match entry.compressed_size {
        Some(c) => c,
        None => entry.size,
    }
}

/// A new, empty segment of `key` numbered `id` at `base_offset`, made at
/// `now`, compressed with `algorithm`.
pub open spec fn fresh_segment(
    s: Segment,
    id: u64,
    base_offset: Offset,
    algorithm: CompressionAlgorithm,
    now: Timestamp,
) -> bool {
    &&& s.metadata == (SegmentMetadata {
        segment_id: id,
        base_offset,
        next_offset: base_offset,
        size: 0,
        message_count: 0,
        created_at: now,
        last_modified: now,
        compression: algorithm,
        checksum: 0,
    })
    &&& s.write_position == 0
    &&& s.index_entries@.len() == 0
}

/// The segment `s` after a record of `len` bytes for the message of
/// `offset` was written at its write position at `now`.
pub open spec fn after_write(
    s: Segment,
    t: Segment,
    offset: Offset,
    len: usize,
    message: Message,
    compressed_size: Option<u32>,
    now: Timestamp,
) -> bool {
    &&& t.metadata == (SegmentMetadata {
        next_offset: Offset((offset.0 + 1) as u64),
        size: (s.metadata.size + len) as u64,
        message_count: (s.metadata.message_count + 1) as u64,
        last_modified: now,
        ..s.metadata
    })
    &&& t.file_path@ == s.file_path@
    &&& t.write_position == if s.write_position + len > usize::MAX {
        (s.write_position + len - usize::MAX - 1) as usize
    } else {
        (s.write_position + len) as usize
    }
    &&& t.index_entries@ == s.index_entries@.push(
        IndexEntry {
            offset,
            position: s.write_position as u64,
            size: message.metadata.size as u32,
            timestamp: message.metadata.timestamp,
            compressed_size,
        },
    )
}

/// High-performance segment storage: the active segment of each topic
/// partition, the index of the messages written, a memory pool, and the
/// statistics.
#[derive(Debug)]
pub struct SegmentStorage {
    config: SegmentStorageConfig,
    active_segments: NameMap<Segment>,
    indices: NameMap<OffsetIndex<IndexEntry>>,
    memory_pool: MemoryPool,
    segment_counter: u64,
    stats: StorageStats,
}

impl SegmentStorage {
    /// The configuration.
    pub closed spec fn spec_config(&self) -> SegmentStorageConfig {
        self.config
    }

    /// The active segment of each topic partition, by key.
    pub closed spec fn segments(&self) -> Map<Seq<char>, Segment> {
        self.active_segments.map()
    }

    /// The index of each topic partition, by key.
    pub closed spec fn index(&self) -> Map<Seq<char>, Map<u64, IndexEntry>> {
        self.indices.map().map_values(|x: OffsetIndex<IndexEntry>| x.map())
    }

    /// The number the next segment gets.
    pub closed spec fn counter(&self) -> u64 {
        self.segment_counter
    }

    /// The statistics kept.
    pub closed spec fn spec_stats(&self) -> StorageStats {
        self.stats
    }

    /// The maps are well formed.
    pub closed spec fn wf(&self) -> bool {
        &&& self.active_segments.wf()
        &&& self.indices.wf()
        &&& forall|k: Seq<char>| #[trigger] self.indices.map().contains_key(k) ==> self.indices.map()[k].wf()
        &&& self.memory_pool.wf()
    }

    /// `self` and `other` have the same configuration and pool.
    pub closed spec fn same_setup(&self, other: &SegmentStorage) -> bool {
        &&& self.config == other.config
        &&& self.memory_pool == other.memory_pool
    }

    /// Create a new segment storage engine, with a memory pool of the
    /// configured kind.
    pub fn new(config: SegmentStorageConfig) -> (s: Self)
        requires
            config.memory_pool_config.prewarm ==> config.memory_pool_config.chunk_size > 0,
        ensures
            s.wf(),
            s.spec_config() == config,
            s.segments() == Map::<Seq<char>, Segment>::empty(),
            s.index() == Map::<Seq<char>, Map<u64, IndexEntry>>::empty(),
            s.counter() == 0,
            s.spec_stats() == no_storage_stats(),
    {
        let memory_pool = MemoryPool::new(config.memory_pool_config);
        let s = SegmentStorage {
            config,
            active_segments: NameMap::new(),
            indices: NameMap::new(),
            memory_pool,
            segment_counter: 0,
            stats: StorageStats::default(),
        };
        assert(s.index() =~= Map::<Seq<char>, Map<u64, IndexEntry>>::empty());
        s
    }

    /// The data directory.
    pub fn data_dir(&self) -> (d: &String)
        ensures
            d@ == self.spec_config().data_dir@,
    {
        &self.config.data_dir
    }

    /// Whether segments are memory-mapped.
    pub fn enable_mmap(&self) -> (b: bool)
        ensures
            b == self.spec_config().enable_mmap,
    {
        self.config.enable_mmap
    }

    /// The size of a segment.
    pub fn segment_size(&self) -> (n: usize)
        ensures
            n == self.spec_config().segment_size,
    {
        self.config.segment_size
    }

    /// The key of partition `partition` of `topic`.
    pub fn segment_key(topic: &str, partition: i32) -> (k: String)
        ensures
            k@ == index_key(topic@, partition),
    {
        let mut k = topic.to_owned();
        proof {
            reveal_strlit(":");
        }
        k.append(":");
        push_signed_decimal(&mut k, partition as i64);
        k
    }

    /// The directory of the segments of `key`.
    pub fn segment_dir(&self, key: &str) -> (d: String)
        ensures
            d@ == path_join(path_join(self.spec_config().data_dir@, "segments"@), key@),
    {
        let segments = join_path(self.config.data_dir.as_str(), "segments");
        join_path(segments.as_str(), key)
    }

    /// The file of segment `id` of `key`: its number in 20 digits, then
    /// ".log".
    pub fn segment_file(&self, key: &str, id: u64) -> (f: String)
        ensures
            f@ == path_join(
                path_join(path_join(self.spec_config().data_dir@, "segments"@), key@),
                padded_decimal(id as nat, 20) + ".log"@,
            ),
    {
        let dir = self.segment_dir(key);
        let digits = with_decimal("", id);
        let n = digits.as_str().unicode_len();
        let mut name = String::new();
        let pad: usize = if n < 20 { 20 - n } else { 0 };
        let mut k: usize = 0;
        proof {
            reveal_strlit("");
            assert(""@ + decimal(id as nat) =~= decimal(id as nat));
        }
        assert(digits@ == decimal(id as nat));
        while k < pad
            invariant
                k <= pad,
                name@ == Seq::new(k as nat, |j: int| '0'),
            decreases pad - k,
        {
            proof {
                reveal_strlit("0");
            }
            name.append("0");
            assert(name@ =~= Seq::new((k + 1) as nat, |j: int| '0'));
            k = k + 1;
        }
        name.append(digits.as_str());
        proof {
            reveal_strlit(".log");
        }
        name.append(".log");
        proof {
            if n >= 20 {
                assert(name@ =~= decimal(id as nat) + ".log"@);
            } else {
                assert(name@ =~= padded_decimal(id as nat, 20) + ".log"@);
            }
        }
        join_path(dir.as_str(), name.as_str())
    }

    /// The active segment of `key`, while it is below the segment size.
    pub fn current_segment(&self, key: &str) -> (r: Option<SegmentHandle>)
        requires
            self.wf(),
        ensures
            match r {
                Some(h) => self.segments().contains_key(key@) && self.segments()[key@].metadata.size
                    < self.spec_config().segment_size && handle_of(self.segments()[key@], h),
                None => !(self.segments().contains_key(key@) && self.segments()[key@].metadata.size
                    < self.spec_config().segment_size),
            },
    {
        match self.active_segments.get(key) {
            Some(s) => {
                if s.metadata.size < self.config.segment_size as u64 {
                    Some(handle(s))
                } else {
                    None
                }
            },
            None => None,
        }
    }

    /// The active segment of `key`, whatever its size.
    pub fn find_segment(&self, key: &str) -> (r: Option<SegmentHandle>)
        requires
            self.wf(),
        ensures
            match r {
                Some(h) => self.segments().contains_key(key@) && handle_of(self.segments()[key@], h),
                None => !self.segments().contains_key(key@),
            },
    {
        match self.active_segments.get(key) {
            Some(s) => Some(handle(s)),
            None => None,
        }
    }

    /// Take the number of a new segment (the counter wraps around).
    pub fn take_segment_id(&mut self) -> (id: u64)
        requires
            old(self).wf(),
        ensures
            final(self).wf(),
            final(self).same_setup(old(self)),
            id == old(self).counter(),
            final(self).counter() == if old(self).counter() == u64::MAX {
                0
            } else {
                (old(self).counter() + 1) as u64
            },
            final(self).segments() == old(self).segments(),
            final(self).index() == old(self).index(),
            final(self).spec_stats() == old(self).spec_stats(),
    {
        let id = self.segment_counter;
        self.segment_counter = self.segment_counter.wrapping_add(1);
        id
    }

    /// Make segment `id` of `key`, at `base_offset`, at `now`, the active
    /// one of `key`, and count it.
    pub fn add_segment_at(&mut self, key: &str, id: u64, base_offset: Offset, now: Timestamp) -> (h: SegmentHandle)
        requires
            old(self).wf(),
            old(self).spec_stats().total_segments < u64::MAX,
        ensures
            final(self).wf(),
            final(self).same_setup(old(self)),
            final(self).counter() == old(self).counter(),
            final(self).index() == old(self).index(),
            final(self).segments().dom() == old(self).segments().dom().insert(key@),
            forall|k: Seq<char>| k != key@ && #[trigger] old(self).segments().contains_key(k)
                ==> final(self).segments()[k] == old(self).segments()[k],
            fresh_segment(final(self).segments()[key@], id, base_offset, old(self).spec_config().compression_algorithm, now),
            final(self).segments()[key@].file_path@ == path_join(
                path_join(path_join(old(self).spec_config().data_dir@, "segments"@), key@),
                padded_decimal(id as nat, 20) + ".log"@,
            ),
            handle_of(final(self).segments()[key@], h),
            final(self).spec_stats() == (StorageStats {
                total_segments: (old(self).spec_stats().total_segments + 1) as u64,
                ..old(self).spec_stats()
            }),
    {
        let file_path = self.segment_file(key, id);
        let segment = Segment {
            metadata: SegmentMetadata {
                segment_id: id,
                base_offset,
                next_offset: base_offset,
                size: 0,
                message_count: 0,
                created_at: now,
                last_modified: now,
                compression: self.config.compression_algorithm,
                checksum: 0,
            },
            file_path,
            write_position: 0,
            index_entries: Vec::new(),
        };
        let h = handle(&segment);
        self.active_segments.insert(key.to_owned(), segment);
        self.stats.total_segments = self.stats.total_segments + 1;
        assert(self.segments().dom() =~= old(self).segments().dom().insert(key@));
        h
    }

    /// Record that a record of `len` bytes for `message` at `offset` was
    /// written to the active segment of `key` at its write position at
    /// `now` (`compressed_size` where it was compressed), and index it.
    pub fn record_write_at(
        &mut self,
        key: &str,
        offset: Offset,
        len: usize,
        message: &Message,
        compressed_size: Option<u32>,
        now: Timestamp,
    )
        requires
            old(self).wf(),
            offset.0 < u64::MAX,
            old(self).segments().contains_key(key@),
            old(self).segments()[key@].metadata.size + len <= u64::MAX,
            old(self).segments()[key@].metadata.message_count < u64::MAX,
        ensures
            final(self).wf(),
            final(self).same_setup(old(self)),
            final(self).counter() == old(self).counter(),
            final(self).spec_stats() == old(self).spec_stats(),
            ({
                &&& final(self).segments().dom() == old(self).segments().dom()
                &&& forall|k: Seq<char>| k != key@ && #[trigger] old(self).segments().contains_key(k)
                    ==> final(self).segments()[k] == old(self).segments()[k]
                &&& after_write(
                    old(self).segments()[key@],
                    final(self).segments()[key@],
                    offset,
                    len,
                    *message,
                    compressed_size,
                    now,
                )
                &&& final(self).index() == old(self).index().insert(
                    key@,
                    (if old(self).index().contains_key(key@) {
                        old(self).index()[key@]
                    } else {
                        Map::empty()
                    }).insert(
                        offset.0,
                        IndexEntry {
                            offset,
                            position: old(self).segments()[key@].write_position as u64,
                            size: message.metadata.size as u32,
                            timestamp: message.metadata.timestamp,
                            compressed_size: None,
                        },
                    ),
                )
            }),
    {
        let mut segment = self.active_segments.remove(key).unwrap();
        let ghost before = segment;
        let position = segment.write_position as u64;
        segment.metadata.next_offset = Offset(offset.0 + 1);
        segment.metadata.size = segment.metadata.size + len as u64;
        segment.metadata.message_count = segment.metadata.message_count + 1;
        segment.metadata.last_modified = now;
        segment.write_position = segment.write_position.wrapping_add(len);
        segment.index_entries.push(IndexEntry {
            offset,
            position,
            size: message.size() as u32,
            timestamp: message.timestamp(),
            compressed_size,
        });
        let ghost after = segment;
        self.active_segments.insert(key.to_owned(), segment);
        assert(self.segments().dom() =~= old(self).segments().dom());
        let entry = IndexEntry {
            offset,
            position,
            size: message.size() as u32,
            timestamp: message.timestamp(),
            compressed_size: None,
        };
        let mut index = match self.indices.remove(key) {
            Some(x) => x,
            None => OffsetIndex::new(),
        };
        index.insert(entry);
        self.indices.insert(key.to_owned(), index);
        proof {
            assert(self.index() =~= old(self).index().insert(
                key@,
                (if old(self).index().contains_key(key@) {
                    old(self).index()[key@]
                } else {
                    Map::empty()
                }).insert(offset.0, entry),
            ));
        }
    }

    /// The index entry of the message at `offset` of `key`.
    pub fn get_index_entry(&self, key: &str, offset: Offset) -> (r: Option<IndexEntry>)
        requires
            self.wf(),
        ensures
            r == (if self.index().contains_key(key@) && self.index()[key@].contains_key(offset.0) {
                Some(self.index()[key@][offset.0])
            } else {
                None
            }),
    {
        match self.indices.get(key) {
            Some(x) => x.get(offset.0),
            None => None,
        }
    }

    /// Count a message of `size` bytes written in `latency_us`
    /// microseconds, into the running average.
    pub fn update_write_stats(&mut self, size: usize, latency_us: u64)
        requires
            old(self).wf(),
            can_count(
                old(self).spec_stats().total_messages_written,
                old(self).spec_stats().total_bytes_written,
                old(self).spec_stats().avg_write_latency_us,
                size,
                latency_us,
            ),
        ensures
            final(self).wf(),
            final(self).same_setup(old(self)),
            final(self).counter() == old(self).counter(),
            final(self).segments() == old(self).segments(),
            final(self).index() == old(self).index(),
            final(self).spec_stats() == (StorageStats {
                total_messages_written: (old(self).spec_stats().total_messages_written + 1) as u64,
                total_bytes_written: (old(self).spec_stats().total_bytes_written + size) as u64,
                avg_write_latency_us: next_average(
                    old(self).spec_stats().avg_write_latency_us,
                    (old(self).spec_stats().total_messages_written + 1) as nat,
                    latency_us,
                ) as u64,
                ..old(self).spec_stats()
            }),
    {
        let n = self.stats.total_messages_written + 1;
        self.stats.total_messages_written = n;
        self.stats.total_bytes_written = self.stats.total_bytes_written + size as u64;
        assert(self.stats.avg_write_latency_us * (n - 1) <= u64::MAX - latency_us);
        let sum = self.stats.avg_write_latency_us * (n - 1) + latency_us;
        self.stats.avg_write_latency_us = sum / n;
    }

    /// Count a message of `size` bytes read in `latency_us` microseconds,
    /// into the running average.
    pub fn update_read_stats(&mut self, size: usize, latency_us: u64)
        requires
            old(self).wf(),
            can_count(
                old(self).spec_stats().total_messages_read,
                old(self).spec_stats().total_bytes_read,
                old(self).spec_stats().avg_read_latency_us,
                size,
                latency_us,
            ),
        ensures
            final(self).wf(),
            final(self).same_setup(old(self)),
            final(self).counter() == old(self).counter(),
            final(self).segments() == old(self).segments(),
            final(self).index() == old(self).index(),
            final(self).spec_stats() == (StorageStats {
                total_messages_read: (old(self).spec_stats().total_messages_read + 1) as u64,
                total_bytes_read: (old(self).spec_stats().total_bytes_read + size) as u64,
                avg_read_latency_us: next_average(
                    old(self).spec_stats().avg_read_latency_us,
                    (old(self).spec_stats().total_messages_read + 1) as nat,
                    latency_us,
                ) as u64,
                ..old(self).spec_stats()
            }),
    {
        let n = self.stats.total_messages_read + 1;
        self.stats.total_messages_read = n;
        self.stats.total_bytes_read = self.stats.total_bytes_read + size as u64;
        assert(self.stats.avg_read_latency_us * (n - 1) <= u64::MAX - latency_us);
        let sum = self.stats.avg_read_latency_us * (n - 1) + latency_us;
        self.stats.avg_read_latency_us = sum / n;
    }

    /// The statistics, with the number of active segments.
    pub fn get_stats(&self) -> (s: StorageStats)
        requires
            self.wf(),
        ensures
            s == (StorageStats { active_segments: self.segments().dom().len() as usize, ..self.spec_stats() }),
    {
        proof {
            self.active_segments.lemma_len();
        }
        let mut s = self.stats;
        s.active_segments = self.active_segments.len();
        s
    }
}

} // verus!
