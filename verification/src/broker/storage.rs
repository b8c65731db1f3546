//! The storage engine's catalogue: the segments of each topic, the index
//! of the messages written, where their files lie, and how a record is
//! framed in a segment file. Reading and writing the files is the caller's.

use vstd::prelude::*;
use std::time::Duration;
use crate::broker::message::{Message, Offset};
use crate::broker::error::{Error, Result, is_storage_error};
use crate::broker::names::NameMap;
use crate::broker::parse::{int_error_text, parse_i32, parse_integer, parse_u64};
use crate::broker::text::with_text;
use crate::broker::text::{decimal, signed_decimal, push_decimal, push_signed_decimal};
use crate::broker::time::{duration_from_millis, duration_nanos};
use crate::qiss::types::Timestamp;
use crate::qiss::wire::length_prefixed;

verus! {

/// Storage engine configuration.
#[derive(Debug, Clone)]
pub struct StorageConfig {
    /// Data directory
    pub data_dir: String,
    /// Enable compression
    pub enable_compression: bool,
    /// Compression level
    pub compression_level: u32,
    /// Segment size
    pub segment_size: usize,
    /// Index interval
    pub index_interval: usize,
    /// Flush interval
    pub flush_interval: Duration,
    /// Sync on write
    pub sync_on_write: bool,
}

impl Default for StorageConfig {
    fn default() -> (c: Self)
        ensures
            c.data_dir@ == "./data"@,
            !c.enable_compression,
            c.compression_level == 6,
            c.segment_size == 1024 * 1024,
            c.index_interval == 4096,
            duration_nanos(c.flush_interval) == 100 * 1_000_000,
            !c.sync_on_write,
    {
        StorageConfig {
            data_dir: "./data".to_string(),
            enable_compression: false,
            compression_level: 6,
            segment_size: 1024 * 1024,
            index_interval: 4096,
            flush_interval: duration_from_millis(100),
            sync_on_write: false,
        }
    }
}

/// Storage index entry.
#[derive(Debug, Clone, Copy, PartialEq, Eq, Structural)]
pub struct IndexEntry {
    /// Offset
    pub offset: Offset,
    /// Position in segment file
    pub position: u64,
    /// Message size
    pub size: u32,
    /// Timestamp
    pub timestamp: Timestamp,
}

/// An index entry, found by the offset of the message it records.
pub trait OffsetKeyed: Copy {
    /// The offset the entry records.
    spec fn offset_key(&self) -> u64;

    /// The offset the entry records.
    fn key(&self) -> (k: u64)
        ensures
            k == self.offset_key(),
    ;
}

impl OffsetKeyed for IndexEntry {
    open spec fn offset_key(&self) -> u64 {
        self.offset.0
    }

    fn key(&self) -> (k: u64) {
        self.offset.0
    }
}

/// The index of one topic partition: an entry for each offset written, the
/// last written for an offset replacing the one before.
#[derive(Debug)]
pub struct OffsetIndex<E> {
    entries: Vec<E>,
}

impl<E: OffsetKeyed> OffsetIndex<E> {
    /// The entries by offset.
    pub closed spec fn map(&self) -> Map<u64, E> {
        Map::new(
            |o: u64| exists|i: int| 0 <= i < self.entries@.len() && self.entries@[i].offset_key() == o,
            |o: u64| self.entries@[choose|i: int| 0 <= i < self.entries@.len() && self.entries@[i].offset_key() == o],
        )
    }

    /// Each entry's key is its offset, and no offset occurs twice.
    pub closed spec fn wf(&self) -> bool {
        forall|i: int, j: int|
            0 <= i < j < self.entries@.len() ==> self.entries@[i].offset_key() != self.entries@[j].offset_key()
    }

    /// The number of entries.
    pub closed spec fn spec_len(&self) -> nat {
        self.entries@.len()
    }

    /// The empty index.
    pub fn new() -> (x: Self)
        ensures
            x.wf(),
            x.map() == Map::<u64, E>::empty(),
            x.spec_len() == 0,
    {
        let x = OffsetIndex { entries: Vec::new() };
        assert(x.map() =~= Map::<u64, E>::empty());
        x
    }

    fn find(&self, offset: u64) -> (r: Option<usize>)
        ensures
            match r {
                Some(i) => i < self.entries@.len() && self.entries@[i as int].offset_key() == offset,
                None => forall|i: int| 0 <= i < self.entries@.len() ==> self.entries@[i].offset_key() != offset,
            },
    {
        let mut i: usize = 0;
        while i < self.entries.len()
            invariant
                i <= self.entries@.len(),
                forall|j: int| 0 <= j < i ==> self.entries@[j].offset_key() != offset,
            decreases self.entries.len() - i,
        {
            if self.entries[i].key() == offset {
                return Some(i);
            }
            i = i + 1;
        }
        None
    }

    /// The entry of `offset`.
    pub fn get(&self, offset: u64) -> (r: Option<E>)
        requires
            self.wf(),
        ensures
            r == (if self.map().contains_key(offset) {
                Some(self.map()[offset])
            } else {
                None
            }),
    {
        match self.find(offset) {
            Some(i) => {
                assert(self.map().contains_key(offset));
                let ghost c = choose|j: int| 0 <= j < self.entries@.len() && self.entries@[j].offset_key() == offset;
                assert(c == i as int);
                Some(self.entries[i])
            },
            None => None,
        }
    }

    /// Record `entry` under its offset, replacing any entry of that offset.
    pub fn insert(&mut self, entry: E)
        requires
            old(self).wf(),
        ensures
            final(self).wf(),
            final(self).map() == old(self).map().insert(entry.offset_key(), entry),
            final(self).spec_len() == old(self).spec_len() + if old(self).map().contains_key(entry.offset_key()) {
                0int
            } else {
                1int
            },
    {
        let ghost old_entries = self.entries@;
        let k = entry.key();
        match self.find(k) {
            Some(i) => {
                assert(old(self).map().contains_key(k));
                self.entries.set(i, entry);
                assert forall|a: int, b: int| 0 <= a < b < self.entries@.len() implies self.entries@[a].offset_key()
                    != self.entries@[b].offset_key() by {
                    assert(old_entries[a].offset_key() != old_entries[b].offset_key());
                }
                assert forall|o: u64| #[trigger] self.map().contains_key(o) == old(self).map().insert(k, entry).contains_key(o) by {
                    if old(self).map().contains_key(o) {
                        let w = choose|j: int| 0 <= j < old_entries.len() && old_entries[j].offset_key() == o;
                        assert(self.entries@[w].offset_key() == o);
                    }
                    if self.map().contains_key(o) {
                        let w = choose|j: int| 0 <= j < self.entries@.len() && self.entries@[j].offset_key() == o;
                        assert(old_entries[w].offset_key() == o);
                    }
                }
                assert forall|o: u64| #[trigger] self.map().contains_key(o) implies self.map()[o] == old(self).map().insert(k, entry)[o] by {
                    let w = choose|j: int| 0 <= j < self.entries@.len() && self.entries@[j].offset_key() == o;
                    if o == k {
                        assert(w == i as int);
                    } else {
                        let w0 = choose|j: int| 0 <= j < old_entries.len() && old_entries[j].offset_key() == o;
                        assert(w0 == w);
                    }
                }
                assert(self.map() =~= old(self).map().insert(k, entry));
            },
            None => {
                assert(!old(self).map().contains_key(k));
                self.entries.push(entry);
                assert forall|a: int, b: int| 0 <= a < b < self.entries@.len() implies self.entries@[a].offset_key()
                    != self.entries@[b].offset_key() by {
                    if b < old_entries.len() {
                        assert(old_entries[a].offset_key() != old_entries[b].offset_key());
                    }
                }
                assert forall|o: u64| #[trigger] self.map().contains_key(o) == old(self).map().insert(k, entry).contains_key(o) by {
                    if old(self).map().contains_key(o) {
                        let w = choose|j: int| 0 <= j < old_entries.len() && old_entries[j].offset_key() == o;
                        assert(self.entries@[w].offset_key() == o);
                    }
                    if o == k {
                        assert(self.entries@[old_entries.len() as int].offset_key() == o);
                    }
                    if self.map().contains_key(o) && o != k {
                        let w = choose|j: int| 0 <= j < self.entries@.len() && self.entries@[j].offset_key() == o;
                        assert(old_entries[w].offset_key() == o);
                    }
                }
                assert forall|o: u64| #[trigger] self.map().contains_key(o) implies self.map()[o] == old(self).map().insert(k, entry)[o] by {
                    let w = choose|j: int| 0 <= j < self.entries@.len() && self.entries@[j].offset_key() == o;
                    if o == k {
                        assert(w == old_entries.len() as int);
                    } else {
                        let w0 = choose|j: int| 0 <= j < old_entries.len() && old_entries[j].offset_key() == o;
                        assert(w0 == w);
                    }
                }
                assert(self.map() =~= old(self).map().insert(k, entry));
            },
        }
    }

    /// The number of entries.
    pub fn len(&self) -> (n: usize)
        ensures
            n == self.spec_len(),
    {
        self.entries.len()
    }
}

/// `part` appended to the path `base`, as a path join does: an absolute
/// `part` replaces `base`; otherwise a separator goes between them unless
/// `base` is empty or already ends in one.
pub open spec fn path_join(base: Seq<char>, part: Seq<char>) -> Seq<char> {
    if part.len() > 0 && part[0] == '/' {
        part
    } else if base.len() == 0 || base.last() == '/' {
        base + part
    } else {
        base + seq!['/'] + part
    }
}

/// The path `part` appended to `base` (see `path_join`).
pub fn join_path(base: &str, part: &str) -> (r: String)
    ensures
        r@ == path_join(base@, part@),
{
    let plen = part.unicode_len();
    if plen > 0 && part.get_char(0) == '/' {
        return part.to_owned();
    }
    let blen = base.unicode_len();
    let mut r = base.to_owned();
    if !(blen == 0 || base.get_char(blen - 1) == '/') {
        proof {
            reveal_strlit("/");
        }
        r.append("/");
    }
    r.append(part);
    r
}

/// The directory of partition `partition_id` of `topic` under `data_dir`.
pub open spec fn partition_dir_path(data_dir: Seq<char>, topic: Seq<char>, partition_id: i32) -> Seq<char> {
    path_join(path_join(path_join(data_dir, "topics"@), topic), "partition-"@ + signed_decimal(partition_id as int))
}

/// The file of the segment beginning at `offset`.
pub open spec fn segment_file_path(data_dir: Seq<char>, topic: Seq<char>, partition_id: i32, offset: Offset) -> Seq<char> {
    path_join(partition_dir_path(data_dir, topic, partition_id), decimal(offset.0 as nat) + ".log"@)
}

/// The index key of a topic partition: the topic, a colon and the
/// partition number.
pub open spec fn index_key(topic: Seq<char>, partition_id: i32) -> Seq<char> {
    topic + ":"@ + signed_decimal(partition_id as int)
}

/// A segment file's record of a message: the length of its bytes as a
/// little-endian `u32` (truncated), then the bytes.
pub fn frame_record(data: &[u8]) -> (r: Vec<u8>)
    ensures
        r@ == length_prefixed(data@),
{
    let len = data.len() as u32;
    let mut r = vstd::bytes::u32_to_le_bytes(len);
    let mut i: usize = 0;
    while i < data.len()
        invariant
            i <= data@.len(),
            r@ == crate::qiss::wire::le32(data@.len() as u32) + data@.take(i as int),
        decreases data.len() - i,
    {
        r.push(data[i]);
        assert(data@.take(i + 1) =~= data@.take(i as int).push(data@[i as int]));
        i = i + 1;
    }
    assert(data@.take(data@.len() as int) =~= data@);
    r
}

/// The length of a record's bytes, read from the four bytes that begin it.
pub fn record_length(header: &[u8]) -> (n: u32)
    requires
        header@.len() == 4,
    ensures
        n == vstd::bytes::spec_u32_from_le_bytes(header@),
{
    vstd::bytes::u32_from_le_bytes(header)
}

/// What a read gives back of a framed record: the first four bytes of a
/// record framed for a body of fewer than 2^32 bytes give its length, and
/// that many bytes after them are the body, whatever follows.
pub proof fn lemma_record_reads_back(body: Seq<u8>, rest: Seq<u8>)
    requires
        body.len() <= u32::MAX,
    ensures
        ({
            let framed = length_prefixed(body) + rest;
            &&& framed.len() >= 4
            &&& vstd::bytes::spec_u32_from_le_bytes(framed.take(4)) == body.len()
            &&& framed.subrange(4, 4 + body.len() as int) == body
        }),
{
    crate::qiss::wire::lemma_le_roundtrip();
    let framed = length_prefixed(body) + rest;
    assert(framed.take(4) =~= crate::qiss::wire::le32(body.len() as u32));
    assert(framed.subrange(4, 4 + body.len() as int) =~= body);
}

/// Storage segment.
#[derive(Debug)]
pub struct Segment {
    /// Segment file path
    pub file_path: String,
    /// Base offset
    pub base_offset: Offset,
    /// Next offset
    pub next_offset: Offset,
    /// Segment size
    pub size: usize,
    /// Created timestamp
    pub created_at: Timestamp,
    /// Last modified timestamp
    pub last_modified: Timestamp,
}

/// A copy of a segment.
pub fn copy_segment(s: &Segment) -> (r: Segment)
    ensures
        r == *s,
{
    Segment {
        file_path: s.file_path.clone(),
        base_offset: s.base_offset,
        next_offset: s.next_offset,
        size: s.size,
        created_at: s.created_at,
        last_modified: s.last_modified,
    }
}

/// Storage statistics.
#[derive(Debug)]
pub struct StorageStats {
    /// Total number of segments
    pub total_segments: usize,
    /// Total storage size in bytes
    pub total_size: usize,
    /// Total number of messages
    pub total_messages: usize,
    /// Data directory
    pub data_dir: String,
}

/// The first segment of `s` that begins at or before `offset`.
pub open spec fn first_at_or_before(s: Seq<Segment>, offset: u64) -> Option<Segment>
    decreases s.len(),
{
    if s.len() == 0 {
        None
    } else if offset >= s[0].base_offset.0 {
        Some(s[0])
    } else {
        first_at_or_before(s.drop_first(), offset)
    }
}

/// A topic with a segment that begins at or before `offset` has a segment
/// to read `offset` from; the one found begins at or before it too.
pub proof fn lemma_segment_found(s: Seq<Segment>, i: int, offset: u64)
    requires
        0 <= i < s.len(),
        s[i].base_offset.0 <= offset,
    ensures
        first_at_or_before(s, offset) matches Some(found) && found.base_offset.0 <= offset,
    decreases s.len(),
{
    if offset < s[0].base_offset.0 {
        assert(i > 0);
        assert(s.drop_first()[i - 1] == s[i]);
        lemma_segment_found(s.drop_first(), i - 1, offset);
    }
}

/// The index gives back what was recorded: after an entry is recorded for
/// an offset of a partition, that offset's entry is the one recorded, and
/// every other offset and partition keeps its entry.
pub proof fn lemma_index_reads_back(
    index: Map<Seq<char>, Map<u64, IndexEntry>>,
    key: Seq<char>,
    entry: IndexEntry,
    other_key: Seq<char>,
    other_offset: u64,
)
    requires
        other_key != key || other_offset != entry.offset.0,
    ensures
        ({
            let updated = index.insert(
                key,
                (if index.contains_key(key) {
                    index[key]
                } else {
                    Map::empty()
                }).insert(entry.offset.0, entry),
            );
            &&& updated.contains_key(key) && updated[key].contains_key(entry.offset.0)
            &&& updated[key][entry.offset.0] == entry
            &&& (index.contains_key(other_key) && index[other_key].contains_key(other_offset)) == (
            updated.contains_key(other_key) && updated[other_key].contains_key(other_offset))
            &&& index.contains_key(other_key) && index[other_key].contains_key(other_offset)
                ==> updated[other_key][other_offset] == index[other_key][other_offset]
        }),
{
}

/// The number of segments in the lists.
pub open spec fn segment_count(lists: Seq<Seq<Segment>>) -> nat
    decreases lists.len(),
{
    if lists.len() == 0 {
        0
    } else {
        segment_count(lists.drop_last()) + lists.last().len()
    }
}

/// The sizes of the segments in `s`, added up.
pub open spec fn size_of_segments(s: Seq<Segment>) -> nat
    decreases s.len(),
{
    if s.len() == 0 {
        0
    } else {
        size_of_segments(s.drop_last()) + s.last().size as nat
    }
}

/// The sizes of the segments in the lists, added up.
pub open spec fn total_segment_size(lists: Seq<Seq<Segment>>) -> nat
    decreases lists.len(),
{
    if lists.len() == 0 {
        0
    } else {
        total_segment_size(lists.drop_last()) + size_of_segments(lists.last())
    }
}

/// The number of entries in the indexes.
pub open spec fn entry_count(sizes: Seq<nat>) -> nat
    decreases sizes.len(),
{
    if sizes.len() == 0 {
        0
    } else {
        entry_count(sizes.drop_last()) + sizes.last()
    }
}

/// `n`, held at `usize::MAX`.
pub open spec fn capped(n: nat) -> usize {
    if n > usize::MAX {
        usize::MAX
    } else {
        n as usize
    }
}

/// Storage engine: the catalogue of segments and the index of the messages
/// written, under a data directory.
#[derive(Debug)]
pub struct StorageEngine {
    config: StorageConfig,
    data_dir: String,
    segments: NameMap<Vec<Segment>>,
    indices: NameMap<OffsetIndex<IndexEntry>>,
}

impl StorageEngine {
    /// The configuration.
    pub closed spec fn spec_config(&self) -> StorageConfig {
        self.config
    }

    /// The data directory.
    pub closed spec fn spec_data_dir(&self) -> Seq<char> {
        self.data_dir@
    }

    /// The segments of each topic, oldest first.
    pub closed spec fn segments(&self) -> Map<Seq<char>, Seq<Segment>> {
        self.segments.map().map_values(|v: Vec<Segment>| v@)
    }

    /// The index of each topic partition, by index key.
    pub closed spec fn index(&self) -> Map<Seq<char>, Map<u64, IndexEntry>> {
        self.indices.map().map_values(|x: OffsetIndex<IndexEntry>| x.map())
    }

    /// The segment lists, one per topic.
    pub closed spec fn segment_lists(&self) -> Seq<Seq<Segment>> {
        self.segments.values_seq().map_values(|v: Vec<Segment>| v@)
    }

    /// The number of entries of each index.
    pub closed spec fn index_sizes(&self) -> Seq<nat> {
        self.indices.values_seq().map_values(|x: OffsetIndex<IndexEntry>| x.spec_len())
    }

    /// The maps are well formed.
    pub closed spec fn wf(&self) -> bool {
        &&& self.segments.wf()
        &&& self.indices.wf()
        &&& forall|k: Seq<char>| #[trigger] self.indices.map().contains_key(k) ==> self.indices.map()[k].wf()
    }

    /// Create a new storage engine with the default configuration.
    pub fn new(data_dir: String) -> (e: Self)
        ensures
            e.wf(),
            e.spec_config().data_dir@ == "./data"@,
            e.spec_config().segment_size == 1024 * 1024,
            e.spec_data_dir() == data_dir@,
            e.segments() == Map::<Seq<char>, Seq<Segment>>::empty(),
            e.index() == Map::<Seq<char>, Map<u64, IndexEntry>>::empty(),
            e.segment_lists().len() == 0,
            e.index_sizes().len() == 0,
    {
        Self::with_config(data_dir, StorageConfig::default())
    }

    /// Create a new storage engine with `config`.
    pub fn with_config(data_dir: String, config: StorageConfig) -> (e: Self)
        ensures
            e.wf(),
            e.spec_config() == config,
            e.spec_data_dir() == data_dir@,
            e.segments() == Map::<Seq<char>, Seq<Segment>>::empty(),
            e.index() == Map::<Seq<char>, Map<u64, IndexEntry>>::empty(),
            e.segment_lists().len() == 0,
            e.index_sizes().len() == 0,
    {
        let e = StorageEngine { config, data_dir, segments: NameMap::new(), indices: NameMap::new() };
        proof {
            e.segments.lemma_seqs();
            e.indices.lemma_seqs();
        }
        assert(e.segments() =~= Map::<Seq<char>, Seq<Segment>>::empty());
        assert(e.index() =~= Map::<Seq<char>, Map<u64, IndexEntry>>::empty());
        e
    }

    /// The data directory.
    pub fn data_dir(&self) -> (d: &String)
        ensures
            d@ == self.spec_data_dir(),
    {
        &self.data_dir
    }

    /// Whether every write is synced to disk.
    pub fn sync_on_write(&self) -> (b: bool)
        ensures
            b == self.spec_config().sync_on_write,
    {
        self.config.sync_on_write
    }

    /// The directory of partition `partition_id` of `topic`.
    pub fn partition_dir(&self, topic: &str, partition_id: i32) -> (d: String)
        ensures
            d@ == partition_dir_path(self.spec_data_dir(), topic@, partition_id),
    {
        let topics = join_path(self.data_dir.as_str(), "topics");
        let dir = join_path(topics.as_str(), topic);
        let mut name = "partition-".to_owned();
        push_signed_decimal(&mut name, partition_id as i64);
        join_path(dir.as_str(), name.as_str())
    }

    /// The directory of queue `queue_name`.
    pub fn queue_dir(&self, queue_name: &str) -> (d: String)
        ensures
            d@ == path_join(path_join(self.spec_data_dir(), "queues"@), queue_name@),
    {
        let queues = join_path(self.data_dir.as_str(), "queues");
        join_path(queues.as_str(), queue_name)
    }

    /// The directory of the topics.
    pub fn topics_dir(&self) -> (d: String)
        ensures
            d@ == path_join(self.spec_data_dir(), "topics"@),
    {
        join_path(self.data_dir.as_str(), "topics")
    }

    /// The segment that writes to `topic` go to: its last segment, while
    /// that is below the configured segment size.
    pub fn current_segment(&self, topic: &str) -> (r: Option<Segment>)
        requires
            self.wf(),
        ensures
            r == (if self.segments().contains_key(topic@) && self.segments()[topic@].len() > 0
                && self.segments()[topic@].last().size < self.spec_config().segment_size {
                Some(self.segments()[topic@].last())
            } else {
                None
            }),
    {
        match self.segments.get(topic) {
            Some(list) => {
                if list.len() > 0 && list[list.len() - 1].size < self.config.segment_size {
                    Some(copy_segment(&list[list.len() - 1]))
                } else {
                    None
                }
            },
            None => None,
        }
    }

    /// Start a new, empty segment of `topic` at `offset` at `now`, in
    /// partition `partition_id`'s directory, after the topic's other
    /// segments.
    pub fn new_segment_at(&mut self, topic: &str, partition_id: i32, offset: Offset, now: Timestamp) -> (r: Segment)
        requires
            old(self).wf(),
        ensures
            final(self).wf(),
            final(self).spec_config() == old(self).spec_config(),
            final(self).spec_data_dir() == old(self).spec_data_dir(),
            final(self).index() == old(self).index(),
            final(self).index_sizes() == old(self).index_sizes(),
            r == (Segment {
                file_path: r.file_path,
                base_offset: offset,
                next_offset: offset,
                size: 0,
                created_at: now,
                last_modified: now,
            }),
            r.file_path@ == segment_file_path(old(self).spec_data_dir(), topic@, partition_id, offset),
            final(self).segments() == old(self).segments().insert(
                topic@,
                (if old(self).segments().contains_key(topic@) {
                    old(self).segments()[topic@]
                } else {
                    Seq::empty()
                }).push(r),
            ),
    {
        let dir = self.partition_dir(topic, partition_id);
        let mut file = with_decimal_text(offset.0);
        proof {
            reveal_strlit(".log");
        }
        file.append(".log");
        let path = join_path(dir.as_str(), file.as_str());
        let segment = Segment {
            file_path: path,
            base_offset: offset,
            next_offset: offset,
            size: 0,
            created_at: now,
            last_modified: now,
        };
        let r = copy_segment(&segment);
        let mut list = match self.segments.remove(topic) {
            Some(l) => l,
            None => Vec::new(),
        };
        let ghost before = list@;
        list.push(segment);
        self.segments.insert(topic.to_owned(), list);
        proof {
            assert(self.segments() =~= old(self).segments().insert(
                topic@,
                (if old(self).segments().contains_key(topic@) {
                    old(self).segments()[topic@]
                } else {
                    Seq::empty()
                }).push(r),
            ));
            assert(self.indices == old(self).indices);
        }
        r
    }

    /// Record in the index of partition `partition_id` of `topic` that the
    /// message at `offset` was written at `position`, with the message's size
    /// (truncated to 32 bits) and timestamp.
    pub fn update_index(&mut self, topic: &str, partition_id: i32, offset: Offset, position: u64, message: &Message) -> (r: Result<()>)
        requires
            old(self).wf(),
        ensures
            r is Ok,
            final(self).wf(),
            final(self).spec_config() == old(self).spec_config(),
            final(self).spec_data_dir() == old(self).spec_data_dir(),
            final(self).segments() == old(self).segments(),
            final(self).segment_lists() == old(self).segment_lists(),
            final(self).index() == old(self).index().insert(
                index_key(topic@, partition_id),
                (if old(self).index().contains_key(index_key(topic@, partition_id)) {
                    old(self).index()[index_key(topic@, partition_id)]
                } else {
                    Map::empty()
                }).insert(
                    offset.0,
                    IndexEntry {
                        offset,
                        position,
                        size: message.metadata.size as u32,
                        timestamp: message.metadata.timestamp,
                    },
                ),
            ),
    {
        let key = self.index_key_of(topic, partition_id);
        let entry = IndexEntry {
            offset,
            position,
            size: message.size() as u32,
            timestamp: message.timestamp(),
        };
        let mut index = match self.indices.remove(key.as_str()) {
            Some(x) => x,
            None => OffsetIndex::new(),
        };
        index.insert(entry);
        let ghost ix = index;
        self.indices.insert(key, index);
        proof {
            let k = index_key(topic@, partition_id);
            assert(self.index() =~= old(self).index().insert(
                k,
                (if old(self).index().contains_key(k) {
                    old(self).index()[k]
                } else {
                    Map::empty()
                }).insert(offset.0, entry),
            ));
            assert(self.segments == old(self).segments);
        }
        Ok(())
    }

    fn index_key_of(&self, topic: &str, partition_id: i32) -> (k: String)
        ensures
            k@ == index_key(topic@, partition_id),
    {
        let mut k = topic.to_owned();
        proof {
            reveal_strlit(":");
        }
        k.append(":");
        push_signed_decimal(&mut k, partition_id as i64);
        k
    }

    /// The index entry of the message at `offset` in partition
    /// `partition_id` of `topic`.
    pub fn get_index_entry(&self, topic: &str, partition_id: i32, offset: Offset) -> (r: Result<Option<IndexEntry>>)
        requires
            self.wf(),
        ensures
            r == Result::<Option<IndexEntry>>::Ok(
                if self.index().contains_key(index_key(topic@, partition_id))
                    && self.index()[index_key(topic@, partition_id)].contains_key(offset.0) {
                    Some(self.index()[index_key(topic@, partition_id)][offset.0])
                } else {
                    None
                },
            ),
    {
        let key = self.index_key_of(topic, partition_id);
        match self.indices.get(key.as_str()) {
            Some(x) => Ok(x.get(offset.0)),
            None => Ok(None),
        }
    }

    /// The segment holding `offset` in `topic`: the first of the topic's
    /// segments that begins at or before it (whatever the partition).
    pub fn find_segment(&self, topic: &str, partition_id: i32, offset: Offset) -> (r: Result<Option<Segment>>)
        requires
            self.wf(),
        ensures
            r == Result::<Option<Segment>>::Ok(
                if self.segments().contains_key(topic@) {
                    first_at_or_before(self.segments()[topic@], offset.0)
                } else {
                    None
                },
            ),
    {
        match self.segments.get(topic) {
            Some(list) => {
                assert(self.segments().contains_key(topic@) && self.segments()[topic@] == list@);
                let mut i: usize = 0;
                assert(list@.skip(0) =~= list@);
                while i < list.len()
                    invariant
                        i <= list@.len(),
                        self.segments().contains_key(topic@) && self.segments()[topic@] == list@,
                        first_at_or_before(list@, offset.0) == first_at_or_before(list@.skip(i as int), offset.0),
                    decreases list.len() - i,
                {
                    if offset.0 >= list[i].base_offset.0 {
                        assert(list@.skip(i as int)[0] == list@[i as int]);
                        assert(first_at_or_before(list@.skip(i as int), offset.0) == Some(list@[i as int]));
                        let found = copy_segment(&list[i]);
                        return Ok(Some(found));
                    }
                    assert(list@.skip(i as int).drop_first() =~= list@.skip(i + 1));
                    i = i + 1;
                }
                Ok(None)
            },
            None => Ok(None),
        }
    }

    /// Record the segments found on disk for `topic`, replacing any it had,
    /// unless there are none.
    pub fn add_loaded_segments(&mut self, topic: String, segments: Vec<Segment>)
        requires
            old(self).wf(),
        ensures
            final(self).wf(),
            final(self).spec_config() == old(self).spec_config(),
            final(self).spec_data_dir() == old(self).spec_data_dir(),
            final(self).index() == old(self).index(),
            final(self).index_sizes() == old(self).index_sizes(),
            final(self).segments() == if segments@.len() == 0 {
                old(self).segments()
            } else {
                old(self).segments().insert(topic@, segments@)
            },
    {
        if segments.len() > 0 {
            let ghost sv = segments@;
            self.segments.insert(topic, segments);
            assert(self.segments() =~= old(self).segments().insert(topic@, sv));
        }
    }
}

impl StorageEngine {
    /// Storage statistics: the number of segments, their sizes added up and
    /// the number of index entries, each held at `usize::MAX`, and the data
    /// directory.
    pub fn get_stats(&self) -> (s: StorageStats)
        requires
            self.wf(),
        ensures
            s.total_segments == capped(segment_count(self.segment_lists())),
            s.total_size == capped(total_segment_size(self.segment_lists())),
            s.total_messages == capped(entry_count(self.index_sizes())),
            s.data_dir@ == self.spec_data_dir(),
    {
        proof {
            self.segments.lemma_seqs();
            self.indices.lemma_seqs();
        }
        let ghost lists = self.segment_lists();
        let mut total_segments: usize = 0;
        let mut total_size: usize = 0;
        let mut i: usize = 0;
        while i < self.segments.len()
            invariant
                lists == self.segment_lists(),
                lists.len() == self.segments.values_seq().len(),
                i <= lists.len(),
                total_segments == capped(segment_count(lists.take(i as int))),
                total_size == capped(total_segment_size(lists.take(i as int))),
            decreases lists.len() - i,
        {
            let list = self.segments.value_at(i);
            proof {
                assert(lists[i as int] == list@);
            }
            let mut size: usize = 0;
            let mut j: usize = 0;
            while j < list.len()
                invariant
                    j <= list@.len(),
                    size == capped(size_of_segments(list@.take(j as int))),
                decreases list.len() - j,
            {
                proof {
                    assert(list@.take(j + 1).drop_last() =~= list@.take(j as int));
                }
                size = size.saturating_add(list[j].size);
                j = j + 1;
            }
            proof {
                assert(list@.take(list@.len() as int) =~= list@);
                assert(lists.take(i + 1).drop_last() =~= lists.take(i as int));
            }
            total_segments = total_segments.saturating_add(list.len());
            total_size = total_size.saturating_add(size);
            proof {
                let a = total_segment_size(lists.take(i as int));
                let b = size_of_segments(list@);
                assert(total_segment_size(lists.take(i + 1)) == a + b);
            }
            i = i + 1;
        }
        proof {
            assert(lists.take(lists.len() as int) =~= lists);
        }
        let ghost sizes = self.index_sizes();
        let mut total_messages: usize = 0;
        let mut k: usize = 0;
        while k < self.indices.len()
            invariant
                sizes == self.index_sizes(),
                sizes.len() == self.indices.values_seq().len(),
                k <= sizes.len(),
                total_messages == capped(entry_count(sizes.take(k as int))),
            decreases sizes.len() - k,
        {
            let n = self.indices.value_at(k).len();
            proof {
                assert(sizes.take(k + 1).drop_last() =~= sizes.take(k as int));
                assert(sizes[k as int] == n);
            }
            total_messages = total_messages.saturating_add(n);
            k = k + 1;
        }
        proof {
            assert(sizes.take(sizes.len() as int) =~= sizes);
        }
        StorageStats { total_segments, total_size, total_messages, data_dir: self.data_dir.clone() }
    }
}

/// Whether `s` begins with `prefix`.
pub fn has_prefix(s: &str, prefix: &str) -> (b: bool)
    ensures
        b == (prefix@.len() <= s@.len() && s@.take(prefix@.len() as int) == prefix@),
{
    let n = s.unicode_len();
    let m = prefix.unicode_len();
    if m > n {
        return false;
    }
    let mut i: usize = 0;
    while i < m
        invariant
            n == s@.len(),
            m == prefix@.len(),
            m <= n,
            i <= m,
            s@.take(i as int) == prefix@.take(i as int),
        decreases m - i,
    {
        if s.get_char(i) != prefix.get_char(i) {
            assert(s@.take(m as int)[i as int] != prefix@[i as int]);
            return false;
        }
        assert(s@.take(i + 1) =~= s@.take(i as int).push(s@[i as int]));
        assert(prefix@.take(i + 1) =~= prefix@.take(i as int).push(prefix@[i as int]));
        i = i + 1;
    }
    assert(prefix@.take(m as int) =~= prefix@);
    true
}

/// Whether `s` ends with `suffix`.
pub fn has_suffix(s: &str, suffix: &str) -> (b: bool)
    ensures
        b == (suffix@.len() <= s@.len() && s@.skip(s@.len() - suffix@.len()) == suffix@),
{
    let n = s.unicode_len();
    let m = suffix.unicode_len();
    if m > n {
        return false;
    }
    let base = n - m;
    let mut i: usize = 0;
    while i < m
        invariant
            n == s@.len(),
            m == suffix@.len(),
            base == n - m,
            i <= m,
            forall|j: int| 0 <= j < i ==> s@[base + j] == suffix@[j],
        decreases m - i,
    {
        if s.get_char(base + i) != suffix.get_char(i) {
            assert(s@.skip(base as int)[i as int] != suffix@[i as int]);
            return false;
        }
        i = i + 1;
    }
    assert(s@.skip(base as int) =~= suffix@);
    true
}

/// The partition a directory of a topic stands for: none unless its name
/// begins with "partition-"; then the number after that, or, where that is
/// no `i32`, the error that says why.
pub fn partition_dir_id(name: &str) -> (r: Option<Result<i32>>)
    ensures
        match r {
            None => !(10 <= name@.len() && name@.take(10) == "partition-"@),
            Some(res) => 10 <= name@.len() && name@.take(10) == "partition-"@ && match parse_integer(
                name@.skip(10),
                true,
                i32::MIN as int,
                i32::MAX as int,
            ) {
                Ok(v) => res matches Ok(id) && id == v,
                Err(k) => res matches Err(e) && is_storage_error(e, "Invalid partition ID: "@ + int_error_text(k)),
            },
        },
{
    proof {
        reveal_strlit("partition-");
    }
    if !has_prefix(name, "partition-") {
        return None;
    }
    let n = name.unicode_len();
    let rest = name.substring_char(10, n);
    assert(rest@ =~= name@.skip(10));
    match parse_i32(rest) {
        Ok(id) => Some(Ok(id)),
        Err(k) => {
            let text = k.message();
            Some(Err(Error::Storage(with_text("Invalid partition ID: ", text.as_str()))))
        },
    }
}

/// The base offset a file of a partition stands for: none unless its name
/// ends with ".log"; then the number before that, or, where that is no
/// `u64`, the error that says why.
pub fn segment_file_offset(name: &str) -> (r: Option<Result<u64>>)
    ensures
        match r {
            None => !(4 <= name@.len() && name@.skip(name@.len() - 4) == ".log"@),
            Some(res) => 4 <= name@.len() && name@.skip(name@.len() - 4) == ".log"@ && match parse_integer(
                name@.take(name@.len() - 4),
                false,
                0,
                u64::MAX as int,
            ) {
                Ok(v) => res matches Ok(o) && o == v,
                Err(k) => res matches Err(e) && is_storage_error(e, "Invalid segment file name: "@ + int_error_text(k)),
            },
        },
{
    proof {
        reveal_strlit(".log");
    }
    if !has_suffix(name, ".log") {
        return None;
    }
    let n = name.unicode_len();
    let stem = name.substring_char(0, n - 4);
    assert(stem@ =~= name@.take(name@.len() - 4));
    match parse_u64(stem) {
        Ok(o) => Some(Ok(o)),
        Err(k) => {
            let text = k.message();
            Some(Err(Error::Storage(with_text("Invalid segment file name: ", text.as_str()))))
        },
    }
}

/// The segments ordered by base offset.
pub open spec fn by_base_offset(s: Seq<Segment>) -> bool {
    forall|i: int, j: int| 0 <= i < j < s.len() ==> (#[trigger] s[i]).base_offset.0 <= (#[trigger] s[j]).base_offset.0
}

/// The segments of `s` that begin at `offset`, in their order in `s`.
pub open spec fn with_base(s: Seq<Segment>, offset: u64) -> Seq<Segment>
    decreases s.len(),
{
    if s.len() == 0 {
        s
    } else {
        let r = with_base(s.drop_last(), offset);
        if s.last().base_offset.0 == offset {
            r.push(s.last())
        } else {
            r
        }
    }
}

proof fn lemma_with_base_add(a: Seq<Segment>, b: Seq<Segment>, offset: u64)
    ensures
        with_base(a + b, offset) == with_base(a, offset) + with_base(b, offset),
    decreases b.len(),
{
    if b.len() == 0 {
        assert(a + b =~= a);
        assert(with_base(a, offset) + with_base(b, offset) =~= with_base(a, offset));
    } else {
        lemma_with_base_add(a, b.drop_last(), offset);
        assert((a + b).drop_last() =~= a + b.drop_last());
        assert((a + b).last() == b.last());
        if b.last().base_offset.0 == offset {
            assert(with_base(a, offset) + with_base(b, offset) =~= (with_base(a, offset) + with_base(b.drop_last(), offset)).push(b.last()));
        }
    }
}

proof fn lemma_with_base_none(s: Seq<Segment>, offset: u64)
    requires
        forall|i: int| 0 <= i < s.len() ==> (#[trigger] s[i]).base_offset.0 != offset,
    ensures
        with_base(s, offset) == Seq::<Segment>::empty(),
    decreases s.len(),
{
    if s.len() > 0 {
        lemma_with_base_none(s.drop_last(), offset);
        assert(s.last() == s[s.len() - 1]);
    }
}

/// The segments in order of base offset, those with the same base offset
/// keeping their order.
pub fn sort_segments(segments: Vec<Segment>) -> (r: Vec<Segment>)
    ensures
        by_base_offset(r@),
        forall|offset: u64| #[trigger] with_base(r@, offset) == with_base(segments@, offset),
        r@.len() == segments@.len(),
{
    let mut r: Vec<Segment> = Vec::new();
    let mut rest = segments;
    let ghost all = rest@;
    let mut i: usize = 0;
    let n = rest.len();
    assert(all.skip(0) =~= all);
    while i < n
        invariant
            n == all.len(),
            i <= n,
            rest@ == all.skip(i as int),
            by_base_offset(r@),
            r@.len() == i,
            forall|offset: u64| #[trigger] with_base(r@, offset) == with_base(all.take(i as int), offset),
        decreases n - i,
    {
        let x = rest.remove(0);
        assert(x == all[i as int]);
        assert(rest@ =~= all.skip(i + 1));
        let mut p: usize = 0;
        while p < r.len() && r[p].base_offset.0 <= x.base_offset.0
            invariant
                p <= r@.len(),
                forall|k: int| 0 <= k < p ==> (#[trigger] r@[k]).base_offset.0 <= x.base_offset.0,
            decreases r.len() - p,
        {
            p = p + 1;
        }
        let ghost before = r@;
        let ghost xg = x;
        r.insert(p, x);
        proof {
            let after = r@;
            assert(after =~= before.take(p as int) + seq![xg] + before.skip(p as int));
            assert forall|a: int, b: int| 0 <= a < b < after.len() implies (#[trigger] after[a]).base_offset.0
                <= (#[trigger] after[b]).base_offset.0 by {
                if b < p {
                    assert(after[a] == before[a] && after[b] == before[b]);
                } else if b == p {
                    assert(after[a] == before[a]);
                } else if a == p {
                    assert(after[b] == before[b - 1]);
                    assert(before[p as int].base_offset.0 > xg.base_offset.0);
                    if b - 1 > p {
                        assert(before[p as int].base_offset.0 <= before[b - 1].base_offset.0);
                    }
                } else if a < p {
                    assert(after[a] == before[a] && after[b] == before[b - 1]);
                } else {
                    assert(after[a] == before[a - 1] && after[b] == before[b - 1]);
                }
            }
            assert(all.take(i + 1) =~= all.take(i as int).push(xg));
            assert forall|offset: u64| #[trigger] with_base(after, offset) == with_base(all.take(i + 1), offset) by {
                let left = before.take(p as int);
                let right = before.skip(p as int);
                let one = seq![xg];
                assert(before =~= left + right);
                assert(after =~= (left + one) + right);
                lemma_with_base_add(left + one, right, offset);
                lemma_with_base_add(left, one, offset);
                lemma_with_base_add(left, right, offset);
                assert(one.drop_last() =~= Seq::<Segment>::empty());
                assert(one.last() == xg);
                assert(with_base(one.drop_last(), offset) =~= Seq::<Segment>::empty());
                let prev = all.take(i as int);
                assert(prev.push(xg).drop_last() =~= prev);
                assert(prev.push(xg).last() == xg);
                assert(with_base(all.take(i + 1), offset) == if xg.base_offset.0 == offset {
                    with_base(prev, offset).push(xg)
                } else {
                    with_base(prev, offset)
                });
                if offset == xg.base_offset.0 {
                    assert(with_base(one, offset) =~= seq![xg]);
                    assert forall|k: int| 0 <= k < right.len() implies (#[trigger] right[k]).base_offset.0 != offset by {
                        assert(right[k] == before[p + k]);
                        if k > 0 {
                            assert(before[p as int].base_offset.0 <= before[p + k].base_offset.0);
                        }
                    }
                    lemma_with_base_none(right, offset);
                    assert(with_base(before, offset) =~= with_base(left, offset));
                    assert(with_base(after, offset) =~= with_base(left, offset) + seq![xg]);
                    assert(with_base(after, offset) =~= with_base(before, offset).push(xg));
                } else {
                    assert(with_base(one, offset) =~= Seq::<Segment>::empty());
                    assert(with_base(after, offset) =~= with_base(before, offset));
                }
            }
        }
        i = i + 1;
    }
    proof {
        assert(all.take(n as int) =~= all);
    }
    r
}

/// The decimal text of `n`.
fn with_decimal_text(n: u64) -> (s: String)
    ensures
        s@ == decimal(n as nat),
{
    let mut s = String::new();
    push_decimal(&mut s, n);
    assert(s@ =~= decimal(n as nat));
    s
}

} // verus!
