//! Messages, offsets and the broker's configuration.

use vstd::prelude::*;
use std::collections::HashMap;
use std::time::Duration;
use bytes::Bytes;
use crate::broker::cluster::ClusterConfig;
use crate::broker::names::NameMap;
use crate::broker::time::{duration_from_millis, duration_from_secs, duration_nanos};
use crate::qiss::buffer::{bytes_as_slice, bytes_view};
use crate::qiss::checksum::{crc32, crc32_of};
use crate::qiss::types::Timestamp;

verus! {

/// Precursor broker configuration.
#[derive(Debug, Clone)]
pub struct BrokerConfig {
    /// Broker ID
    pub broker_id: String,
    /// Data directory
    pub data_dir: String,
    /// Maximum message size
    pub max_message_size: usize,
    /// Default retention period
    pub default_retention: Duration,
    /// Enable persistence
    pub enable_persistence: bool,
    /// Enable replication
    pub enable_replication: bool,
    /// Replication factor
    pub replication_factor: u32,
    /// Sync replication
    pub sync_replication: bool,
    /// Compression enabled
    pub enable_compression: bool,
    /// Compression level
    pub compression_level: u32,
    /// Flush interval
    pub flush_interval: Duration,
    /// Segment size
    pub segment_size: usize,
    /// Index interval
    pub index_interval: usize,
    /// Cleanup interval
    pub cleanup_interval: Duration,
    /// Cluster configuration
    pub cluster: ClusterConfig,
}

impl Default for BrokerConfig {
    fn default() -> (c: Self)
        ensures
            c.broker_id@ == "broker-1"@,
            c.data_dir@ == "./data"@,
            c.max_message_size == 10 * 1024 * 1024,
            duration_nanos(c.default_retention) == 7 * 24 * 3600 * 1_000_000_000,
            c.enable_persistence,
            !c.enable_replication,
            c.replication_factor == 1,
            !c.sync_replication,
            !c.enable_compression,
            c.compression_level == 6,
            duration_nanos(c.flush_interval) == 100 * 1_000_000,
            c.segment_size == 1024 * 1024,
            c.index_interval == 4096,
            duration_nanos(c.cleanup_interval) == 3600 * 1_000_000_000,
            c.cluster.is_default(),
    {
        BrokerConfig {
            broker_id: "broker-1".to_string(),
            data_dir: "./data".to_string(),
            max_message_size: 10 * 1024 * 1024,
            default_retention: duration_from_secs(7 * 24 * 3600),
            enable_persistence: true,
            enable_replication: false,
            replication_factor: 1,
            sync_replication: false,
            enable_compression: false,
            compression_level: 6,
            flush_interval: duration_from_millis(100),
            segment_size: 1024 * 1024,
            index_interval: 4096,
            cleanup_interval: duration_from_secs(3600),
            cluster: ClusterConfig::default(),
        }
    }
}

/// Compression type of a stored message.
#[derive(Debug, Clone, Copy, PartialEq, Eq, Structural)]
pub enum CompressionType {
    /// No compression
    Uncompressed,
    /// GZIP compression
    Gzip,
    /// LZ4 compression
    Lz4,
    /// Snappy compression
    Snappy,
}

/// Message headers: a map from names to values, each name once.
#[derive(Debug)]
pub struct Headers {
    names: NameMap<String>,
}

impl Headers {
    /// The headers as a map over the text of names and values.
    pub closed spec fn map(&self) -> Map<Seq<char>, Seq<char>> {
        self.names.map().map_values(|s: String| s@)
    }

    /// No name occurs twice.
    pub closed spec fn wf(&self) -> bool {
        self.names.wf()
    }

    /// The number of headers.
    pub closed spec fn spec_len(&self) -> nat {
        self.names.spec_len()
    }

    /// No headers.
    pub fn new() -> (h: Self)
        ensures
            h.wf(),
            h.map() == Map::<Seq<char>, Seq<char>>::empty(),
            h.spec_len() == 0,
    {
        let h = Headers { names: NameMap::new() };
        assert(h.map() =~= Map::<Seq<char>, Seq<char>>::empty());
        h
    }

    /// The value of the header `key`.
    pub fn get(&self, key: &str) -> (r: Option<&String>)
        requires
            self.wf(),
        ensures
            match r {
                Some(v) => self.map().contains_key(key@) && self.map()[key@] == v@,
                None => !self.map().contains_key(key@),
            },
    {
        self.names.get(key)
    }

    /// Set the header `key` to `value`, replacing any value it had.
    pub fn insert(&mut self, key: String, value: String)
        requires
            old(self).wf(),
        ensures
            final(self).wf(),
            final(self).map() == old(self).map().insert(key@, value@),
    {
        let ghost k = key@;
        let ghost v = value@;
        self.names.insert(key, value);
        assert(self.map() =~= old(self).map().insert(k, v));
    }

    /// The number of headers.
    pub fn len(&self) -> (n: usize)
        ensures
            n == self.spec_len(),
    {
        self.names.len()
    }

    /// The headers as name and value pairs, each name once.
    pub fn pairs(&self) -> (r: Vec<(String, String)>)
        requires
            self.wf(),
        ensures
            r@.len() == self.spec_len(),
            forall|i: int| 0 <= i < r@.len() ==> self.map().contains_key(#[trigger] r@[i].0@)
                && self.map()[r@[i].0@] == r@[i].1@,
            forall|i: int, j: int| 0 <= i < j < r@.len() ==> r@[i].0@ != r@[j].0@,
    {
        proof {
            self.names.lemma_seqs();
        }
        let mut r: Vec<(String, String)> = Vec::new();
        let mut i: usize = 0;
        while i < self.names.len()
            invariant
                self.wf(),
                self.names.keys_seq().len() == self.names.values_seq().len(),
                self.spec_len() == self.names.values_seq().len(),
                i <= self.names.values_seq().len(),
                r@.len() == i,
                forall|k: int| 0 <= k < self.names.keys_seq().len() ==> self.names.map().contains_key(
                    #[trigger] self.names.keys_seq()[k],
                ) && self.names.map()[self.names.keys_seq()[k]] == self.names.values_seq()[k],
                forall|a: int, b: int| 0 <= a < b < self.names.keys_seq().len() ==> self.names.keys_seq()[a]
                    != self.names.keys_seq()[b],
                forall|k: int| 0 <= k < i ==> (#[trigger] r@[k]).0@ == self.names.keys_seq()[k]
                    && r@[k].1@ == self.names.values_seq()[k]@,
            decreases self.names.values_seq().len() - i,
        {
            let k = self.names.key_at(i).clone();
            let v = self.names.value_at(i).clone();
            r.push((k, v));
            i = i + 1;
        }
        proof {
            assert forall|a: int| 0 <= a < r@.len() implies self.map().contains_key(#[trigger] r@[a].0@)
                && self.map()[r@[a].0@] == r@[a].1@ by {
                assert(self.names.map().contains_key(self.names.keys_seq()[a]));
            }
        }
        r
    }
}

impl Clone for Headers {
    fn clone(&self) -> (r: Self)
        ensures
            r.wf() == self.wf(),
            r.map() == self.map(),
            r.spec_len() == self.spec_len(),
    {
        Headers { names: self.names.duplicate_strings() }
    }
}

/// Message metadata.
#[derive(Debug)]
pub struct MessageMetadata {
    /// Message ID
    pub message_id: u64,
    /// Timestamp
    pub timestamp: Timestamp,
    /// Message size
    pub size: usize,
    /// Compression type
    pub compression: Option<CompressionType>,
    /// Checksum
    pub checksum: u32,
    /// Headers
    pub headers: Headers,
    /// Partition key
    pub partition_key: Option<String>,
}

/// Message.
#[derive(Debug)]
pub struct Message {
    /// Message metadata
    pub metadata: MessageMetadata,
    /// Message payload
    pub payload: Bytes,
}

/// What a message holds: its metadata, with headers and texts as maps
/// and character sequences, and the payload's bytes.
pub struct MessageView {
    /// Message ID
    pub message_id: u64,
    /// Timestamp
    pub timestamp: Timestamp,
    /// Message size
    pub size: usize,
    /// Compression type
    pub compression: Option<CompressionType>,
    /// Checksum
    pub checksum: u32,
    /// Headers
    pub headers: Map<Seq<char>, Seq<char>>,
    /// Partition key
    pub partition_key: Option<Seq<char>>,
    /// Payload bytes
    pub payload: Seq<u8>,
}

/// The text of an optional string.
pub open spec fn opt_text(s: Option<String>) -> Option<Seq<char>> {
    match s {
        Some(t) => Some(t@),
        None => None,
    }
}

/// A copy of an optional string.
pub fn clone_opt_string(s: &Option<String>) -> (r: Option<String>)
    ensures
        r == *s,
{
    match s {
        Some(t) => Some(t.clone()),
        None => None,
    }
}

impl View for Message {
    type V = MessageView;

    open spec fn view(&self) -> MessageView {
        MessageView {
            message_id: self.metadata.message_id,
            timestamp: self.metadata.timestamp,
            size: self.metadata.size,
            compression: self.metadata.compression,
            checksum: self.metadata.checksum,
            headers: self.metadata.headers.map(),
            partition_key: opt_text(self.metadata.partition_key),
            payload: bytes_view(self.payload),
        }
    }
}

impl Clone for MessageMetadata {
    fn clone(&self) -> (r: Self)
        ensures
            r.message_id == self.message_id,
            r.timestamp == self.timestamp,
            r.size == self.size,
            r.compression == self.compression,
            r.checksum == self.checksum,
            r.headers.map() == self.headers.map(),
            r.headers.wf() == self.headers.wf(),
            r.partition_key == self.partition_key,
    {
        MessageMetadata {
            message_id: self.message_id,
            timestamp: self.timestamp,
            size: self.size,
            compression: self.compression,
            checksum: self.checksum,
            headers: self.headers.clone(),
            partition_key: clone_opt_string(&self.partition_key),
        }
    }
}

impl Clone for Message {
    fn clone(&self) -> (r: Self)
        ensures
            r@ == self@,
            r.wf() == self.wf(),
    {
        Message { metadata: self.metadata.clone(), payload: self.payload.clone() }
    }
}

impl Message {
    /// A message's metadata describes its payload: the size and the CRC-32
    /// of the payload bytes, and headers with no repeated name.
    pub open spec fn wf(&self) -> bool {
        &&& self.metadata.size == bytes_view(self.payload).len()
        &&& self.metadata.checksum == crc32_of(bytes_view(self.payload))
        &&& self.metadata.headers.wf()
    }

    /// Create a message stamped with `timestamp`; the broker sets the ID.
    pub fn with_timestamp(payload: Bytes, headers: Headers, timestamp: Timestamp) -> (m: Self)
        requires
            headers.wf(),
        ensures
            m.wf(),
            m.payload == payload,
            m.metadata.message_id == 0,
            m.metadata.timestamp == timestamp,
            m.metadata.compression is None,
            m.metadata.headers == headers,
            m.metadata.partition_key is None,
    {
        let data = bytes_as_slice(&payload);
        let size = data.len();
        let checksum = crc32(data);
        Message {
            metadata: MessageMetadata {
                message_id: 0,
                timestamp,
                size,
                compression: None,
                checksum,
                headers,
                partition_key: None,
            },
            payload,
        }
    }

    /// Create a new message stamped with the current time.
    pub fn new(payload: Bytes, headers: Headers) -> (m: Self)
        requires
            headers.wf(),
        ensures
            m.wf(),
            m.payload == payload,
            m.metadata.message_id == 0,
            m.metadata.compression is None,
            m.metadata.headers == headers,
            m.metadata.partition_key is None,
    {
        Self::with_timestamp(payload, headers, Timestamp::now())
    }

    /// Create a message with a partition key.
    pub fn with_partition_key(payload: Bytes, headers: Headers, partition_key: String) -> (m: Self)
        requires
            headers.wf(),
        ensures
            m.wf(),
            m.payload == payload,
            m.metadata.message_id == 0,
            m.metadata.compression is None,
            m.metadata.headers == headers,
            m.metadata.partition_key == Some(partition_key),
    {
        let mut message = Self::new(payload, headers);
        message.metadata.partition_key = Some(partition_key);
        message
    }

    /// The message size.
    pub fn size(&self) -> (n: usize)
        ensures
            n == self.metadata.size,
    {
        self.metadata.size
    }

    /// The message timestamp.
    pub fn timestamp(&self) -> (t: Timestamp)
        ensures
            t == self.metadata.timestamp,
    {
        self.metadata.timestamp
    }

    /// The message ID.
    pub fn message_id(&self) -> (id: u64)
        ensures
            id == self.metadata.message_id,
    {
        self.metadata.message_id
    }

    /// The partition key.
    pub fn partition_key(&self) -> (k: Option<&String>)
        ensures
            k == match self.metadata.partition_key {
                Some(s) => Some(&s),
                None => None,
            },
    {
        match &self.metadata.partition_key {
            Some(s) => Some(s),
            None => None,
        }
    }

    /// The value of header `key`.
    pub fn get_header(&self, key: &str) -> (r: Option<&String>)
        requires
            self.metadata.headers.wf(),
        ensures
            match r {
                Some(v) => self.metadata.headers.map().contains_key(key@)
                    && self.metadata.headers.map()[key@] == v@,
                None => !self.metadata.headers.map().contains_key(key@),
            },
    {
        self.metadata.headers.get(key)
    }

    /// Set header `key` to `value`.
    pub fn set_header(&mut self, key: String, value: String)
        requires
            old(self).metadata.headers.wf(),
        ensures
            final(self).metadata.headers.wf(),
            final(self).metadata.headers.map() == old(self).metadata.headers.map().insert(
                key@,
                value@,
            ),
            final(self).payload == old(self).payload,
            final(self).metadata.size == old(self).metadata.size,
            final(self).metadata.checksum == old(self).metadata.checksum,
            final(self).metadata.message_id == old(self).metadata.message_id,
            final(self).metadata.timestamp == old(self).metadata.timestamp,
            final(self).metadata.partition_key == old(self).metadata.partition_key,
            final(self).metadata.compression == old(self).metadata.compression,
    {
        self.metadata.headers.insert(key, value);
    }
}

/// Message offset.
#[derive(Debug, Clone, Copy, PartialEq, Eq, PartialOrd, Ord, Hash, Structural)]
pub struct Offset(pub u64);

impl Offset {
    /// Create a new offset.
    pub fn new(value: u64) -> (o: Self)
        ensures
            o.0 == value,
    {
        Offset(value)
    }

    /// The offset value.
    pub fn value(self) -> (v: u64)
        ensures
            v == self.0,
    {
        self.0
    }

    /// The next offset.
    pub fn increment(self) -> (o: Self)
        requires
            self.0 < u64::MAX,
        ensures
            o.0 == self.0 + 1,
    {
        Offset(self.0 + 1)
    }

    /// The previous offset, staying at zero.
    pub fn decrement(self) -> (o: Self)
        ensures
            o.0 == if self.0 == 0 {
                0
            } else {
                self.0 - 1
            },
    {
        Offset(if self.0 == 0 {
            0
        } else {
            self.0 - 1
        })
    }
}

/// Incrementing then decrementing an offset gives it back.
pub proof fn lemma_offset_increment_decrement(o: u64)
    requires
        o < u64::MAX,
    ensures
        ({
            let up = (o + 1) as u64;
            (if up == 0 { 0 } else { up - 1 }) == o
        }),
{
}

/// Consumer group member.
#[derive(Debug, Clone)]
pub struct ConsumerMember {
    /// Member ID
    pub member_id: String,
    /// Client ID
    pub client_id: String,
    /// Client host
    pub client_host: String,
    /// Session timeout
    pub session_timeout: Duration,
    /// Rebalance timeout
    pub rebalance_timeout: Duration,
    /// Subscription
    pub subscription: Vec<String>,
    /// Assignment
    pub assignment: HashMap<String, Vec<i32>>,
    /// Last heartbeat
    pub last_heartbeat: Timestamp,
}

/// Consumer group state.
#[derive(Debug, Clone, Copy, PartialEq, Eq, Structural)]
pub enum ConsumerGroupState {
    /// Empty group
    Empty,
    /// Preparing rebalance
    PreparingRebalance,
    /// Completing rebalance
    CompletingRebalance,
    /// Stable
    Stable,
    /// Dead
    Dead,
}

/// Consumer group.
#[derive(Debug, Clone)]
pub struct ConsumerGroup {
    /// Group ID
    pub group_id: String,
    /// Group members
    pub members: HashMap<String, ConsumerMember>,
    /// Group coordinator
    pub coordinator: Option<String>,
    /// Group state
    pub state: ConsumerGroupState,
    /// Protocol type
    pub protocol_type: String,
    /// Generation ID
    pub generation_id: u32,
    /// Leader ID
    pub leader_id: Option<String>,
    /// Protocol metadata
    pub protocol_metadata: Bytes,
}

/// Broker statistics.
#[derive(Debug)]
pub struct BrokerStats {
    /// Total messages produced
    pub total_messages_produced: u64,
    /// Total messages consumed
    pub total_messages_consumed: u64,
    /// Total bytes produced
    pub total_bytes_produced: u64,
    /// Total bytes consumed
    pub total_bytes_consumed: u64,
    /// Active producers
    pub active_producers: usize,
    /// Active consumers
    pub active_consumers: usize,
    /// Active queues
    pub active_queues: usize,
    /// Active topics
    pub active_topics: usize,
    /// Consumer groups
    pub consumer_groups: usize,
    /// Uptime
    pub uptime: Duration,
}

impl Default for BrokerStats {
    fn default() -> (s: Self)
        ensures
            s.total_messages_produced == 0,
            s.total_messages_consumed == 0,
            s.total_bytes_produced == 0,
            s.total_bytes_consumed == 0,
            s.active_producers == 0,
            s.active_consumers == 0,
            s.active_queues == 0,
            s.active_topics == 0,
            s.consumer_groups == 0,
            duration_nanos(s.uptime) == 0,
    {
        BrokerStats {
            total_messages_produced: 0,
            total_messages_consumed: 0,
            total_bytes_produced: 0,
            total_bytes_consumed: 0,
            active_producers: 0,
            active_consumers: 0,
            active_queues: 0,
            active_topics: 0,
            consumer_groups: 0,
            uptime: duration_from_secs(0),
        }
    }
}

} // verus!
