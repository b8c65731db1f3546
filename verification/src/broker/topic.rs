//! Topics: messages kept in partitions, each with its own offsets, read by
//! consumer groups that track their position per consumer.
//!
//! Persisting a partition is the storage engine's; a topic here holds what
//! its partitions hold in memory.

use vstd::prelude::*;
use std::time::Duration;
use crate::broker::error::{Error, Result};
use crate::broker::hashing::{default_hash_str, hash_str};
use crate::broker::message::{Message, MessageView, Offset};
use crate::broker::names::NameMap;
use crate::broker::queue::{average_with, earlier_of, earliest, later_of, latest, next_average};
use crate::broker::text::{push_signed_decimal, signed_decimal};
use crate::broker::time::{age, duration_as_nanos, duration_from_secs, duration_nanos};
use crate::qiss::types::Timestamp;

verus! {

/// Topic configuration.
#[derive(Debug)]
pub struct TopicConfig {
    /// Topic name
    pub name: String,
    /// Number of partitions
    pub partition_count: u32,
    /// Message retention period
    pub retention: Duration,
    /// Enable persistence
    pub enable_persistence: bool,
    /// Enable compression
    pub enable_compression: bool,
    /// Compression level
    pub compression_level: u32,
    /// Segment size
    pub segment_size: usize,
    /// Index interval
    pub index_interval: usize,
    /// Cleanup policy
    pub cleanup_policy: CleanupPolicy,
    /// Replication factor
    pub replication_factor: u32,
}

/// `c` is the default topic configuration: topic `default`, one partition,
/// kept a week, persisted, uncompressed (level 6), 1 MiB segments indexed
/// every 4096 bytes, deleted when old, one replica.
pub open spec fn is_default_topic_config(c: TopicConfig) -> bool {
    &&& c.name@ == "default"@
    &&& c.partition_count == 1
    &&& duration_nanos(c.retention) == 7 * 24 * 3600 * 1_000_000_000
    &&& c.enable_persistence
    &&& !c.enable_compression
    &&& c.compression_level == 6
    &&& c.segment_size == 1024 * 1024
    &&& c.index_interval == 4096
    &&& c.cleanup_policy == CleanupPolicy::Delete
    &&& c.replication_factor == 1
}

impl Default for TopicConfig {
    fn default() -> (c: Self)
        ensures
            is_default_topic_config(c),
    {
        TopicConfig {
            name: "default".to_string(),
            partition_count: 1,
            retention: duration_from_secs(7 * 24 * 3600),
            enable_persistence: true,
            enable_compression: false,
            compression_level: 6,
            segment_size: 1024 * 1024,
            index_interval: 4096,
            cleanup_policy: CleanupPolicy::Delete,
            replication_factor: 1,
        }
    }
}

/// Cleanup policy.
#[derive(Debug, Clone, Copy, PartialEq, Eq, Structural)]
pub enum CleanupPolicy {
    /// Delete old messages
    Delete,
    /// Compact messages (keep latest for each key)
    Compact,
}

/// Partition statistics.
#[derive(Debug)]
pub struct PartitionStats {
    /// Total messages produced
    pub total_produced: u64,
    /// Total messages consumed
    pub total_consumed: u64,
    /// Current partition size
    pub current_size: usize,
    /// Average message size
    pub avg_message_size: u64,
    /// Oldest message timestamp
    pub oldest_message: Option<Timestamp>,
    /// Newest message timestamp
    pub newest_message: Option<Timestamp>,
}

impl Default for PartitionStats {
    fn default() -> (s: Self)
        ensures
            s == zero_partition_stats(),
    {
        PartitionStats {
            total_produced: 0,
            total_consumed: 0,
            current_size: 0,
            avg_message_size: 0,
            oldest_message: None,
            newest_message: None,
        }
    }
}

/// Partition statistics with every count zero and no timestamps.
pub open spec fn zero_partition_stats() -> PartitionStats {
    PartitionStats {
        total_produced: 0,
        total_consumed: 0,
        current_size: 0,
        avg_message_size: 0,
        oldest_message: None,
        newest_message: None,
    }
}

/// Statistics after a message of `size` bytes stamped `t` was produced.
pub open spec fn partition_produce_stats(s: PartitionStats, size: nat, t: Timestamp) -> PartitionStats {
    PartitionStats {
        total_produced: (s.total_produced + 1) as u64,
        avg_message_size: next_average(s.avg_message_size, (s.total_produced + 1) as nat, size) as u64,
        oldest_message: earliest(s.oldest_message, t),
        newest_message: latest(s.newest_message, t),
        ..s
    }
}

/// Topic statistics.
#[derive(Debug)]
pub struct TopicStats {
    /// Total messages produced
    pub total_produced: u64,
    /// Total messages consumed
    pub total_consumed: u64,
    /// Total partitions
    pub partition_count: u32,
    /// Average message size
    pub avg_message_size: u64,
}

impl Default for TopicStats {
    fn default() -> (s: Self)
        ensures
            s.total_produced == 0,
            s.total_consumed == 0,
            s.partition_count == 0,
            s.avg_message_size == 0,
    {
        TopicStats { total_produced: 0, total_consumed: 0, partition_count: 0, avg_message_size: 0 }
    }
}

/// The offset recorded for consumer `c` of group `g`, zero (the beginning)
/// where none is.
pub open spec fn offset_in(m: Map<Seq<char>, NameMap<Offset>>, g: Seq<char>, c: Seq<char>) -> u64 {
    if m.contains_key(g) && m[g].map().contains_key(c) {
        m[g].map()[c].0
    } else {
        0
    }
}

/// `i` is the first message whose offset is at least `offset`.
pub open spec fn is_first_from(messages: Seq<MessageView>, offset: u64, i: int) -> bool {
    &&& 0 <= i < messages.len()
    &&& messages[i].message_id >= offset
    &&& forall|j: int| 0 <= j < i ==> (#[trigger] messages[j]).message_id < offset
}

/// The messages kept by a cleanup at `now`: those no older than `retention`.
pub open spec fn unexpired_messages(messages: Seq<MessageView>, now: Timestamp, retention: u128) -> Seq<MessageView> {
    messages.filter(|m: MessageView| age(now, m.timestamp) <= retention)
}

/// The error of a partition the topic does not have.
pub fn partition_not_found(partition_id: i32) -> (e: Error)
    ensures
        e matches Error::PartitionNotFound(s) && s@ == "Partition "@ + signed_decimal(
            partition_id as int,
        ) + " not found"@,
{
    let mut s = "Partition ".to_string();
    push_signed_decimal(&mut s, partition_id as i64);
    s.append(" not found");
    Error::PartitionNotFound(s)
}

/// Topic partition.
pub struct Partition {
    partition_id: i32,
    topic_name: String,
    messages: Vec<Message>,
    next_offset: Offset,
    consumer_group_offsets: NameMap<NameMap<Offset>>,
    stats: PartitionStats,
}

impl Partition {
    /// The partition's ID.
    pub closed spec fn id(&self) -> i32 {
        self.partition_id
    }

    /// The name of the partition's topic.
    pub closed spec fn spec_topic(&self) -> Seq<char> {
        self.topic_name@
    }

    /// The messages held, in order of production.
    pub closed spec fn messages(&self) -> Seq<MessageView> {
        self.messages@.map_values(|m: Message| m@)
    }

    /// The offset the next message will get.
    pub closed spec fn next(&self) -> u64 {
        self.next_offset.0
    }

    /// The offset recorded for consumer `c` of group `g` (zero if none).
    pub closed spec fn group_offset(&self, g: Seq<char>, c: Seq<char>) -> u64 {
        offset_in(self.consumer_group_offsets.map(), g, c)
    }

    /// The statistics kept so far.
    pub closed spec fn spec_stats(&self) -> PartitionStats {
        self.stats
    }

    /// The partition's invariant: the offset maps have no repeated names and
    /// every message's offset lies below the next one.
    pub closed spec fn wf(&self) -> bool {
        &&& self.consumer_group_offsets.wf()
        &&& forall|g: Seq<char>| #[trigger]
            self.consumer_group_offsets.map().contains_key(g)
                ==> self.consumer_group_offsets.map()[g].wf()
        &&& forall|i: int| 0 <= i < self.messages@.len() ==> (#[trigger] self.messages@[i]).metadata.message_id < self.next_offset.0
    }

    /// Everything but the messages, the next offset and the statistics
    /// is as before.
    pub open spec fn same_offsets(&self, other: &Partition) -> bool {
        &&& self.id() == other.id()
        &&& self.spec_topic() == other.spec_topic()
        &&& forall|g: Seq<char>, c: Seq<char>| #[trigger] self.group_offset(g, c) == other.group_offset(g, c)
    }

    /// `after` is this partition after producing `message` at `offset`.
    pub open spec fn produced(&self, after: &Partition, message: MessageView, offset: Offset) -> bool {
        &&& after.wf()
        &&& self.same_offsets(after)
        &&& offset.0 == self.next()
        &&& after.next() == self.next() + 1
        &&& after.messages() == self.messages().push(MessageView { message_id: offset.0, ..message })
        &&& after.spec_stats() == partition_produce_stats(self.spec_stats(), message.size as nat, message.timestamp)
    }

    /// `after` is this partition after consumer `c` of group `g` consumed,
    /// and `r` what it got: the first message at or past its offset, after
    /// which its offset moves; nothing if there is none.
    pub open spec fn consumed(&self, after: &Partition, g: Seq<char>, c: Seq<char>, r: Option<MessageView>) -> bool {
        &&& after.wf()
        &&& after.id() == self.id()
        &&& after.spec_topic() == self.spec_topic()
        &&& after.messages() == self.messages()
        &&& after.next() == self.next()
        &&& match r {
            Some(m) => {
                &&& exists|i: int| is_first_from(self.messages(), self.group_offset(g, c), i) && self.messages()[i] == m
                &&& after.group_offset(g, c) == m.message_id + 1
                &&& forall|g2: Seq<char>, c2: Seq<char>| (g2, c2) != (g, c) ==> #[trigger] after.group_offset(g2, c2) == self.group_offset(g2, c2)
                &&& after.spec_stats() == PartitionStats { total_consumed: (self.spec_stats().total_consumed + 1) as u64, ..self.spec_stats() }
            },
            None => {
                &&& forall|i: int| 0 <= i < self.messages().len() ==> (#[trigger] self.messages()[i]).message_id < self.group_offset(g, c)
                &&& forall|g2: Seq<char>, c2: Seq<char>| #[trigger] after.group_offset(g2, c2) == self.group_offset(g2, c2)
                &&& after.spec_stats() == self.spec_stats()
            },
        }
    }

    /// An empty partition of a topic, starting at offset zero.
    pub fn new(partition_id: i32, topic_name: String) -> (p: Self)
        ensures
            p.wf(),
            p.id() == partition_id,
            p.spec_topic() == topic_name@,
            p.messages().len() == 0,
            p.next() == 0,
            forall|g: Seq<char>, c: Seq<char>| #[trigger] p.group_offset(g, c) == 0,
            p.spec_stats() == zero_partition_stats(),
    {
        let p = Partition {
            partition_id,
            topic_name,
            messages: Vec::new(),
            next_offset: Offset::new(0),
            consumer_group_offsets: NameMap::new(),
            stats: PartitionStats::default(),
        };
        assert(p.messages() =~= Seq::<MessageView>::empty());
        p
    }

    /// Initialize the partition. Nothing is loaded: the partition starts
    /// from what it holds.
    pub fn initialize(&self) -> (r: Result<()>)
        ensures
            r is Ok,
    {
        Ok(())
    }

    /// Delete the partition's messages and offsets. (Its persisted data is
    /// the storage engine's to delete.)
    pub fn delete(&mut self) -> (r: Result<()>)
        requires
            old(self).wf(),
        ensures
            final(self).wf(),
            r is Ok,
            final(self).messages().len() == 0,
            forall|g: Seq<char>, c: Seq<char>| #[trigger] final(self).group_offset(g, c) == 0,
            final(self).id() == old(self).id(),
            final(self).next() == old(self).next(),
            final(self).spec_stats() == old(self).spec_stats(),
    {
        self.messages = Vec::new();
        self.consumer_group_offsets = NameMap::new();
        assert(self.messages() =~= Seq::<MessageView>::empty());
        Ok(())
    }

    /// The partition ID.
    pub fn partition_id(&self) -> (id: i32)
        ensures
            id == self.id(),
    {
        self.partition_id
    }

    /// Produce a message: it gets the next offset as its ID and joins the
    /// partition; the offset is returned.
    pub fn produce(&mut self, message: Message) -> (r: Result<Offset>)
        requires
            old(self).wf(),
            old(self).next() < u64::MAX,
            old(self).spec_stats().total_produced < u64::MAX,
        ensures
            r matches Ok(o) && old(self).produced(final(self), message@, o),
    {
        let offset = self.next_offset;
        self.next_offset = self.next_offset.increment();
        let mut message = message;
        message.metadata.message_id = offset.value();
        let size = message.size();
        let t = message.metadata.timestamp;
        let ghost mv = message@;
        let ghost old_msgs = self.messages@;
        self.messages.push(message);
        assert(self.messages() =~= old(self).messages().push(mv));
        assert forall|i: int| 0 <= i < self.messages@.len() implies (#[trigger] self.messages@[i]).metadata.message_id < self.next_offset.0 by {
            if i < old_msgs.len() {
                assert(self.messages@[i] == old_msgs[i]);
            }
        }
        self.update_produce_stats(size, t);
        Ok(offset)
    }

    fn update_produce_stats(&mut self, size: usize, t: Timestamp)
        requires
            old(self).spec_stats().total_produced < u64::MAX,
        ensures
            final(self).spec_stats() == partition_produce_stats(old(self).spec_stats(), size as nat, t),
            final(self).messages@ == old(self).messages@,
            final(self).next_offset == old(self).next_offset,
            final(self).consumer_group_offsets == old(self).consumer_group_offsets,
            final(self).partition_id == old(self).partition_id,
            final(self).topic_name == old(self).topic_name,
    {
        let count = self.stats.total_produced + 1;
        self.stats.total_produced = count;
        self.stats.avg_message_size = average_with(self.stats.avg_message_size, count, size);
        self.stats.oldest_message = earlier_of(self.stats.oldest_message, t);
        self.stats.newest_message = later_of(self.stats.newest_message, t);
    }

    /// The offset recorded for a consumer of a group; zero (the beginning)
    /// if none is.
    pub fn get_consumer_group_offset(&self, consumer_group: &str, consumer_id: &str) -> (o: Offset)
        requires
            self.wf(),
        ensures
            o.0 == self.group_offset(consumer_group@, consumer_id@),
    {
        match self.consumer_group_offsets.get(consumer_group) {
            Some(group) => match group.get(consumer_id) {
                Some(o) => *o,
                None => Offset::new(0),
            },
            None => Offset::new(0),
        }
    }

    /// Record the offset of a consumer of a group.
    pub fn set_consumer_group_offset(&mut self, consumer_group: &str, consumer_id: &str, offset: Offset) -> (r: Result<()>)
        requires
            old(self).wf(),
        ensures
            final(self).wf(),
            r is Ok,
            final(self).group_offset(consumer_group@, consumer_id@) == offset.0,
            forall|g: Seq<char>, c: Seq<char>| (g, c) != (consumer_group@, consumer_id@) ==> #[trigger] final(self).group_offset(g, c) == old(self).group_offset(g, c),
            final(self).id() == old(self).id(),
            final(self).spec_topic() == old(self).spec_topic(),
            final(self).messages() == old(self).messages(),
            final(self).next() == old(self).next(),
            final(self).spec_stats() == old(self).spec_stats(),
    {
        self.set_offset(consumer_group, consumer_id, offset);
        Ok(())
    }

    fn set_offset(&mut self, consumer_group: &str, consumer_id: &str, offset: Offset)
        requires
            old(self).wf(),
        ensures
            final(self).wf(),
            final(self).group_offset(consumer_group@, consumer_id@) == offset.0,
            forall|g: Seq<char>, c: Seq<char>| (g, c) != (consumer_group@, consumer_id@) ==> #[trigger] final(self).group_offset(g, c) == old(self).group_offset(g, c),
            final(self).messages@ == old(self).messages@,
            final(self).next_offset == old(self).next_offset,
            final(self).stats == old(self).stats,
            final(self).partition_id == old(self).partition_id,
            final(self).topic_name == old(self).topic_name,
    {
        let mut group = match self.consumer_group_offsets.get(consumer_group) {
            Some(g) => g.duplicate(),
            None => NameMap::new(),
        };
        group.insert(consumer_id.to_string(), offset);
        self.consumer_group_offsets.insert(consumer_group.to_string(), group);
        assert forall|g: Seq<char>, c: Seq<char>| (g, c) != (consumer_group@, consumer_id@) implies #[trigger] self.group_offset(g, c) == old(self).group_offset(g, c) by {
            if g == consumer_group@ {
                assert(c != consumer_id@);
            }
        }
    }

    /// Consume for a consumer of a group: the first message at or past its
    /// offset, after which its offset moves; nothing if there is none.
    pub fn consume(&mut self, consumer_group: &str, consumer_id: &str) -> (r: Result<Option<Message>>)
        requires
            old(self).wf(),
            old(self).spec_stats().total_consumed < u64::MAX,
        ensures
            r matches Ok(m) && old(self).consumed(final(self), consumer_group@, consumer_id@, match m {
                Some(m) => Some(m@),
                None => None,
            }),
    {
        let offset = self.get_consumer_group_offset(consumer_group, consumer_id);
        let mut i: usize = 0;
        while i < self.messages.len()
            invariant
                self.wf(),
                *self == *old(self),
                self.stats.total_consumed < u64::MAX,
                i <= self.messages@.len(),
                offset.0 == self.group_offset(consumer_group@, consumer_id@),
                forall|j: int| 0 <= j < i ==> (#[trigger] self.messages@[j]).metadata.message_id < offset.0,
            decreases self.messages.len() - i,
        {
            let id = self.messages[i].metadata.message_id;
            if id >= offset.0 {
                let m = self.messages[i].clone();
                let ghost mv = self.messages@[i as int]@;
                proof {
                    assert(is_first_from(self.messages(), offset.0, i as int));
                    assert(self.messages()[i as int] == mv);
                }
                let next = Offset::new(id).increment();
                self.set_offset(consumer_group, consumer_id, next);
                let ghost snap = *self;
                self.stats.total_consumed = self.stats.total_consumed + 1;
                assert forall|g2: Seq<char>, c2: Seq<char>| (g2, c2) != (consumer_group@, consumer_id@) implies #[trigger] self.group_offset(g2, c2) == old(self).group_offset(g2, c2) by {
                    assert(snap.group_offset(g2, c2) == old(self).group_offset(g2, c2));
                }
                proof {
                    assert(self.messages() == old(self).messages());
                    assert(old(self).messages()[i as int] == m@);
                    assert(is_first_from(old(self).messages(), old(self).group_offset(consumer_group@, consumer_id@), i as int));
                }
                return Ok(Some(m));
            }
            i = i + 1;
        }
        proof {
            assert forall|j: int| 0 <= j < self.messages().len() implies (#[trigger] self.messages()[j]).message_id < self.group_offset(consumer_group@, consumer_id@) by {
                assert(self.messages@[j].metadata.message_id < offset.0);
            }
        }
        Ok(None)
    }

    /// The statistics, with the number of messages held.
    pub fn get_stats(&self) -> (s: PartitionStats)
        ensures
            s == (PartitionStats { current_size: self.messages().len() as usize, ..self.spec_stats() }),
    {
        PartitionStats {
            total_produced: self.stats.total_produced,
            total_consumed: self.stats.total_consumed,
            current_size: self.messages.len(),
            avg_message_size: self.stats.avg_message_size,
            oldest_message: self.stats.oldest_message,
            newest_message: self.stats.newest_message,
        }
    }

    /// Remove the messages older than `retention` at `now`.
    pub fn cleanup_expired_messages_at(&mut self, retention: &Duration, now: Timestamp) -> (r: Result<()>)
        requires
            old(self).wf(),
        ensures
            final(self).wf(),
            r is Ok,
            final(self).messages() == unexpired_messages(old(self).messages(), now, duration_nanos(*retention)),
            final(self).same_offsets(old(self)),
            final(self).next() == old(self).next(),
            final(self).spec_stats() == old(self).spec_stats(),
    {
        let limit = duration_as_nanos(retention);
        let ghost pred = |m: MessageView| age(now, m.timestamp) <= limit;
        let mut old_list: Vec<Message> = Vec::new();
        std::mem::swap(&mut old_list, &mut self.messages);
        let ghost all = old_list@;
        let ghost views = old(self).messages();
        let n = old_list.len();
        let mut kept: Vec<Message> = Vec::new();
        let mut i: usize = 0;
        assert(all.skip(0) =~= all);
        while i < n
            invariant
                all == old(self).messages@,
                views == old(self).messages(),
                pred == (|m: MessageView| age(now, m.timestamp) <= limit),
                n == all.len(),
                i <= n,
                old_list@ == all.skip(i as int),
                kept@.map_values(|m: Message| m@) == views.take(i as int).filter(pred),
                forall|j: int| 0 <= j < kept@.len() ==> (#[trigger] kept@[j]).metadata.message_id < self.next_offset.0,
                forall|j: int| 0 <= j < all.len() ==> (#[trigger] all[j]).metadata.message_id < self.next_offset.0,
                self.next_offset == old(self).next_offset,
            decreases n - i,
        {
            let m = old_list.remove(0);
            proof {
                assert(m == all[i as int]);
                assert(old_list@ =~= all.skip(i + 1));
                assert(views.take(i + 1) =~= views.take(i as int).push(m@));
                views.take(i as int).lemma_filter_push(m@, pred);
            }
            let ghost before = kept@;
            let t = m.metadata.timestamp;
            let young = if now.0 >= t.0 {
                ((now.0 - t.0) as u128) <= limit
            } else {
                true
            };
            if young {
                kept.push(m);
                assert(kept@.map_values(|m: Message| m@) =~= before.map_values(|m: Message| m@).push(m@));
            }
            i = i + 1;
        }
        assert(views.take(n as int) =~= views);
        self.messages = kept;
        Ok(())
    }

    /// Remove the messages older than `retention` now.
    pub fn cleanup_expired_messages(&mut self, retention: &Duration) -> (r: Result<()>)
        requires
            old(self).wf(),
        ensures
            final(self).wf(),
            r is Ok,
            final(self).messages().len() <= old(self).messages().len(),
            final(self).same_offsets(old(self)),
            final(self).next() == old(self).next(),
            final(self).spec_stats() == old(self).spec_stats(),
            exists|now: Timestamp| final(self).messages() == #[trigger] unexpired_messages(old(self).messages(), now, duration_nanos(*retention)),
    {
        let now = Timestamp::now();
        let r = self.cleanup_expired_messages_at(retention, now);
        proof {
            let limit = duration_nanos(*retention);
            old(self).messages().lemma_filter_len(|m: MessageView| age(now, m.timestamp) <= limit);
        }
        r
    }
}

/// The partition a message goes to: by the hash of its partition key when
/// it has one, taken modulo the number of partitions; else the partition
/// whose turn it is in the round robin, `rotation` modulo that number.
pub open spec fn partition_for(key: Option<Seq<char>>, rotation: u32, count: u32) -> i32 {
    match key {
        Some(k) => (default_hash_str(k) % (count as u64)) as i32,
        None => (rotation % count) as i32,
    }
}

/// The round robin's position after a message with `key` was produced: a
/// keyed message leaves it; a keyless one moves it on to the next
/// partition, back to the first after the last.
pub open spec fn rotated(key: Option<Seq<char>>, rotation: u32, count: u32) -> u32 {
    match key {
        Some(_) => rotation,
        None => (((rotation % count) + 1) % (count as int)) as u32,
    }
}

/// Keyed routing depends on the key alone: a message with a partition key
/// goes to the same partition whatever the round robin's position, so two
/// messages with one key go to one partition, whatever was produced between
/// them; and it leaves the round robin where it was. The partition is one
/// of the topic's.
pub proof fn lemma_keyed_routing(k: Seq<char>, r1: u32, r2: u32, count: u32)
    requires
        0 < count <= i32::MAX,
    ensures
        partition_for(Some(k), r1, count) == partition_for(Some(k), r2, count),
        0 <= partition_for(Some(k), r1, count) < count,
        rotated(Some(k), r1, count) == r1,
{
    assert(default_hash_str(k) % (count as u64) < count);
}

/// Messages without a key go round the partitions: each goes to the
/// partition after the one before it, the first after the last.
pub proof fn lemma_keyless_round_robin(r: u32, count: u32)
    requires
        0 < count <= i32::MAX,
    ensures
        0 <= partition_for(None, r, count) < count,
        partition_for(None, rotated(None, r, count), count) as int == (partition_for(None, r, count) + 1) % (count as int),
{
    let p = r % count;
    let next = ((p + 1) % (count as int)) as u32;
    assert(next < count);
    vstd::arithmetic::div_mod::lemma_small_mod(next as nat, count as nat);
    assert(next % count == next);
}

/// The partition a hash (or a position) picks among `count` partitions: the
/// remainder of the division, taken as a 32-bit signed integer.
pub fn partition_of(hash: u64, count: u32) -> (p: i32)
    requires
        count > 0,
    ensures
        p == (hash % (count as u64)) as i32,
{
    (hash % (count as u64)) as i32
}

/// The number of partitions a topic configured with `count` creates: the
/// IDs run from 0 up to `count` taken as a 32-bit signed integer.
pub open spec fn created_partitions(count: u32) -> nat {
    if count <= i32::MAX {
        count as nat
    } else {
        0
    }
}

/// The error says the topic has no partition `pid`.
pub open spec fn is_partition_not_found(e: Error, pid: i32) -> bool {
    e matches Error::PartitionNotFound(s) && s@ == "Partition "@ + signed_decimal(pid as int)
        + " not found"@
}

/// Topic.
pub struct Topic {
    name: String,
    config: TopicConfig,
    partitions: Vec<Partition>,
    stats: TopicStats,
    rotation: u32,
}

impl Topic {
    /// The topic's name.
    pub closed spec fn spec_name(&self) -> Seq<char> {
        self.name@
    }

    /// The topic's configuration.
    pub closed spec fn spec_config(&self) -> TopicConfig {
        self.config
    }

    /// The partitions, by ID.
    pub closed spec fn parts(&self) -> Seq<Partition> {
        self.partitions@
    }

    /// The statistics kept so far.
    pub closed spec fn spec_stats(&self) -> TopicStats {
        self.stats
    }

    /// The round robin's position: the partition, modulo their number,
    /// that the next message without a partition key goes to.
    pub closed spec fn rotation(&self) -> u32 {
        self.rotation
    }

    /// The topic's invariant: partition `i` has ID `i` and is well formed.
    pub closed spec fn wf(&self) -> bool {
        &&& forall|i: int| 0 <= i < self.partitions@.len() ==> (#[trigger] self.partitions@[i]).wf() && self.partitions@[i].id() == i
        &&& self.partitions@.len() <= i32::MAX
    }

    /// No counter of the topic or its partitions is at its limit, so one
    /// more message can be produced and consumed.
    pub open spec fn has_room(&self) -> bool {
        &&& self.spec_stats().total_produced < u64::MAX
        &&& self.spec_stats().total_consumed < u64::MAX
        &&& forall|i: int| 0 <= i < self.parts().len() ==> {
            &&& (#[trigger] self.parts()[i]).next() < u64::MAX
            &&& self.parts()[i].spec_stats().total_produced < u64::MAX
            &&& self.parts()[i].spec_stats().total_consumed < u64::MAX
        }
    }

    /// `after` is this topic after producing `message` to partition `pid`
    /// with result `r` (see `produce_to_partition`).
    pub open spec fn produced_to(&self, after: &Topic, pid: i32, message: MessageView, r: Result<Offset>) -> bool {
        &&& after.wf()
        &&& after.spec_name() == self.spec_name()
        &&& after.spec_config() == self.spec_config()
        &&& after.parts().len() == self.parts().len()
        &&& if 0 <= pid < self.parts().len() {
            &&& r matches Ok(o) && self.parts()[pid as int].produced(&after.parts()[pid as int], message, o)
            &&& forall|j: int| 0 <= j < self.parts().len() && j != pid ==> #[trigger] after.parts()[j] == self.parts()[j]
            &&& after.spec_stats() == (TopicStats { total_produced: (self.spec_stats().total_produced + 1) as u64, ..self.spec_stats() })
        } else {
            &&& r matches Err(e) && is_partition_not_found(e, pid)
            &&& after.parts() == self.parts()
            &&& after.spec_stats() == self.spec_stats()
        }
    }

    /// `after` is this topic after consumer `c` of group `g` consumed from
    /// `partition` with result `r` (see `consume`).
    pub open spec fn consumed_at(&self, after: &Topic, partition: i32, g: Seq<char>, c: Seq<char>, r: Result<Option<Message>>) -> bool {
        &&& after.wf()
        &&& after.spec_name() == self.spec_name()
        &&& after.spec_config() == self.spec_config()
        &&& after.parts().len() == self.parts().len()
        &&& if 0 <= partition < self.parts().len() {
            &&& r matches Ok(m) && self.parts()[partition as int].consumed(&after.parts()[partition as int], g, c, match m {
                Some(m) => Some(m@),
                None => None,
            })
            &&& forall|j: int| 0 <= j < self.parts().len() && j != partition ==> #[trigger] after.parts()[j] == self.parts()[j]
            &&& after.spec_stats() == (TopicStats {
                total_consumed: if r matches Ok(Some(_)) { (self.spec_stats().total_consumed + 1) as u64 } else { self.spec_stats().total_consumed },
                ..self.spec_stats()
            })
        } else {
            &&& r matches Err(e) && is_partition_not_found(e, partition)
            &&& after.parts() == self.parts()
            &&& after.spec_stats() == self.spec_stats()
        }
    }

    /// The topic can take `n` more messages in and out without a counter
    /// reaching its limit.
    pub open spec fn has_room_for(&self, n: nat) -> bool {
        &&& self.spec_stats().total_produced + n <= u64::MAX
        &&& self.spec_stats().total_consumed + n <= u64::MAX
        &&& forall|i: int| 0 <= i < self.parts().len() ==> {
            &&& (#[trigger] self.parts()[i]).next() + n <= u64::MAX
            &&& self.parts()[i].spec_stats().total_produced + n <= u64::MAX
            &&& self.parts()[i].spec_stats().total_consumed + n <= u64::MAX
        }
    }

    /// Room for one message or more is room for one.
    pub proof fn lemma_room(&self, n: nat)
        requires
            n >= 1,
            self.has_room_for(n),
        ensures
            self.has_room(),
    {
    }

    /// After producing or consuming one message, room for `n + 1` leaves room
    /// for `n`.
    pub proof fn lemma_room_after(&self, after: &Topic, n: nat)
        requires
            self.has_room_for(n + 1),
            after.parts().len() == self.parts().len(),
            after.spec_stats().total_produced <= self.spec_stats().total_produced + 1,
            after.spec_stats().total_consumed <= self.spec_stats().total_consumed + 1,
            forall|i: int| 0 <= i < self.parts().len() ==> {
                &&& (#[trigger] after.parts()[i]).next() <= self.parts()[i].next() + 1
                &&& after.parts()[i].spec_stats().total_produced <= self.parts()[i].spec_stats().total_produced + 1
                &&& after.parts()[i].spec_stats().total_consumed <= self.parts()[i].spec_stats().total_consumed + 1
            },
        ensures
            after.has_room_for(n),
    {
        assert forall|i: int| 0 <= i < after.parts().len() implies {
            &&& (#[trigger] after.parts()[i]).next() + n <= u64::MAX
            &&& after.parts()[i].spec_stats().total_produced + n <= u64::MAX
            &&& after.parts()[i].spec_stats().total_consumed + n <= u64::MAX
        } by {
            assert(self.parts()[i].next() + n + 1 <= u64::MAX);
        }
    }

    /// Producing one message leaves room for one less.
    pub proof fn lemma_room_after_produce(&self, after: &Topic, pid: i32, message: MessageView, r: Result<Offset>, n: nat)
        requires
            self.has_room_for(n + 1),
            self.produced_to(after, pid, message, r),
        ensures
            after.has_room_for(n),
    {
        assert forall|i: int| 0 <= i < self.parts().len() implies {
            &&& (#[trigger] after.parts()[i]).next() <= self.parts()[i].next() + 1
            &&& after.parts()[i].spec_stats().total_produced <= self.parts()[i].spec_stats().total_produced + 1
            &&& after.parts()[i].spec_stats().total_consumed <= self.parts()[i].spec_stats().total_consumed + 1
        } by {
            if i != pid {
                assert(after.parts()[i] == self.parts()[i]);
            }
        }
        self.lemma_room_after(after, n);
    }

    /// Consuming one message leaves room for one less.
    pub proof fn lemma_room_after_consume(&self, after: &Topic, partition: i32, g: Seq<char>, c: Seq<char>, r: Result<Option<Message>>, n: nat)
        requires
            self.has_room_for(n + 1),
            self.consumed_at(after, partition, g, c, r),
        ensures
            after.has_room_for(n),
    {
        assert forall|i: int| 0 <= i < self.parts().len() implies {
            &&& (#[trigger] after.parts()[i]).next() <= self.parts()[i].next() + 1
            &&& after.parts()[i].spec_stats().total_produced <= self.parts()[i].spec_stats().total_produced + 1
            &&& after.parts()[i].spec_stats().total_consumed <= self.parts()[i].spec_stats().total_consumed + 1
        } by {
            if i != partition {
                assert(after.parts()[i] == self.parts()[i]);
            }
        }
        self.lemma_room_after(after, n);
    }

    /// `after` is this topic after a cleanup at `now` (see
    /// `cleanup_expired_messages_at`).
    pub open spec fn cleaned(&self, after: &Topic, now: Timestamp) -> bool {
        &&& after.wf()
        &&& after.spec_name() == self.spec_name()
        &&& after.spec_config() == self.spec_config()
        &&& after.spec_stats() == self.spec_stats()
        &&& after.parts().len() == self.parts().len()
        &&& forall|i: int| 0 <= i < self.parts().len() ==> {
            &&& (#[trigger] after.parts()[i]).messages() == unexpired_messages(self.parts()[i].messages(), now, duration_nanos(self.spec_config().retention))
            &&& after.parts()[i].same_offsets(&self.parts()[i])
            &&& after.parts()[i].next() == self.parts()[i].next()
            &&& after.parts()[i].spec_stats() == self.parts()[i].spec_stats()
        }
    }

    /// A topic with no partitions yet.
    pub fn new(name: String, config: TopicConfig) -> (t: Self)
        ensures
            t.wf(),
            t.spec_name() == name@,
            t.spec_config() == config,
            t.parts().len() == 0,
            t.spec_stats().total_produced == 0,
            t.spec_stats().total_consumed == 0,
            t.spec_stats().partition_count == 0,
            t.rotation() == 0,
    {
        Topic { name, config, partitions: Vec::new(), stats: TopicStats::default(), rotation: 0 }
    }

    /// Create the configured number of empty partitions, replacing any.
    pub fn initialize(&mut self) -> (r: Result<()>)
        requires
            old(self).wf(),
        ensures
            final(self).wf(),
            r is Ok,
            final(self).spec_name() == old(self).spec_name(),
            final(self).spec_config() == old(self).spec_config(),
            final(self).parts().len() == created_partitions(old(self).spec_config().partition_count),
            forall|i: int| 0 <= i < final(self).parts().len() ==> {
                &&& (#[trigger] final(self).parts()[i]).messages().len() == 0
                &&& final(self).parts()[i].next() == 0
                &&& final(self).parts()[i].spec_topic() == old(self).spec_name()
                &&& final(self).parts()[i].spec_stats() == zero_partition_stats()
                &&& forall|g: Seq<char>, c: Seq<char>| #[trigger] final(self).parts()[i].group_offset(g, c) == 0
            },
            final(self).spec_stats() == (TopicStats { partition_count: old(self).spec_config().partition_count, ..old(self).spec_stats() }),
            final(self).rotation() == old(self).rotation(),
    {
        let pc = self.config.partition_count;
        let count = pc as i32;
        assert(pc <= 0x7fff_ffffu32 ==> count == pc) by (bit_vector)
            requires
                count == pc as i32,
        ;
        assert(pc > 0x7fff_ffffu32 ==> count < 0) by (bit_vector)
            requires
                count == pc as i32,
        ;
        let mut parts: Vec<Partition> = Vec::new();
        let mut id: i32 = 0;
        while id < count
            invariant
                0 <= id,
                count >= 0 ==> id <= count,
                count < 0 ==> id == 0,
                parts@.len() == id,
                forall|i: int| 0 <= i < parts@.len() ==> {
                    &&& (#[trigger] parts@[i]).wf()
                    &&& parts@[i].id() == i
                    &&& parts@[i].messages().len() == 0
                    &&& parts@[i].next() == 0
                    &&& parts@[i].spec_topic() == self.name@
                    &&& parts@[i].spec_stats() == zero_partition_stats()
                    &&& forall|g: Seq<char>, c: Seq<char>| #[trigger] parts@[i].group_offset(g, c) == 0
                },
            decreases count - id,
        {
            let p = Partition::new(id, self.name.clone());
            let _ = p.initialize();
            parts.push(p);
            id = id + 1;
        }
        self.partitions = parts;
        self.stats.partition_count = self.config.partition_count;
        Ok(())
    }
    /// Delete the topic's partitions. (Their persisted data is the storage
    /// engine's to delete.)
    pub fn delete(&mut self) -> (r: Result<()>)
        requires
            old(self).wf(),
        ensures
            final(self).wf(),
            r is Ok,
            final(self).parts().len() == 0,
            final(self).spec_name() == old(self).spec_name(),
            final(self).spec_config() == old(self).spec_config(),
            final(self).spec_stats() == old(self).spec_stats(),
    {
        self.partitions = Vec::new();
        Ok(())
    }

    /// The topic name.
    pub fn name(&self) -> (s: &str)
        ensures
            s@ == self.spec_name(),
    {
        self.name.as_str()
    }

    /// The topic configuration.
    pub fn config(&self) -> (c: &TopicConfig)
        ensures
            *c == self.spec_config(),
    {
        &self.config
    }

    /// The partition for `message` (see `partition_for`).
    pub fn select_partition(&self, message: &Message) -> (p: i32)
        requires
            self.spec_config().partition_count > 0,
        ensures
            p == partition_for(message@.partition_key, self.rotation(), self.spec_config().partition_count),
    {
        match &message.metadata.partition_key {
            Some(k) => partition_of(hash_str(k.as_str()), self.config.partition_count),
            None => partition_of(self.rotation as u64, self.config.partition_count),
        }
    }

    /// Produce `message` to partition `pid` and return its offset there;
    /// fails when the topic lacks that partition.
    pub fn produce_to_partition(&mut self, pid: i32, message: Message) -> (r: Result<Offset>)
        requires
            old(self).wf(),
            old(self).has_room(),
        ensures
            old(self).produced_to(final(self), pid, message@, r),
            final(self).rotation() == old(self).rotation(),
            final(self).wf(),
            final(self).spec_name() == old(self).spec_name(),
            final(self).spec_config() == old(self).spec_config(),
            final(self).parts().len() == old(self).parts().len(),
            if 0 <= pid < old(self).parts().len() {
                &&& r matches Ok(o) && old(self).parts()[pid as int].produced(&final(self).parts()[pid as int], message@, o)
                &&& forall|j: int| 0 <= j < old(self).parts().len() && j != pid ==> #[trigger] final(self).parts()[j] == old(self).parts()[j]
                &&& final(self).spec_stats() == (TopicStats { total_produced: (old(self).spec_stats().total_produced + 1) as u64, ..old(self).spec_stats() })
            } else {
                &&& r matches Err(e) && is_partition_not_found(e, pid)
                &&& final(self).parts() == old(self).parts()
                &&& final(self).spec_stats() == old(self).spec_stats()
            },
    {
        if pid < 0 || pid as usize >= self.partitions.len() {
            return Err(partition_not_found(pid));
        }
        let idx = pid as usize;
        let mut part = self.partitions.remove(idx);
        let r = part.produce(message);
        self.partitions.insert(idx, part);
        assert(self.partitions@ =~= old(self).partitions@.update(idx as int, part));
        self.stats.total_produced = self.stats.total_produced + 1;
        r
    }

    /// Produce `message` to the partition chosen for it (see
    /// `partition_for`), and return its offset there; fails when the topic
    /// lacks that partition. A message without a partition key moves the
    /// round robin on.
    pub fn produce(&mut self, message: Message) -> (r: Result<Offset>)
        requires
            old(self).wf(),
            old(self).has_room(),
            old(self).spec_config().partition_count > 0,
        ensures
            old(self).produced_to(
                final(self),
                partition_for(message@.partition_key, old(self).rotation(), old(self).spec_config().partition_count),
                message@,
                r,
            ),
            final(self).rotation() == rotated(message@.partition_key, old(self).rotation(), old(self).spec_config().partition_count),
            old(self).parts().len() == old(self).spec_config().partition_count <= i32::MAX ==> r is Ok,
    {
        let ghost count = self.spec_config().partition_count;
        let pid = self.select_partition(&message);
        proof {
            let x: u64 = match message@.partition_key {
                Some(k) => default_hash_str(k),
                None => self.rotation as u64,
            };
            assert(x % (count as u64) < count);
            if count <= i32::MAX {
                assert(0 <= pid < count);
            }
        }
        match &message.metadata.partition_key {
            Some(_) => {},
            None => {
                let next = self.rotation % self.config.partition_count + 1;
                self.rotation = if next == self.config.partition_count { 0 } else { next };
                proof {
                    assert(next <= count);
                    if next < count {
                        vstd::arithmetic::div_mod::lemma_small_mod(next as nat, count as nat);
                    } else {
                        assert((count as int) % (count as int) == 0) by (nonlinear_arith)
                            requires
                                count > 0,
                        ;
                    }
                }
            },
        }
        let ghost mid = *self;
        let r = self.produce_to_partition(pid, message);
        proof {
            assert(mid.parts() == old(self).parts());
            assert(mid.spec_stats() == old(self).spec_stats());
        }
        r
    }

    /// Consume from a partition for a consumer of a group (see
    /// `Partition::consume`); fails when the topic lacks the partition.
    pub fn consume(&mut self, partition: i32, consumer_group: &str, consumer_id: &str) -> (r: Result<Option<Message>>)
        requires
            old(self).wf(),
            old(self).has_room(),
        ensures
            old(self).consumed_at(final(self), partition, consumer_group@, consumer_id@, r),
            final(self).wf(),
            final(self).spec_name() == old(self).spec_name(),
            final(self).spec_config() == old(self).spec_config(),
            final(self).parts().len() == old(self).parts().len(),
            if 0 <= partition < old(self).parts().len() {
                &&& r matches Ok(m) && old(self).parts()[partition as int].consumed(&final(self).parts()[partition as int], consumer_group@, consumer_id@, match m {
                    Some(m) => Some(m@),
                    None => None,
                })
                &&& forall|j: int| 0 <= j < old(self).parts().len() && j != partition ==> #[trigger] final(self).parts()[j] == old(self).parts()[j]
                &&& final(self).spec_stats() == (TopicStats {
                    total_consumed: if r matches Ok(Some(_)) { (old(self).spec_stats().total_consumed + 1) as u64 } else { old(self).spec_stats().total_consumed },
                    ..old(self).spec_stats()
                })
            } else {
                &&& r matches Err(e) && is_partition_not_found(e, partition)
                &&& final(self).parts() == old(self).parts()
                &&& final(self).spec_stats() == old(self).spec_stats()
            },
    {
        if partition < 0 || partition as usize >= self.partitions.len() {
            return Err(partition_not_found(partition));
        }
        let idx = partition as usize;
        let mut part = self.partitions.remove(idx);
        let r = part.consume(consumer_group, consumer_id);
        self.partitions.insert(idx, part);
        assert(self.partitions@ =~= old(self).partitions@.update(idx as int, part));
        match r {
            Ok(Some(m)) => {
                self.stats.total_consumed = self.stats.total_consumed + 1;
                Ok(Some(m))
            },
            other => other,
        }
    }

    /// The statistics, with the number of partitions.
    pub fn get_stats(&self) -> (s: TopicStats)
        requires
            self.wf(),
        ensures
            s == (TopicStats { partition_count: self.parts().len() as u32, ..self.spec_stats() }),
    {
        TopicStats {
            total_produced: self.stats.total_produced,
            total_consumed: self.stats.total_consumed,
            partition_count: self.partitions.len() as u32,
            avg_message_size: self.stats.avg_message_size,
        }
    }

    /// The statistics of a partition; fails when the topic lacks it.
    pub fn get_partition_stats(&self, partition_id: i32) -> (r: Result<PartitionStats>)
        ensures
            if 0 <= partition_id < self.parts().len() {
                r matches Ok(s) && s == (PartitionStats { current_size: self.parts()[partition_id as int].messages().len() as usize, ..self.parts()[partition_id as int].spec_stats() })
            } else {
                r matches Err(e) && is_partition_not_found(e, partition_id)
            },
    {
        if partition_id < 0 || partition_id as usize >= self.partitions.len() {
            return Err(partition_not_found(partition_id));
        }
        Ok(self.partitions[partition_id as usize].get_stats())
    }

    /// `after` is this topic after every partition dropped the messages
    /// older than the retention period at `now`.
    pub open spec fn cleaned_at(&self, after: &Topic, now: Timestamp) -> bool {
        &&& after.wf()
        &&& after.spec_name() == self.spec_name()
        &&& after.spec_config() == self.spec_config()
        &&& after.spec_stats() == self.spec_stats()
        &&& after.parts().len() == self.parts().len()
        &&& forall|i: int| 0 <= i < self.parts().len() ==> {
            &&& (#[trigger] after.parts()[i]).messages() == unexpired_messages(self.parts()[i].messages(), now, duration_nanos(self.spec_config().retention))
            &&& after.parts()[i].same_offsets(&self.parts()[i])
            &&& after.parts()[i].next() == self.parts()[i].next()
            &&& after.parts()[i].spec_stats() == self.parts()[i].spec_stats()
        }
    }

    /// Remove from every partition the messages older than the retention
    /// period at `now` (see `cleaned_at`).
    pub fn cleanup_expired_messages_at(&mut self, now: Timestamp) -> (r: Result<()>)
        requires
            old(self).wf(),
        ensures
            r is Ok,
            old(self).cleaned_at(final(self), now),
    {
        let mut old_list: Vec<Partition> = Vec::new();
        std::mem::swap(&mut old_list, &mut self.partitions);
        let ghost all = old_list@;
        let n = old_list.len();
        let mut done: Vec<Partition> = Vec::new();
        let mut i: usize = 0;
        assert(all.skip(0) =~= all);
        while i < n
            invariant
                all == old(self).partitions@,
                self.config == old(self).config,
                forall|j: int| 0 <= j < all.len() ==> (#[trigger] all[j]).wf() && all[j].id() == j,
                n == all.len(),
                i <= n,
                old_list@ == all.skip(i as int),
                done@.len() == i,
                forall|j: int| 0 <= j < i ==> {
                    &&& (#[trigger] done@[j]).wf()
                    &&& done@[j].id() == j
                    &&& done@[j].messages() == unexpired_messages(all[j].messages(), now, duration_nanos(old(self).config.retention))
                    &&& done@[j].same_offsets(&all[j])
                    &&& done@[j].next() == all[j].next()
                    &&& done@[j].spec_stats() == all[j].spec_stats()
                },
            decreases n - i,
        {
            let mut p = old_list.remove(0);
            proof {
                assert(p == all[i as int]);
                assert(old_list@ =~= all.skip(i + 1));
            }
            let _ = p.cleanup_expired_messages_at(&self.config.retention, now);
            done.push(p);
            i = i + 1;
        }
        self.partitions = done;
        Ok(())
    }

    /// Remove from every partition the messages older than the retention
    /// period now.
    pub fn cleanup_expired_messages(&mut self) -> (r: Result<()>)
        requires
            old(self).wf(),
        ensures
            final(self).wf(),
            r is Ok,
            final(self).parts().len() == old(self).parts().len(),
            final(self).spec_stats() == old(self).spec_stats(),
            exists|now: Timestamp| #[trigger] old(self).cleaned_at(final(self), now),
    {
        self.cleanup_expired_messages_at(Timestamp::now())
    }
}

/// What a read gives back of a write: a consumer that has read everything a
/// partition held, and whose offset does not lie past its end, gets on its
/// next read the message produced after that, stamped with its offset, and
/// its offset moves past it.
pub proof fn lemma_partition_delivers_next(
    p1: Partition,
    p2: Partition,
    p3: Partition,
    m: MessageView,
    o: Offset,
    g: Seq<char>,
    c: Seq<char>,
    r: Option<MessageView>,
)
    requires
        p1.produced(&p2, m, o),
        p2.consumed(&p3, g, c, r),
        forall|i: int| 0 <= i < p1.messages().len() ==> (#[trigger] p1.messages()[i]).message_id < p1.group_offset(g, c),
        p1.group_offset(g, c) <= p1.next(),
    ensures
        r == Some(MessageView { message_id: o.0, ..m }),
        p3.group_offset(g, c) == o.0 + 1,
{
    let n = p1.messages().len();
    let last = MessageView { message_id: o.0, ..m };
    assert(p2.messages()[n as int] == last);
    assert(p2.group_offset(g, c) == p1.group_offset(g, c));
    match r {
        Some(x) => {
            let i = choose|i: int| is_first_from(p2.messages(), p2.group_offset(g, c), i) && p2.messages()[i] == x;
            if i < n {
                assert(p2.messages()[i] == p1.messages()[i]);
            }
        },
        None => {
            assert(p2.messages()[n as int].message_id < p2.group_offset(g, c));
        },
    }
}

/// The same of a topic: a consumer caught up on a partition gets on its next
/// read from it the message just produced there.
pub proof fn lemma_topic_delivers_next(
    t1: Topic,
    t2: Topic,
    t3: Topic,
    pid: i32,
    m: MessageView,
    o: Offset,
    g: Seq<char>,
    c: Seq<char>,
    r: Result<Option<Message>>,
)
    requires
        t1.produced_to(&t2, pid, m, Ok(o)),
        t2.consumed_at(&t3, pid, g, c, r),
        0 <= pid < t1.parts().len(),
        forall|i: int| 0 <= i < t1.parts()[pid as int].messages().len() ==> (#[trigger] t1.parts()[pid as int].messages()[i]).message_id < t1.parts()[pid as int].group_offset(g, c),
        t1.parts()[pid as int].group_offset(g, c) <= t1.parts()[pid as int].next(),
    ensures
        r matches Ok(Some(x)) && x@ == (MessageView { message_id: o.0, ..m }),
{
    let p1 = t1.parts()[pid as int];
    let p2 = t2.parts()[pid as int];
    let p3 = t3.parts()[pid as int];
    let rv = match r {
        Ok(Some(x)) => Some(x@),
        _ => None,
    };
    lemma_partition_delivers_next(p1, p2, p3, m, o, g, c, rv);
}

} // verus!
