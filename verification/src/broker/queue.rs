//! Point-to-point queues: messages are handed to one consumer at a time and
//! stay hidden while a consumer works on them.

use vstd::prelude::*;
use std::time::Duration;
use crate::broker::error::{Error, Result};
use crate::broker::message::{clone_opt_string, Message, MessageView, Offset, opt_text};
use crate::broker::names::NameMap;
use crate::broker::time::{
    add_duration, age, duration_as_nanos, duration_from_secs, duration_nanos, later_by,
};
use crate::qiss::types::Timestamp;

verus! {

/// Queue configuration.
#[derive(Debug, Clone)]
pub struct QueueConfig {
    /// Queue name
    pub name: String,
    /// Maximum queue size
    pub max_size: usize,
    /// Message retention period
    pub retention: Duration,
    /// Enable persistence
    pub enable_persistence: bool,
    /// Enable compression
    pub enable_compression: bool,
    /// Compression level
    pub compression_level: u32,
    /// Dead letter queue
    pub dead_letter_queue: Option<String>,
    /// Maximum retry attempts
    pub max_retry_attempts: u32,
    /// Visibility timeout
    pub visibility_timeout: Duration,
}

impl Default for QueueConfig {
    fn default() -> (c: Self)
        ensures
            c.name@ == "default"@,
            c.max_size == 10000,
            duration_nanos(c.retention) == 7 * 24 * 3600 * 1_000_000_000,
            c.enable_persistence,
            !c.enable_compression,
            c.compression_level == 6,
            c.dead_letter_queue is None,
            c.max_retry_attempts == 3,
            duration_nanos(c.visibility_timeout) == 30 * 1_000_000_000,
    {
        QueueConfig {
            name: "default".to_string(),
            max_size: 10000,
            retention: duration_from_secs(7 * 24 * 3600),
            enable_persistence: true,
            enable_compression: false,
            compression_level: 6,
            dead_letter_queue: None,
            max_retry_attempts: 3,
            visibility_timeout: duration_from_secs(30),
        }
    }
}

/// A message held by a queue, with its delivery state.
#[derive(Debug)]
pub struct QueueMessage {
    /// Message
    pub message: Message,
    /// Offset in queue
    pub offset: Offset,
    /// Delivery count
    pub delivery_count: u32,
    /// First delivery time
    pub first_delivery_time: Timestamp,
    /// Last delivery time
    pub last_delivery_time: Timestamp,
    /// The time from which the message is visible again
    pub visibility_timeout: Timestamp,
    /// Consumer ID (if currently being processed)
    pub consumer_id: Option<String>,
}

/// What a queue message holds.
pub struct QueueEntry {
    /// The message
    pub message: MessageView,
    /// Offset in queue
    pub offset: u64,
    /// Delivery count
    pub delivery_count: u32,
    /// First delivery time
    pub first_delivery_time: Timestamp,
    /// Last delivery time
    pub last_delivery_time: Timestamp,
    /// The time from which the message is visible again
    pub visibility_timeout: Timestamp,
    /// Consumer working on it
    pub consumer_id: Option<Seq<char>>,
}

impl View for QueueMessage {
    type V = QueueEntry;

    open spec fn view(&self) -> QueueEntry {
        QueueEntry {
            message: self.message@,
            offset: self.offset.0,
            delivery_count: self.delivery_count,
            first_delivery_time: self.first_delivery_time,
            last_delivery_time: self.last_delivery_time,
            visibility_timeout: self.visibility_timeout,
            consumer_id: opt_text(self.consumer_id),
        }
    }
}

/// A message just put in a queue at `now`.
pub open spec fn fresh_entry(message: MessageView, offset: u64, now: Timestamp) -> QueueEntry {
    QueueEntry {
        message,
        offset,
        delivery_count: 0,
        first_delivery_time: now,
        last_delivery_time: now,
        visibility_timeout: now,
        consumer_id: None,
    }
}

/// The entry is visible at `now`: no consumer holds it.
pub open spec fn visible(e: QueueEntry, now: Timestamp) -> bool {
    now.0 >= e.visibility_timeout.0
}

/// The entry after a delivery to `consumer` at `now`, hidden for `timeout`
/// nanoseconds.
pub open spec fn delivered(
    e: QueueEntry,
    consumer: Seq<char>,
    timeout: u128,
    now: Timestamp,
) -> QueueEntry {
    QueueEntry {
        message: e.message,
        offset: e.offset,
        delivery_count: (e.delivery_count + 1) as u32,
        first_delivery_time: e.first_delivery_time,
        last_delivery_time: now,
        visibility_timeout: later_by(now, timeout),
        consumer_id: Some(consumer),
    }
}

impl Clone for QueueMessage {
    fn clone(&self) -> (r: Self)
        ensures
            r@ == self@,
            r.message.wf() == self.message.wf(),
    {
        QueueMessage {
            message: self.message.clone(),
            offset: self.offset,
            delivery_count: self.delivery_count,
            first_delivery_time: self.first_delivery_time,
            last_delivery_time: self.last_delivery_time,
            visibility_timeout: self.visibility_timeout,
            consumer_id: clone_opt_string(&self.consumer_id),
        }
    }
}

impl QueueMessage {
    /// A queue message put in the queue at `now`.
    pub fn new_at(message: Message, offset: Offset, now: Timestamp) -> (q: Self)
        ensures
            q@ == fresh_entry(message@, offset.0, now),
            q.message == message,
    {
        QueueMessage {
            message,
            offset,
            delivery_count: 0,
            first_delivery_time: now,
            last_delivery_time: now,
            visibility_timeout: now,
            consumer_id: None,
        }
    }

    /// A queue message put in the queue now.
    pub fn new(message: Message, offset: Offset) -> (q: Self)
        ensures
            q@.message == message@,
            q@.offset == offset.0,
            q@.delivery_count == 0,
            q@.consumer_id is None,
            q@.first_delivery_time == q@.last_delivery_time,
            q@.visibility_timeout == q@.first_delivery_time,
    {
        Self::new_at(message, offset, Timestamp::now())
    }

    /// Whether the message is visible at `now`.
    pub fn is_visible_at(&self, now: Timestamp) -> (b: bool)
        ensures
            b == visible(self@, now),
    {
        now.0 >= self.visibility_timeout.0
    }

    /// Whether the message is visible now (not being processed).
    pub fn is_visible(&self) -> bool {
        self.is_visible_at(Timestamp::now())
    }

    /// Whether the message was delivered at least `max_retries` times.
    pub fn has_exceeded_max_retries(&self, max_retries: u32) -> (b: bool)
        ensures
            b == (self.delivery_count >= max_retries),
    {
        self.delivery_count >= max_retries
    }

    /// Record a delivery to `consumer_id` at `now`; the message is hidden
    /// for `visibility_timeout`.
    pub fn mark_delivered_at(
        &mut self,
        consumer_id: String,
        visibility_timeout: Duration,
        now: Timestamp,
    )
        requires
            old(self).delivery_count < u32::MAX,
        ensures
            final(self)@ == delivered(
                old(self)@,
                consumer_id@,
                duration_nanos(visibility_timeout),
                now,
            ),
            final(self).message == old(self).message,
    {
        self.delivery_count = self.delivery_count + 1;
        self.last_delivery_time = now;
        self.visibility_timeout = add_duration(now, &visibility_timeout);
        self.consumer_id = Some(consumer_id);
    }

    /// Record a delivery to `consumer_id` now.
    pub fn mark_delivered(&mut self, consumer_id: String, visibility_timeout: Duration)
        requires
            old(self).delivery_count < u32::MAX,
        ensures
            final(self)@.delivery_count == old(self)@.delivery_count + 1,
            final(self)@.consumer_id == Some(consumer_id@),
            final(self)@.message == old(self)@.message,
            final(self)@.offset == old(self)@.offset,
    {
        self.mark_delivered_at(consumer_id, visibility_timeout, Timestamp::now())
    }

    /// Record that the consumer is done with the message.
    pub fn mark_processed(&mut self)
        ensures
            final(self)@ == (QueueEntry { consumer_id: None, ..old(self)@ }),
            final(self).message == old(self).message,
    {
        self.consumer_id = None;
    }
}

/// Queue statistics.
#[derive(Debug, Clone, Copy, PartialEq, Eq, Structural)]
pub struct QueueStats {
    /// Total messages produced
    pub total_produced: u64,
    /// Total messages consumed
    pub total_consumed: u64,
    /// Total messages failed
    pub total_failed: u64,
    /// Current queue size
    pub current_size: usize,
    /// Average message size
    pub avg_message_size: u64,
    /// Oldest message timestamp
    pub oldest_message: Option<Timestamp>,
    /// Newest message timestamp
    pub newest_message: Option<Timestamp>,
}

/// Statistics with every count zero and no timestamps.
pub open spec fn zero_queue_stats() -> QueueStats {
    QueueStats {
        total_produced: 0,
        total_consumed: 0,
        total_failed: 0,
        current_size: 0,
        avg_message_size: 0,
        oldest_message: None,
        newest_message: None,
    }
}

impl Default for QueueStats {
    fn default() -> (s: Self)
        ensures
            s == zero_queue_stats(),
    {
        QueueStats {
            total_produced: 0,
            total_consumed: 0,
            total_failed: 0,
            current_size: 0,
            avg_message_size: 0,
            oldest_message: None,
            newest_message: None,
        }
    }
}

/// The running mean after one more message of `size` bytes, the mean of
/// `count - 1` messages being `avg` (integer division, as the broker does).
pub open spec fn next_average(avg: u64, count: nat, size: nat) -> int {
    (avg * (count - 1) + size) / (count as int)
}

/// The earliest of the timestamps seen and `t`.
pub open spec fn earliest(seen: Option<Timestamp>, t: Timestamp) -> Option<Timestamp> {
    match seen {
        Some(s) => if t.0 < s.0 {
            Some(t)
        } else {
            Some(s)
        },
        None => Some(t),
    }
}

/// The latest of the timestamps seen and `t`.
pub open spec fn latest(seen: Option<Timestamp>, t: Timestamp) -> Option<Timestamp> {
    match seen {
        Some(s) => if t.0 > s.0 {
            Some(t)
        } else {
            Some(s)
        },
        None => Some(t),
    }
}

/// Statistics after a message of `size` bytes stamped `t` was produced.
pub open spec fn produce_stats(s: QueueStats, size: nat, t: Timestamp) -> QueueStats {
    QueueStats {
        total_produced: (s.total_produced + 1) as u64,
        avg_message_size: next_average(
            s.avg_message_size,
            (s.total_produced + 1) as nat,
            size,
        ) as u64,
        oldest_message: earliest(s.oldest_message, t),
        newest_message: latest(s.newest_message, t),
        ..s
    }
}

proof fn lemma_average_bounded(avg: u64, count: nat, size: nat, bound: nat)
    requires
        count >= 1,
        avg <= bound,
        size <= bound,
    ensures
        0 <= next_average(avg, count, size) <= bound,
{
    assert(avg * (count - 1) + size <= bound * count) by (nonlinear_arith)
        requires
            count >= 1,
            avg <= bound,
            size <= bound,
    ;
    assert((avg * (count - 1) + size) / (count as int) <= bound) by (nonlinear_arith)
        requires
            avg * (count - 1) + size <= bound * count,
            count >= 1,
    ;
    assert((avg * (count - 1) + size) / (count as int) >= 0) by (nonlinear_arith)
        requires
            avg * (count - 1) + size >= 0,
            count >= 1,
    ;
}

/// The average size after a message of `size` bytes joins `count - 1`
/// messages of average `avg`, computed without overflow.
pub fn average_with(avg: u64, count: u64, size: usize) -> (r: u64)
    requires
        count >= 1,
    ensures
        r == next_average(avg, count as nat, size as nat),
{
    proof {
        lemma_average_bounded(avg, count as nat, size as nat, u64::MAX as nat);
    }
    let x = avg as u128;
    let y = (count - 1) as u128;
    assert(x * y <= 0xffff_ffff_ffff_ffffu128 * 0xffff_ffff_ffff_ffffu128) by (nonlinear_arith)
        requires
            x <= 0xffff_ffff_ffff_ffffu128,
            y <= 0xffff_ffff_ffff_ffffu128,
    ;
    let total = x * y + size as u128;
    (total / (count as u128)) as u64
}

/// The earliest of the timestamps seen and `t`.
pub fn earlier_of(seen: Option<Timestamp>, t: Timestamp) -> (r: Option<Timestamp>)
    ensures
        r == earliest(seen, t),
{
    match seen {
        Some(o) => if t.0 < o.0 {
            Some(t)
        } else {
            Some(o)
        },
        None => Some(t),
    }
}

/// The latest of the timestamps seen and `t`.
pub fn later_of(seen: Option<Timestamp>, t: Timestamp) -> (r: Option<Timestamp>)
    ensures
        r == latest(seen, t),
{
    match seen {
        Some(n) => if t.0 > n.0 {
            Some(t)
        } else {
            Some(n)
        },
        None => Some(t),
    }
}

fn update_produce_stats(s: QueueStats, size: usize, t: Timestamp) -> (r: QueueStats)
    requires
        s.total_produced < u64::MAX,
    ensures
        r == produce_stats(s, size as nat, t),
{
    let count = s.total_produced + 1;
    QueueStats {
        total_produced: count,
        total_consumed: s.total_consumed,
        total_failed: s.total_failed,
        current_size: s.current_size,
        avg_message_size: average_with(s.avg_message_size, count, size),
        oldest_message: earlier_of(s.oldest_message, t),
        newest_message: later_of(s.newest_message, t),
    }
}

/// The position of the first entry visible at `now`.
pub open spec fn is_first_visible(entries: Seq<QueueEntry>, now: Timestamp, i: int) -> bool {
    &&& 0 <= i < entries.len()
    &&& visible(entries[i], now)
    &&& forall|j: int| 0 <= j < i ==> !visible(#[trigger] entries[j], now)
}

/// The entry a consumer is handed at `now`: the first visible one.
pub open spec fn first_visible(entries: Seq<QueueEntry>, now: Timestamp) -> Option<int> {
    if exists|i: int| is_first_visible(entries, now, i) {
        Some(choose|i: int| is_first_visible(entries, now, i))
    } else {
        None
    }
}

/// The position of the entry with offset `offset`.
pub open spec fn position_of(entries: Seq<QueueEntry>, offset: u64) -> Option<int> {
    if exists|i: int| 0 <= i < entries.len() && entries[i].offset == offset {
        Some(choose|i: int| 0 <= i < entries.len() && entries[i].offset == offset)
    } else {
        None
    }
}

/// The entries kept by a cleanup at `now`: those no older than `retention`.
pub open spec fn unexpired(
    entries: Seq<QueueEntry>,
    now: Timestamp,
    retention: u128,
) -> Seq<QueueEntry> {
    entries.filter(|e: QueueEntry| age(now, e.message.timestamp) <= retention)
}

/// Queue.
pub struct Queue {
    name: String,
    config: QueueConfig,
    messages: Vec<QueueMessage>,
    consumer_offsets: NameMap<Offset>,
    next_offset: Offset,
    stats: QueueStats,
}

impl Queue {
    /// The messages held, oldest first.
    pub closed spec fn entries(&self) -> Seq<QueueEntry> {
        self.messages@.map_values(|m: QueueMessage| m@)
    }

    /// The offset each consumer was last handed.
    pub closed spec fn offsets(&self) -> Map<Seq<char>, Offset> {
        self.consumer_offsets.map()
    }

    /// The offset the next message will get.
    pub closed spec fn next(&self) -> u64 {
        self.next_offset.0
    }

    /// The statistics kept.
    pub closed spec fn spec_stats(&self) -> QueueStats {
        self.stats
    }

    /// The queue's name.
    pub closed spec fn spec_name(&self) -> Seq<char> {
        self.name@
    }

    /// The queue's configuration.
    pub closed spec fn spec_config(&self) -> QueueConfig {
        self.config
    }

    /// The queue's invariant: offsets strictly increase from the oldest
    /// message and stay below the next offset; every produced message got
    /// the next offset; the queue holds no more than its maximum size.
    pub closed spec fn wf(&self) -> bool {
        &&& self.consumer_offsets.wf()
        &&& forall|i: int, j: int|
            0 <= i < j < self.messages@.len() ==> (#[trigger] self.messages@[i]).offset.0
                < (#[trigger] self.messages@[j]).offset.0
        &&& forall|i: int|
            0 <= i < self.messages@.len() ==> (#[trigger] self.messages@[i]).offset.0
                < self.next_offset.0
        &&& self.stats.total_produced == self.next_offset.0
        &&& self.messages@.len() <= self.config.max_size
        &&& forall|i: int|
            0 <= i < self.messages@.len() ==> (#[trigger] self.messages@[i]).message.wf()
    }

    /// The invariant seen through the entries.
    pub proof fn lemma_wf(&self)
        requires
            self.wf(),
        ensures
            forall|i: int, j: int|
                0 <= i < j < self.entries().len() ==> (#[trigger] self.entries()[i]).offset
                    < (#[trigger] self.entries()[j]).offset,
            forall|i: int|
                0 <= i < self.entries().len() ==> (#[trigger] self.entries()[i]).offset
                    < self.next(),
            self.entries().len() <= self.spec_config().max_size,
            self.spec_stats().total_produced == self.next(),
    {
    }

    /// `after` is this queue after producing `message` at `now` with result
    /// `r` (see `produce_at`).
    pub open spec fn produced_into(&self, after: &Queue, message: MessageView, now: Timestamp, r: Result<Offset>) -> bool {
        &&& after.wf()
        &&& after.spec_name() == self.spec_name()
        &&& after.spec_config() == self.spec_config()
        &&& after.offsets() == self.offsets()
        &&& if self.entries().len() >= self.spec_config().max_size {
            &&& r matches Err(Error::QueueFull(n)) && n@ == self.spec_name()
            &&& after.entries() == self.entries()
            &&& after.next() == self.next()
            &&& after.spec_stats() == self.spec_stats()
        } else {
            &&& r == Ok::<Offset, Error>(Offset(self.next()))
            &&& after.next() == self.next() + 1
            &&& after.entries() == self.entries().push(
                fresh_entry(MessageView { message_id: self.next(), ..message }, self.next(), now),
            )
            &&& after.spec_stats() == produce_stats(self.spec_stats(), message.size as nat, message.timestamp)
        }
    }

    /// The queue can hand out a message at `now` without a counter at its
    /// limit.
    pub open spec fn consume_ok(&self, now: Timestamp) -> bool {
        first_visible(self.entries(), now) matches Some(i) ==> self.entries()[i].delivery_count
            < u32::MAX && self.spec_stats().total_consumed < u64::MAX
    }

    /// `after` is this queue after `consumer_id` consumed at `now` with
    /// result `r` (see `consume_at`).
    pub open spec fn consumed_from(&self, after: &Queue, consumer_id: Seq<char>, now: Timestamp, r: Result<Option<Message>>) -> bool {
        &&& after.wf()
        &&& after.spec_name() == self.spec_name()
        &&& after.spec_config() == self.spec_config()
        &&& after.next() == self.next()
        &&& match first_visible(self.entries(), now) {
            None => {
                &&& r matches Ok(None)
                &&& after.entries() == self.entries()
                &&& after.offsets() == self.offsets()
                &&& after.spec_stats() == self.spec_stats()
            },
            Some(i) => {
                &&& r matches Ok(Some(m)) && m@ == self.entries()[i].message && m.wf()
                &&& after.entries() == self.entries().update(
                    i,
                    delivered(self.entries()[i], consumer_id, duration_nanos(self.spec_config().visibility_timeout), now),
                )
                &&& after.offsets() == self.offsets().insert(consumer_id, Offset(self.entries()[i].offset))
                &&& after.spec_stats() == (QueueStats {
                    total_consumed: (self.spec_stats().total_consumed + 1) as u64,
                    ..self.spec_stats()
                })
            },
        }
    }

    /// `after` is this queue after a cleanup at `now` (see
    /// `cleanup_expired_messages_at`).
    pub open spec fn cleaned(&self, after: &Queue, now: Timestamp) -> bool {
        &&& after.wf()
        &&& after.entries() == unexpired(self.entries(), now, duration_nanos(self.spec_config().retention))
        &&& after.offsets() == self.offsets()
        &&& after.next() == self.next()
        &&& after.spec_stats() == self.spec_stats()
        &&& after.spec_name() == self.spec_name()
        &&& after.spec_config() == self.spec_config()
    }

    /// Create an empty queue.
    pub fn new(name: String, config: QueueConfig) -> (q: Self)
        ensures
            q.wf(),
            q.spec_name() == name@,
            q.spec_config() == config,
            q.entries() == Seq::<QueueEntry>::empty(),
            q.offsets() == Map::<Seq<char>, Offset>::empty(),
            q.next() == 0,
            q.spec_stats() == zero_queue_stats(),
    {
        let q = Queue {
            name,
            config,
            messages: Vec::new(),
            consumer_offsets: NameMap::new(),
            next_offset: Offset::new(0),
            stats: QueueStats::default(),
        };
        assert(q.entries() =~= Seq::<QueueEntry>::empty());
        q
    }

    /// Initialize the queue. Persisted messages are not reloaded: the
    /// queue starts from what it holds.
    pub fn initialize(&self) -> (r: Result<()>)
        ensures
            r is Ok,
    {
        Ok(())
    }

    /// Empty the queue and forget consumer offsets. Returns whether the
    /// queue's persisted data is to be deleted too (persistence enabled).
    pub fn delete(&mut self) -> (persisted: bool)
        requires
            old(self).wf(),
        ensures
            final(self).wf(),
            final(self).entries() == Seq::<QueueEntry>::empty(),
            final(self).offsets() == Map::<Seq<char>, Offset>::empty(),
            final(self).next() == old(self).next(),
            final(self).spec_stats() == old(self).spec_stats(),
            final(self).spec_name() == old(self).spec_name(),
            final(self).spec_config() == old(self).spec_config(),
            persisted == old(self).spec_config().enable_persistence,
    {
        self.messages.clear();
        self.consumer_offsets.clear();
        assert(self.entries() =~= Seq::<QueueEntry>::empty());
        self.config.enable_persistence
    }

    /// The queue's name.
    pub fn name(&self) -> (n: &str)
        ensures
            n@ == self.spec_name(),
    {
        self.name.as_str()
    }

    /// The queue's configuration.
    pub fn config(&self) -> (c: &QueueConfig)
        ensures
            *c == self.spec_config(),
    {
        &self.config
    }

    /// Append a message at `now`. It gets the next offset as its offset and
    /// message ID. A full queue refuses it.
    pub fn produce_at(&mut self, message: Message, now: Timestamp) -> (r: Result<Offset>)
        requires
            old(self).wf(),
            old(self).next() < u64::MAX,
            message.wf(),
        ensures
            old(self).produced_into(final(self), message@, now, r),
            final(self).wf(),
            final(self).spec_name() == old(self).spec_name(),
            final(self).spec_config() == old(self).spec_config(),
            final(self).offsets() == old(self).offsets(),
            if old(self).entries().len() >= old(self).spec_config().max_size {
                &&& r matches Err(Error::QueueFull(n)) && n@ == old(self).spec_name()
                &&& final(self).entries() == old(self).entries()
                &&& final(self).next() == old(self).next()
                &&& final(self).spec_stats() == old(self).spec_stats()
            } else {
                &&& r == Ok::<Offset, Error>(Offset(old(self).next()))
                &&& final(self).next() == old(self).next() + 1
                &&& final(self).entries() == old(self).entries().push(
                    fresh_entry(
                        MessageView { message_id: old(self).next(), ..message@ },
                        old(self).next(),
                        now,
                    ),
                )
                &&& final(self).spec_stats() == produce_stats(
                    old(self).spec_stats(),
                    message@.size as nat,
                    message@.timestamp,
                )
            },
    {
        if self.messages.len() >= self.config.max_size {
            return Err(Error::QueueFull(self.name.clone()));
        }
        let offset = self.next_offset;
        self.next_offset = self.next_offset.increment();
        let mut message = message;
        message.metadata.message_id = offset.value();
        let size = message.size();
        let t = message.timestamp();
        let queue_message = QueueMessage::new_at(message, offset, now);
        let ghost old_messages = self.messages@;
        self.messages.push(queue_message);
        self.stats = update_produce_stats(self.stats, size, t);
        assert(self.entries() =~= old(self).entries().push(queue_message@));
        assert forall|i: int| 0 <= i < self.messages@.len() implies (#[trigger] self.messages@[
            i]).message.wf() by {
            if i < old_messages.len() {
                assert(self.messages@[i] == old_messages[i]);
            }
        }
        Ok(offset)
    }

    /// Append a message now.
    pub fn produce(&mut self, message: Message) -> (r: Result<Offset>)
        requires
            old(self).wf(),
            old(self).next() < u64::MAX,
            message.wf(),
        ensures
            final(self).wf(),
            if old(self).entries().len() >= old(self).spec_config().max_size {
                &&& r matches Err(Error::QueueFull(n)) && n@ == old(self).spec_name()
                &&& final(self).entries() == old(self).entries()
            } else {
                &&& r == Ok::<Offset, Error>(Offset(old(self).next()))
                &&& final(self).next() == old(self).next() + 1
                &&& final(self).entries().len() == old(self).entries().len() + 1
                &&& final(self).entries().last().offset == old(self).next()
            },
            exists|now: Timestamp| #[trigger] old(self).produced_into(final(self), message@, now, r),
    {
        self.produce_at(message, Timestamp::now())
    }

    /// Hand the first message visible at `now` to `consumer_id`: it is
    /// marked delivered to that consumer and hidden for the visibility
    /// timeout, and the consumer's offset becomes its offset.
    pub fn consume_at(&mut self, consumer_id: &str, now: Timestamp) -> (r: Result<
        Option<Message>,
    >)
        requires
            old(self).wf(),
            first_visible(old(self).entries(), now) matches Some(i) ==> old(
                self,
            ).entries()[i].delivery_count < u32::MAX && old(self).spec_stats().total_consumed
                < u64::MAX,
        ensures
            old(self).consumed_from(final(self), consumer_id@, now, r),
            final(self).wf(),
            final(self).spec_name() == old(self).spec_name(),
            final(self).spec_config() == old(self).spec_config(),
            final(self).next() == old(self).next(),
            match first_visible(old(self).entries(), now) {
                None => {
                    &&& r matches Ok(None)
                    &&& final(self).entries() == old(self).entries()
                    &&& final(self).offsets() == old(self).offsets()
                    &&& final(self).spec_stats() == old(self).spec_stats()
                },
                Some(i) => {
                    &&& r matches Ok(Some(m)) && m@ == old(self).entries()[i].message && m.wf()
                    &&& final(self).entries() == old(self).entries().update(
                        i,
                        delivered(
                            old(self).entries()[i],
                            consumer_id@,
                            duration_nanos(old(self).spec_config().visibility_timeout),
                            now,
                        ),
                    )
                    &&& final(self).offsets() == old(self).offsets().insert(
                        consumer_id@,
                        Offset(old(self).entries()[i].offset),
                    )
                    &&& final(self).spec_stats() == (QueueStats {
                        total_consumed: (old(self).spec_stats().total_consumed + 1) as u64,
                        ..old(self).spec_stats()
                    })
                },
            },
    {
        let mut i: usize = 0;
        while i < self.messages.len()
            invariant
                i <= self.messages@.len(),
                *self == *old(self),
                old(self).wf(),
                first_visible(old(self).entries(), now) matches Some(i) ==> old(
                    self,
                ).entries()[i].delivery_count < u32::MAX && old(self).spec_stats().total_consumed
                    < u64::MAX,
                forall|j: int| 0 <= j < i ==> !visible(#[trigger] self.entries()[j], now),
            decreases self.messages.len() - i,
        {
            assert(self.entries()[i as int] == self.messages@[i as int]@);
            if self.messages[i].is_visible_at(now) {
                let ghost entries = old(self).entries();
                proof {
                    assert(is_first_visible(entries, now, i as int));
                    assert forall|k: int| #[trigger] is_first_visible(entries, now, k) implies k
                        == i as int by {
                        if k < i {
                            assert(!visible(entries[k], now));
                        }
                        if k > i {
                            assert(!visible(entries[i as int], now));
                        }
                    }
                }
                let mut qm = self.messages[i].clone();
                qm.mark_delivered_at(consumer_id.to_owned(), self.config.visibility_timeout, now);
                let message = qm.message.clone();
                let offset = qm.offset;
                let ghost old_messages = self.messages@;
                self.messages.set(i, qm);
                self.consumer_offsets.insert(consumer_id.to_owned(), offset);
                self.stats.total_consumed = self.stats.total_consumed + 1;
                assert(self.entries() =~= entries.update(i as int, qm@));
                assert forall|a: int| 0 <= a < self.messages@.len() implies (#[trigger] self.messages@[
                    a]).message.wf() by {
                    if a != i {
                        assert(self.messages@[a] == old_messages[a]);
                    }
                }
                assert forall|a: int, b: int|
                    0 <= a < b < self.messages@.len() implies (#[trigger] self.messages@[a]).offset.0
                    < (#[trigger] self.messages@[b]).offset.0 by {
                    assert(old_messages[a].offset.0 < old_messages[b].offset.0);
                }
                return Ok(Some(message));
            }
            i = i + 1;
        }
        proof {
            let entries = old(self).entries();
            assert forall|k: int| !is_first_visible(entries, now, k) by {
                if 0 <= k < entries.len() {
                    assert(!visible(self.entries()[k], now));
                }
            }
        }
        Ok(None)
    }

    /// Hand the first message visible now to `consumer_id`.
    pub fn consume(&mut self, consumer_id: &str) -> (r: Result<Option<Message>>)
        requires
            old(self).wf(),
            forall|i: int|
                0 <= i < old(self).entries().len() ==> (#[trigger] old(self).entries()[i]).delivery_count
                    < u32::MAX,
            old(self).spec_stats().total_consumed < u64::MAX,
        ensures
            final(self).wf(),
            r is Ok,
            final(self).entries().len() == old(self).entries().len(),
            final(self).next() == old(self).next(),
            exists|now: Timestamp| #[trigger] old(self).consumed_from(final(self), consumer_id@, now, r),
    {
        let now = Timestamp::now();
        proof {
            if let Some(i) = first_visible(old(self).entries(), now) {
                assert(is_first_visible(old(self).entries(), now, i));
            }
        }
        self.consume_at(consumer_id, now)
    }

    /// Acknowledge the message at `offset`: it leaves the queue. An unknown
    /// offset changes nothing. A message delivered at least the maximum
    /// number of times would go to the dead letter queue, which only logs.
    pub fn acknowledge(&mut self, consumer_id: &str, offset: Offset) -> (r: Result<()>)
        requires
            old(self).wf(),
        ensures
            final(self).wf(),
            r is Ok,
            final(self).spec_name() == old(self).spec_name(),
            final(self).spec_config() == old(self).spec_config(),
            final(self).next() == old(self).next(),
            final(self).offsets() == old(self).offsets(),
            final(self).spec_stats() == old(self).spec_stats(),
            match position_of(old(self).entries(), offset.0) {
                Some(p) => final(self).entries() == old(self).entries().remove(p),
                None => final(self).entries() == old(self).entries(),
            },
    {
        let ghost entries = old(self).entries();
        let mut i: usize = 0;
        while i < self.messages.len()
            invariant
                i <= self.messages@.len(),
                *self == *old(self),
                old(self).wf(),
                entries == old(self).entries(),
                forall|j: int| 0 <= j < i ==> (#[trigger] self.entries()[j]).offset != offset.0,
            decreases self.messages.len() - i,
        {
            assert(self.entries()[i as int] == self.messages@[i as int]@);
            if self.messages[i].offset.0 == offset.0 {
                proof {
                    let p = position_of(entries, offset.0);
                    assert(entries[i as int].offset == offset.0);
                    let c = choose|k: int| 0 <= k < entries.len() && entries[k].offset == offset.0;
                    if c < i {
                        assert(entries[c].offset != offset.0);
                    }
                    if c > i {
                        assert(self.entries()[c] == self.messages@[c]@);
                        assert(self.messages@[i as int].offset.0 < self.messages@[c].offset.0);
                    }
                    assert(p == Some(i as int));
                }
                let ghost old_messages = self.messages@;
                let _queue_message = self.messages.remove(i);
                assert(self.entries() =~= entries.remove(i as int));
                assert forall|a: int| 0 <= a < self.messages@.len() implies (#[trigger] self.messages@[
                    a]).message.wf() by {
                    if a < i {
                        assert(self.messages@[a] == old_messages[a]);
                    } else {
                        assert(self.messages@[a] == old_messages[a + 1]);
                    }
                }
                assert forall|a: int| 0 <= a < self.messages@.len() implies (#[trigger] self.messages@[
                    a]).offset.0 < self.next_offset.0 by {
                    if a < i {
                        assert(self.messages@[a] == old_messages[a]);
                    } else {
                        assert(self.messages@[a] == old_messages[a + 1]);
                    }
                }
                assert forall|a: int, b: int|
                    0 <= a < b < self.messages@.len() implies (#[trigger] self.messages@[a]).offset.0
                    < (#[trigger] self.messages@[b]).offset.0 by {
                    let a0 = if a < i {
                        a
                    } else {
                        a + 1
                    };
                    let b0 = if b < i {
                        b
                    } else {
                        b + 1
                    };
                    assert(self.messages@[a] == old_messages[a0]);
                    assert(self.messages@[b] == old_messages[b0]);
                    assert(old_messages[a0].offset.0 < old_messages[b0].offset.0);
                }
                return Ok(());
            }
            i = i + 1;
        }
        proof {
            assert(!(exists|k: int| 0 <= k < entries.len() && entries[k].offset == offset.0)) by {
                assert forall|k: int| 0 <= k < entries.len() implies entries[k].offset
                    != offset.0 by {
                    assert(self.entries()[k].offset != offset.0);
                }
            }
        }
        Ok(())
    }

    /// The offset last handed to `consumer_id`.
    pub fn get_consumer_offset(&self, consumer_id: &str) -> (r: Option<Offset>)
        requires
            self.wf(),
        ensures
            r == if self.offsets().contains_key(consumer_id@) {
                Some(self.offsets()[consumer_id@])
            } else {
                None
            },
    {
        match self.consumer_offsets.get(consumer_id) {
            Some(o) => Some(*o),
            None => None,
        }
    }

    /// Set the offset of `consumer_id`.
    pub fn set_consumer_offset(&mut self, consumer_id: &str, offset: Offset) -> (r: Result<()>)
        requires
            old(self).wf(),
        ensures
            final(self).wf(),
            r is Ok,
            final(self).offsets() == old(self).offsets().insert(consumer_id@, offset),
            final(self).entries() == old(self).entries(),
            final(self).next() == old(self).next(),
            final(self).spec_stats() == old(self).spec_stats(),
            final(self).spec_name() == old(self).spec_name(),
            final(self).spec_config() == old(self).spec_config(),
    {
        self.consumer_offsets.insert(consumer_id.to_owned(), offset);
        Ok(())
    }

    /// The queue's statistics, with its current size.
    pub fn get_stats(&self) -> (s: QueueStats)
        ensures
            s == (QueueStats { current_size: self.entries().len() as usize, ..self.spec_stats() }),
    {
        QueueStats {
            total_produced: self.stats.total_produced,
            total_consumed: self.stats.total_consumed,
            total_failed: self.stats.total_failed,
            current_size: self.messages.len(),
            avg_message_size: self.stats.avg_message_size,
            oldest_message: self.stats.oldest_message,
            newest_message: self.stats.newest_message,
        }
    }

    /// Remove the messages older than the retention period at `now`.
    pub fn cleanup_expired_messages_at(&mut self, now: Timestamp) -> (r: Result<()>)
        requires
            old(self).wf(),
        ensures
            final(self).wf(),
            r is Ok,
            final(self).entries() == unexpired(
                old(self).entries(),
                now,
                duration_nanos(old(self).spec_config().retention),
            ),
            final(self).offsets() == old(self).offsets(),
            final(self).next() == old(self).next(),
            final(self).spec_stats() == old(self).spec_stats(),
            final(self).spec_name() == old(self).spec_name(),
            final(self).spec_config() == old(self).spec_config(),
    {
        let retention = duration_as_nanos(&self.config.retention);
        let ghost pred = |e: QueueEntry| age(now, e.message.timestamp) <= retention;
        let ghost entries = old(self).entries();
        let ghost mut idx: Seq<int> = Seq::empty();
        let mut kept: Vec<QueueMessage> = Vec::new();
        let mut i: usize = 0;
        while i < self.messages.len()
            invariant
                i <= self.messages@.len(),
                self.messages@ == old(self).messages@,
                entries == old(self).entries(),
                retention == duration_nanos(old(self).spec_config().retention),
                pred == (|e: QueueEntry| age(now, e.message.timestamp) <= retention),
                kept@.map_values(|m: QueueMessage| m@) == entries.take(i as int).filter(pred),
                idx.len() == kept@.len(),
                old(self).wf(),
                forall|a: int|
                    0 <= a < kept@.len() ==> 0 <= #[trigger] idx[a] < i && kept@[a]@
                        == self.messages@[idx[a]]@ && kept@[a].message.wf(),
                forall|a: int, b: int| 0 <= a < b < idx.len() ==> #[trigger] idx[a] < #[trigger] idx[b],
            decreases self.messages.len() - i,
        {
            reveal_with_fuel(Seq::<_>::filter, 1);
            let t = self.messages[i].message.timestamp();
            let a: u128 = if now.0 >= t.0 {
                (now.0 - t.0) as u128
            } else {
                0
            };
            let ghost before = kept@;
            if a <= retention {
                let qm = self.messages[i].clone();
                kept.push(qm);
                proof {
                    idx = idx.push(i as int);
                }
            }
            assert(entries.take(i + 1).drop_last() =~= entries.take(i as int));
            assert(entries.take(i + 1).last() == self.messages@[i as int]@);
            assert(kept@.map_values(|m: QueueMessage| m@) =~= entries.take(i + 1).filter(pred))
                by {
                if a <= retention {
                    assert(kept@.map_values(|m: QueueMessage| m@) =~= before.map_values(
                        |m: QueueMessage| m@,
                    ).push(self.messages@[i as int]@));
                }
            }
            i = i + 1;
        }
        assert(entries.take(i as int) =~= entries);
        let ghost old_messages = self.messages@;
        self.messages = kept;
        proof {
            assert forall|x: int| 0 <= x < self.messages@.len() implies (#[trigger] self.messages@[
                x]).message.wf() && self.messages@[x].offset.0 < self.next_offset.0 by {
                assert(self.messages@[x]@ == old_messages[idx[x]]@);
            }
            assert forall|x: int, y: int|
                0 <= x < y < self.messages@.len() implies (#[trigger] self.messages@[x]).offset.0
                < (#[trigger] self.messages@[y]).offset.0 by {
                assert(idx[x] < idx[y]);
                assert(self.messages@[x]@ == old_messages[idx[x]]@);
                assert(self.messages@[y]@ == old_messages[idx[y]]@);
            }
            entries.lemma_filter_len(pred);
            assert(self.entries() == kept@.map_values(|m: QueueMessage| m@));
        }
        Ok(())
    }

    /// Remove the messages older than the retention period now.
    pub fn cleanup_expired_messages(&mut self) -> (r: Result<()>)
        requires
            old(self).wf(),
        ensures
            final(self).wf(),
            r is Ok,
            final(self).entries().len() <= old(self).entries().len(),
            final(self).next() == old(self).next(),
            exists|now: Timestamp| #[trigger] old(self).cleaned(final(self), now),
    {
        let now = Timestamp::now();
        let r = self.cleanup_expired_messages_at(now);
        proof {
            let retention = duration_nanos(old(self).spec_config().retention);
            old(self).entries().lemma_filter_len(
                |e: QueueEntry| age(now, e.message.timestamp) <= retention,
            );
            assert(old(self).cleaned(final(self), now));
        }
        r
    }
}

/// A message handed to a consumer stays hidden: until its visibility
/// timeout passes, a later consume does not hand it out again.
pub proof fn lemma_delivered_message_hidden(
    entries: Seq<QueueEntry>,
    now: Timestamp,
    consumer: Seq<char>,
    timeout: u128,
    later: Timestamp,
)
    requires
        first_visible(entries, now) is Some,
        later.0 < later_by(now, timeout).0,
    ensures
        ({
            let i = first_visible(entries, now)->0;
            let next = entries.update(i, delivered(entries[i], consumer, timeout, now));
            first_visible(next, later) != Some(i)
        }),
{
    let i = first_visible(entries, now)->0;
    assert(is_first_visible(entries, now, i));
    let next = entries.update(i, delivered(entries[i], consumer, timeout, now));
    if first_visible(next, later) == Some(i) {
        assert(is_first_visible(next, later, i));
        assert(!visible(next[i], later));
    }
}

/// With no first visible entry, no entry before `k` is visible.
pub proof fn lemma_none_visible(entries: Seq<QueueEntry>, now: Timestamp, k: int)
    requires
        first_visible(entries, now) is None,
        0 <= k <= entries.len(),
    ensures
        forall|j: int| 0 <= j < k ==> !visible(#[trigger] entries[j], now),
    decreases k,
{
    if k > 0 {
        lemma_none_visible(entries, now, k - 1);
        if visible(entries[k - 1], now) {
            assert(is_first_visible(entries, now, k - 1));
        }
    }
}

/// What a read gives back of a write: when no message of a queue is
/// visible, a message produced at `now` is the one a consumer gets at `now`
/// or later, stamped with its offset.
pub proof fn lemma_queue_delivers_produced(
    q1: Queue,
    q2: Queue,
    q3: Queue,
    m: MessageView,
    now: Timestamp,
    later: Timestamp,
    consumer: Seq<char>,
    produced: Result<Offset>,
    r: Result<Option<Message>>,
)
    requires
        first_visible(q1.entries(), later) is None,
        now.0 <= later.0,
        q1.produced_into(&q2, m, now, produced),
        produced is Ok,
        q2.consumed_from(&q3, consumer, later, r),
    ensures
        r matches Ok(Some(x)) && x@ == (MessageView { message_id: q1.next(), ..m }),
        produced == Ok::<Offset, Error>(Offset(q1.next())),
{
    let n = q1.entries().len();
    let e = fresh_entry(MessageView { message_id: q1.next(), ..m }, q1.next(), now);
    assert(q2.entries()[n as int] == e);
    lemma_none_visible(q1.entries(), later, n as int);
    assert forall|j: int| 0 <= j < n implies !visible(#[trigger] q2.entries()[j], later) by {
        assert(q2.entries()[j] == q1.entries()[j]);
    }
    assert(is_first_visible(q2.entries(), later, n as int));
    let i = first_visible(q2.entries(), later)->0;
    assert(is_first_visible(q2.entries(), later, i));
    assert(i == n as int);
}

} // verus!
