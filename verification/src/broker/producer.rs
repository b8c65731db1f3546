//! Producers: they send messages to the broker's queues and topics, one at
//! a time or in batches, and count what they sent.

use vstd::prelude::*;
use std::time::Duration;
use crate::broker::error::{Error, Result};
use crate::broker::message::{Message, MessageView, Offset};
use crate::broker::precursor::PrecursorBroker;
use crate::broker::topic::{TopicConfig, is_default_topic_config, partition_for, zero_partition_stats};
use crate::broker::time::{duration_from_millis, duration_from_secs, duration_nanos};
use crate::qiss::types::Timestamp;

verus! {

/// Producer configuration.
#[derive(Debug)]
pub struct ProducerConfig {
    /// Producer ID
    pub producer_id: String,
    /// Client ID
    pub client_id: String,
    /// Acks configuration
    pub acks: AcksConfig,
    /// Retries
    pub retries: u32,
    /// Retry backoff
    pub retry_backoff: Duration,
    /// Batch size
    pub batch_size: usize,
    /// Linger time
    pub linger: Duration,
    /// Buffer memory
    pub buffer_memory: usize,
    /// Compression type
    pub compression_type: Option<CompressionType>,
    /// Max request size
    pub max_request_size: usize,
    /// Request timeout
    pub request_timeout: Duration,
    /// Delivery timeout
    pub delivery_timeout: Duration,
}

impl Default for ProducerConfig {
    fn default() -> (c: Self)
        ensures
            c.producer_id@ == "producer-1"@,
            c.client_id@ == "client-1"@,
            c.acks == AcksConfig::All,
            c.retries == 3,
            duration_nanos(c.retry_backoff) == 100 * 1_000_000,
            c.batch_size == 16384,
            duration_nanos(c.linger) == 0,
            c.buffer_memory == 32 * 1024 * 1024,
            c.compression_type is None,
            c.max_request_size == 1024 * 1024,
            duration_nanos(c.request_timeout) == 30 * 1_000_000_000,
            duration_nanos(c.delivery_timeout) == 120 * 1_000_000_000,
    {
        ProducerConfig {
            producer_id: "producer-1".to_string(),
            client_id: "client-1".to_string(),
            acks: AcksConfig::All,
            retries: 3,
            retry_backoff: duration_from_millis(100),
            batch_size: 16384,
            linger: duration_from_millis(0),
            buffer_memory: 32 * 1024 * 1024,
            compression_type: None,
            max_request_size: 1024 * 1024,
            request_timeout: duration_from_secs(30),
            delivery_timeout: duration_from_secs(120),
        }
    }
}

/// Acks configuration.
#[derive(Debug, Clone, Copy, PartialEq, Eq, Structural)]
pub enum AcksConfig {
    /// No acknowledgment required
    NoAcks,
    /// Acknowledgment from leader only
    Leader,
    /// Acknowledgment from all replicas
    All,
}

/// Compression type.
#[derive(Debug, Clone, Copy, PartialEq, Eq, Structural)]
pub enum CompressionType {
    /// No compression
    Uncompressed,
    /// GZIP compression
    Gzip,
    /// LZ4 compression
    Lz4,
    /// Snappy compression
    Snappy,
}

/// Producer statistics.
#[derive(Debug, Clone, Copy)]
pub struct ProducerStats {
    /// Total messages sent
    pub total_messages: u64,
    /// Total bytes sent
    pub total_bytes: u64,
    /// Total errors
    pub total_errors: u64,
    /// Last send time
    pub last_send_time: Option<Timestamp>,
    /// Current batch size
    pub current_batch_size: usize,
}

/// The total size of the messages.
pub open spec fn total_size(ms: Seq<MessageView>) -> nat
    decreases ms.len(),
{
    if ms.len() == 0 {
        0
    } else {
        total_size(ms.drop_last()) + ms.last().size as nat
    }
}

/// The views of a sequence of messages.
pub open spec fn views(ms: Seq<Message>) -> Seq<MessageView> {
    ms.map_values(|m: Message| m@)
}

/// `trace` runs from one broker state to the next by producing the
/// messages to topic `name`, the offsets (or the error) being
/// the results.
pub open spec fn produce_trace(trace: Seq<PrecursorBroker>, name: Seq<char>, ms: Seq<MessageView>, results: Seq<Result<Offset>>) -> bool {
    &&& trace.len() == ms.len() + 1
    &&& results.len() == ms.len()
    &&& forall|i: int| 0 <= i < ms.len() ==> #[trigger] trace[i].topic_produce_step(&trace[i + 1], name, ms[i], results[i])
}

/// Each offset as a success.
pub open spec fn oks(offsets: Seq<Offset>) -> Seq<Result<Offset>> {
    offsets.map_values(|o: Offset| Ok::<Offset, Error>(o))
}

/// Producing `ms` in order to topic `name` led from `before` to
/// `after`, every message being stored at the offset given for it.
pub open spec fn sent_all(before: PrecursorBroker, after: PrecursorBroker, name: Seq<char>, ms: Seq<MessageView>, offsets: Seq<Offset>) -> bool {
    &&& offsets.len() == ms.len()
    &&& exists|trace: Seq<PrecursorBroker>|
        #[trigger] produce_trace(trace, name, ms, oks(offsets))
        && trace[0] == before && trace.last() == after
}

/// Producing `ms` in order to topic `name` led from `before` to
/// `after`: the first `k` messages were stored and message `k` failed with
/// `e`, where the sending stopped.
pub open spec fn sent_until_error(before: PrecursorBroker, after: PrecursorBroker, name: Seq<char>, ms: Seq<MessageView>, k: int, e: Error) -> bool {
    &&& 0 <= k < ms.len()
    &&& exists|trace: Seq<PrecursorBroker>, results: Seq<Result<Offset>>|
        #[trigger] produce_trace(trace, name, ms.take(k + 1), results)
        && trace[0] == before && trace.last() == after
        && (forall|i: int| 0 <= i < k ==> (#[trigger] results[i]) is Ok) && results[k] == Err::<Offset, Error>(e)
}

/// The statistics after the messages `ms` were sent at `now`.
pub open spec fn after_sending(s: ProducerStats, ms: Seq<MessageView>, now: Timestamp) -> ProducerStats {
    if ms.len() == 0 {
        s
    } else {
        ProducerStats {
            total_messages: (s.total_messages + ms.len()) as u64,
            total_bytes: (s.total_bytes + total_size(ms)) as u64,
            last_send_time: Some(now),
            ..s
        }
    }
}

/// `ready` is `before` with a topic `default` to send a batch to: `before`
/// itself when it has one; else `before` with a fresh, empty topic
/// `default` made from the default topic configuration.
pub open spec fn default_topic_ready(before: PrecursorBroker, ready: PrecursorBroker) -> bool {
    if before.topic_map().contains_key("default"@) {
        ready == before
    } else {
        let t = ready.topic_map()["default"@];
        &&& ready.wf()
        &&& ready.topic_map().dom() == before.topic_map().dom().insert("default"@)
        &&& forall|k: Seq<char>| k != "default"@ && #[trigger] before.topic_map().contains_key(k) ==> ready.topic_map()[k] == before.topic_map()[k]
        &&& ready.same_but_topics(&before)
        &&& ready.produced() == before.produced()
        &&& ready.consumed() == before.consumed()
        &&& t.spec_name() == "default"@
        &&& is_default_topic_config(t.spec_config())
        &&& t.parts().len() == 1
        &&& t.spec_stats().total_produced == 0
        &&& t.spec_stats().total_consumed == 0
        &&& t.rotation() == 0
        &&& t.parts()[0].messages().len() == 0
        &&& t.parts()[0].next() == 0
        &&& t.parts()[0].spec_stats() == zero_partition_stats()
        &&& forall|g: Seq<char>, c: Seq<char>| #[trigger] t.parts()[0].group_offset(g, c) == 0
    }
}

/// What sending the batch `ms` to topic `default` at `now` did: the topic
/// was made ready (see `default_topic_ready`), the broker went on from there
/// to `after`, the statistics from `s` to `t`, and `r` reports the first
/// failure.
pub open spec fn batch_sent(before: PrecursorBroker, after: PrecursorBroker, ms: Seq<MessageView>, now: Timestamp, s: ProducerStats, t: ProducerStats, r: Result<()>) -> bool {
    &&& after.wf()
    &&& exists|ready: PrecursorBroker| #[trigger] default_topic_ready(before, ready) && match r {
        Ok(_) => (exists|offsets: Seq<Offset>| #[trigger] sent_all(ready, after, "default"@, ms, offsets))
            && t == after_sending(s, ms, now),
        Err(e) => exists|k: int| #[trigger] sent_until_error(ready, after, "default"@, ms, k, e)
            && t == after_sending(s, ms.take(k), now),
    }
}

/// Producer.
pub struct Producer {
    config: ProducerConfig,
    stats: ProducerStats,
    batch: Vec<Message>,
    running: bool,
}

impl Producer {
    /// The configuration.
    pub closed spec fn spec_config(&self) -> ProducerConfig {
        self.config
    }

    /// The statistics kept so far.
    pub closed spec fn spec_stats(&self) -> ProducerStats {
        self.stats
    }

    /// The messages waiting in the batch.
    pub closed spec fn pending(&self) -> Seq<MessageView> {
        views(self.batch@)
    }

    /// Whether the producer runs.
    pub closed spec fn is_running(&self) -> bool {
        self.running
    }

    /// `next` and `after` are this producer and the broker after `m` was sent to
    /// queue `name` at `now` with result `r` (see `send_to_queue_at`).
    pub open spec fn sent_to_queue(&self, next: &Producer, before: &PrecursorBroker, after: &PrecursorBroker, name: Seq<char>, m: MessageView, now: Timestamp, r: Result<Offset>) -> bool {
        &&& before.queue_produce_step(after, name, m, now, r)
        &&& next.spec_config() == self.spec_config()
        &&& next.pending() == self.pending()
        &&& next.is_running() == self.is_running()
        &&& next.spec_stats() == if r is Ok {
            after_sending(self.spec_stats(), seq![m], now)
        } else {
            self.spec_stats()
        }
    }

    /// `next` and `after` are this producer and the broker after `m` was sent to
    /// topic `name` at `now` with result `r` (see `send_to_topic_at`).
    pub open spec fn sent_to_topic(&self, next: &Producer, before: &PrecursorBroker, after: &PrecursorBroker, name: Seq<char>, m: MessageView, now: Timestamp, r: Result<Offset>) -> bool {
        &&& before.topic_produce_step(after, name, m, r)
        &&& next.spec_config() == self.spec_config()
        &&& next.pending() == self.pending()
        &&& next.is_running() == self.is_running()
        &&& next.spec_stats() == if r is Ok {
            after_sending(self.spec_stats(), seq![m], now)
        } else {
            self.spec_stats()
        }
    }

    /// `next` and `after` are this producer and the broker after the batch `ms`
    /// was sent at `now` with result `r` (see `send_batch_at`).
    pub open spec fn sent_batch(&self, next: &Producer, before: &PrecursorBroker, after: &PrecursorBroker, ms: Seq<MessageView>, now: Timestamp, r: Result<Vec<Offset>>) -> bool {
        &&& after.wf()
        &&& next.spec_config() == self.spec_config()
        &&& next.pending() == self.pending()
        &&& next.is_running() == self.is_running()
        &&& exists|ready: PrecursorBroker| #[trigger] default_topic_ready(*before, ready) && match r {
            Ok(offsets) => sent_all(ready, *after, "default"@, ms, offsets@)
                && next.spec_stats() == after_sending(self.spec_stats(), ms, now),
            Err(e) => exists|k: int| #[trigger] sent_until_error(ready, *after, "default"@, ms, k, e)
                && next.spec_stats() == after_sending(self.spec_stats(), ms.take(k), now)
        }
    }

    /// `next` and `after` are this producer and the broker after the batch was
    /// flushed at `now` with result `r` (see `flush_batch_at`).
    pub open spec fn flushed(&self, next: &Producer, before: &PrecursorBroker, after: &PrecursorBroker, now: Timestamp, r: Result<()>) -> bool {
        &&& next.spec_config() == self.spec_config()
        &&& next.is_running() == self.is_running()
        &&& next.pending().len() == 0
        &&& if self.pending().len() == 0 {
            &&& r is Ok
            &&& *after == *before
            &&& next.spec_stats() == self.spec_stats()
        } else {
            batch_sent(*before, *after, self.pending(), now,
                ProducerStats { current_batch_size: 0, ..self.spec_stats() }, next.spec_stats(), r)
        }
    }

    /// `next` and `after` are this producer and the broker after `m` was added
    /// to the batch at `now` with result `r` (see `add_to_batch_at`).
    pub open spec fn added_to_batch(&self, next: &Producer, before: &PrecursorBroker, after: &PrecursorBroker, m: MessageView, now: Timestamp, r: Result<()>) -> bool {
        &&& next.spec_config() == self.spec_config()
        &&& next.is_running() == self.is_running()
        &&& if self.pending().len() + 1 >= self.spec_config().batch_size {
            &&& next.pending().len() == 0
            &&& batch_sent(*before, *after, self.pending().push(m), now,
                ProducerStats { current_batch_size: 0, ..self.spec_stats() }, next.spec_stats(), r)
        } else {
            &&& r is Ok
            &&& *after == *before
            &&& next.pending() == self.pending().push(m)
            &&& next.spec_stats() == (ProducerStats { current_batch_size: (self.pending().len() + 1) as usize, ..self.spec_stats() })
        }
    }

    /// `next` and `after` are this producer and the broker after the producer
    /// was stopped at `now` with result `r` (see `stop_at`).
    pub open spec fn stopped(&self, next: &Producer, before: &PrecursorBroker, after: &PrecursorBroker, now: Timestamp, r: Result<()>) -> bool {
        &&& !next.is_running()
        &&& next.spec_config() == self.spec_config()
        &&& if !self.is_running() {
            &&& r matches Err(e) && e matches Error::Internal(s) && s@ == "Producer is not running"@
            &&& *after == *before
            &&& next.pending() == self.pending()
            &&& next.spec_stats() == self.spec_stats()
        } else if self.pending().len() == 0 {
            &&& r is Ok
            &&& *after == *before
            &&& next.pending().len() == 0
            &&& next.spec_stats() == self.spec_stats()
        } else {
            &&& next.pending().len() == 0
            &&& batch_sent(*before, *after, self.pending(), now,
                ProducerStats { current_batch_size: 0, ..self.spec_stats() }, next.spec_stats(), r)
        }
    }

    /// A stopped producer with nothing sent and nothing batched.
    pub fn new(config: ProducerConfig) -> (p: Self)
        ensures
            p.spec_config() == config,
            p.spec_stats() == (ProducerStats { total_messages: 0, total_bytes: 0, total_errors: 0, last_send_time: None, current_batch_size: 0 }),
            p.pending().len() == 0,
            !p.is_running(),
    {
        let p = Producer {
            config,
            stats: ProducerStats { total_messages: 0, total_bytes: 0, total_errors: 0, last_send_time: None, current_batch_size: 0 },
            batch: Vec::new(),
            running: false,
        };
        assert(p.pending() =~= Seq::<MessageView>::empty());
        p
    }

    /// The producer ID.
    pub fn id(&self) -> (s: &str)
        ensures
            s@ == self.spec_config().producer_id@,
    {
        self.config.producer_id.as_str()
    }

    /// Send `message` to queue `queue_name` of the broker at `now`; a sent
    /// message is counted.
    pub fn send_to_queue_at(&mut self, broker: &mut PrecursorBroker, queue_name: &str, message: Message, now: Timestamp) -> (r: Result<Offset>)
        requires
            old(broker).wf(),
            message.wf(),
            old(broker).produced() < u64::MAX,
            old(broker).queue_map().contains_key(queue_name@) ==> old(broker).queue_map()[queue_name@].next() < u64::MAX,
            old(self).spec_stats().total_messages < u64::MAX,
            old(self).spec_stats().total_bytes + message@.size <= u64::MAX,
        ensures
            old(self).sent_to_queue(final(self), old(broker), final(broker), queue_name@, message@, now, r),
    {
        let size = message.size();
        proof {
            lemma_total_size_single(message@);
            assert(Seq::<MessageView>::empty().push(message@) =~= seq![message@]);
            lemma_after_sending_push(self.stats, Seq::empty(), message@, now);
        }
        let offset = match broker.produce_to_queue_at(queue_name, message, now) {
            Ok(o) => o,
            Err(e) => return Err(e),
        };
        self.stats.total_messages = self.stats.total_messages + 1;
        self.stats.total_bytes = self.stats.total_bytes + size as u64;
        self.stats.last_send_time = Some(now);
        Ok(offset)
    }

    /// Send `message` to queue `queue_name` now (see `send_to_queue_at`).
    pub fn send_to_queue(&mut self, broker: &mut PrecursorBroker, queue_name: &str, message: Message) -> (r: Result<Offset>)
        requires
            old(broker).wf(),
            message.wf(),
            old(broker).produced() < u64::MAX,
            old(broker).queue_map().contains_key(queue_name@) ==> old(broker).queue_map()[queue_name@].next() < u64::MAX,
            old(self).spec_stats().total_messages < u64::MAX,
            old(self).spec_stats().total_bytes + message@.size <= u64::MAX,
        ensures
            exists|now: Timestamp| #[trigger] old(self).sent_to_queue(final(self), old(broker), final(broker), queue_name@, message@, now, r),
    {
        self.send_to_queue_at(broker, queue_name, message, Timestamp::now())
    }

    /// Send `message` to topic `topic_name` of the broker at `now`; a sent
    /// message is counted.
    pub fn send_to_topic_at(&mut self, broker: &mut PrecursorBroker, topic_name: &str, message: Message, now: Timestamp) -> (r: Result<Offset>)
        requires
            old(broker).wf(),
            old(broker).topic_room(topic_name@, 1),
            old(broker).topic_map().contains_key(topic_name@) ==> old(broker).topic_map()[topic_name@].spec_config().partition_count > 0,
            old(self).spec_stats().total_messages < u64::MAX,
            old(self).spec_stats().total_bytes + message@.size <= u64::MAX,
        ensures
            old(self).sent_to_topic(final(self), old(broker), final(broker), topic_name@, message@, now, r),
    {
        let size = message.size();
        proof {
            lemma_total_size_single(message@);
            assert(Seq::<MessageView>::empty().push(message@) =~= seq![message@]);
            lemma_after_sending_push(self.stats, Seq::empty(), message@, now);
        }
        let offset = match broker.produce_to_topic(topic_name, message) {
            Ok(o) => o,
            Err(e) => return Err(e),
        };
        self.stats.total_messages = self.stats.total_messages + 1;
        self.stats.total_bytes = self.stats.total_bytes + size as u64;
        self.stats.last_send_time = Some(now);
        Ok(offset)
    }

    /// Send `message` to topic `topic_name` now (see `send_to_topic_at`).
    pub fn send_to_topic(&mut self, broker: &mut PrecursorBroker, topic_name: &str, message: Message) -> (r: Result<Offset>)
        requires
            old(broker).wf(),
            old(broker).topic_room(topic_name@, 1),
            old(broker).topic_map().contains_key(topic_name@) ==> old(broker).topic_map()[topic_name@].spec_config().partition_count > 0,
            old(self).spec_stats().total_messages < u64::MAX,
            old(self).spec_stats().total_bytes + message@.size <= u64::MAX,
        ensures
            exists|now: Timestamp| #[trigger] old(self).sent_to_topic(final(self), old(broker), final(broker), topic_name@, message@, now, r),
    {
        self.send_to_topic_at(broker, topic_name, message, Timestamp::now())
    }

    /// Send the messages, in order, to the topic `default` at `now`,
    /// stopping at the first that fails. Where the broker has no topic
    /// `default`, one is first created with the default configuration.
    pub fn send_batch_at(&mut self, broker: &mut PrecursorBroker, messages: Vec<Message>, now: Timestamp) -> (r: Result<Vec<Offset>>)
        requires
            old(broker).wf(),
            old(broker).topic_room("default"@, messages@.len()),
            old(broker).topic_map().contains_key("default"@) ==> old(broker).topic_map()["default"@].spec_config().partition_count > 0,
            old(self).spec_stats().total_messages + messages@.len() <= u64::MAX,
            old(self).spec_stats().total_bytes + total_size(views(messages@)) <= u64::MAX,
        ensures
            old(self).sent_batch(final(self), old(broker), final(broker), views(messages@), now, r),
    {
        proof {
            reveal_strlit("default");
        }
        if !broker.has_topic("default") {
            let _ = broker.create_topic("default".to_string(), TopicConfig::default());
        }
        let ghost ready = *broker;
        proof {
            assert(default_topic_ready(*old(broker), ready));
            if !old(broker).topic_map().contains_key("default"@) {
                let t = ready.topic_map()["default"@];
                assert(t.has_room_for(messages@.len()));
            }
        }
        let ghost all = views(messages@);
        let ghost all_msgs = messages@;
        let n = messages.len();
        let mut rest = messages;
        let mut offsets: Vec<Offset> = Vec::new();
        let ghost mut trace: Seq<PrecursorBroker> = seq![*broker];
        let ghost mut results: Seq<Result<Offset>> = Seq::empty();
        let mut i: usize = 0;
        while i < n
            invariant
                n == all.len(),
                all == views(all_msgs),
                all_msgs == messages@,
                i <= n,
                rest@ == all_msgs.skip(i as int),
                broker.wf(),
                broker.topic_room("default"@, (n - i) as nat),
                broker.topic_map().contains_key("default"@) ==> broker.topic_map()["default"@].spec_config().partition_count > 0,
                self.spec_config() == old(self).spec_config(),
                self.pending() == old(self).pending(),
                self.is_running() == old(self).is_running(),
                self.spec_stats() == after_sending(old(self).spec_stats(), all.take(i as int), now),
                old(self).spec_stats().total_messages + n <= u64::MAX,
                old(self).spec_stats().total_bytes + total_size(all) <= u64::MAX,
                offsets@.len() == i,
                results == oks(offsets@),
                produce_trace(trace, "default"@, all.take(i as int), results),
                trace[0] == ready,
                default_topic_ready(*old(broker), ready),
                trace.last() == *broker,
            decreases n - i,
        {
            let m = rest.remove(0);
            proof {
                assert(m == all_msgs[i as int]);
                assert(rest@ =~= all_msgs.skip(i + 1));
                lemma_total_size_prefix(all, i as int + 1);
                assert(all.take(i + 1).drop_last() =~= all.take(i as int));
                assert(all.take(i + 1) =~= all.take(i as int).push(all[i as int]));
                lemma_after_sending_push(old(self).spec_stats(), all.take(i as int), all[i as int], now);
            }
            let ghost before = *broker;
            let ghost mv = m@;
            let r = self.send_to_topic_at(broker, "default", m, now);
            proof {
                if before.topic_map().contains_key("default"@) {
                    before.topic_map()["default"@].lemma_room_after_produce(
                        &broker.topic_map()["default"@],
                        partition_for(mv.partition_key, before.topic_map()["default"@].rotation(), before.topic_map()["default"@].spec_config().partition_count),
                        mv,
                        r,
                        (n - i - 1) as nat,
                    );
                }
            }
            match r {
                Ok(o) => {
                    proof {
                        let t2 = trace.push(*broker);
                        let r2 = results.push(Ok::<Offset, Error>(o));
                        assert forall|j: int| 0 <= j < i + 1 implies #[trigger] t2[j].topic_produce_step(&t2[j + 1], "default"@, all.take(i + 1)[j], r2[j]) by {
                            if j < i {
                                assert(t2[j] == trace[j] && t2[j + 1] == trace[j + 1] && r2[j] == results[j]);
                                assert(all.take(i + 1)[j] == all.take(i as int)[j]);
                            }
                        }
                        trace = t2;
                        results = r2;
                    }
                    offsets.push(o);
                    assert(results =~= oks(offsets@));
                },
                Err(e) => {
                    proof {
                        let t2 = trace.push(*broker);
                        let r2 = results.push(Err::<Offset, Error>(e));
                        assert forall|j: int| 0 <= j < i + 1 implies #[trigger] t2[j].topic_produce_step(&t2[j + 1], "default"@, all.take(i + 1)[j], r2[j]) by {
                            if j < i {
                                assert(t2[j] == trace[j] && t2[j + 1] == trace[j + 1] && r2[j] == results[j]);
                                assert(all.take(i + 1)[j] == all.take(i as int)[j]);
                            }
                        }
                        assert(produce_trace(t2, "default"@, all.take(i + 1), r2));
                        assert(forall|j: int| 0 <= j < i ==> (#[trigger] r2[j]) is Ok);
                        assert(sent_until_error(trace[0], *broker, "default"@, all, i as int, e));
                        assert(self.spec_stats() == after_sending(old(self).spec_stats(), all.take(i as int), now));
                        assert(sent_until_error(ready, *broker, "default"@, views(all_msgs), i as int, e)
                            && self.spec_stats() == after_sending(old(self).spec_stats(), views(all_msgs).take(i as int), now));
                    }
                    return Err(e);
                },
            }
            i = i + 1;
        }
        proof {
            assert(all.take(n as int) =~= all);
            assert(produce_trace(trace, "default"@, all, oks(offsets@)));
        }
        Ok(offsets)
    }

    /// Send the messages now (see `send_batch_at`).
    pub fn send_batch(&mut self, broker: &mut PrecursorBroker, messages: Vec<Message>) -> (r: Result<Vec<Offset>>)
        requires
            old(broker).wf(),
            old(broker).topic_room("default"@, messages@.len()),
            old(broker).topic_map().contains_key("default"@) ==> old(broker).topic_map()["default"@].spec_config().partition_count > 0,
            old(self).spec_stats().total_messages + messages@.len() <= u64::MAX,
            old(self).spec_stats().total_bytes + total_size(views(messages@)) <= u64::MAX,
        ensures
            exists|now: Timestamp| #[trigger] old(self).sent_batch(final(self), old(broker), final(broker), views(messages@), now, r),
    {
        self.send_batch_at(broker, messages, Timestamp::now())
    }

    /// Send the batched messages to topic `default` at `now`, as
    /// `send_batch_at` does; the batch is emptied first, so that messages
    /// after a failed one are dropped.
    pub fn flush_batch_at(&mut self, broker: &mut PrecursorBroker, now: Timestamp) -> (r: Result<()>)
        requires
            old(broker).wf(),
            old(broker).topic_room("default"@, old(self).pending().len()),
            old(broker).topic_map().contains_key("default"@) ==> old(broker).topic_map()["default"@].spec_config().partition_count > 0,
            old(self).spec_stats().total_messages + old(self).pending().len() <= u64::MAX,
            old(self).spec_stats().total_bytes + total_size(old(self).pending()) <= u64::MAX,
        ensures
            old(self).flushed(final(self), old(broker), final(broker), now, r),
    {
        if self.batch.len() == 0 {
            return Ok(());
        }
        let mut messages: Vec<Message> = Vec::new();
        std::mem::swap(&mut messages, &mut self.batch);
        self.stats.current_batch_size = 0;
        proof {
            assert(self.pending() =~= Seq::<MessageView>::empty());
        }
        match self.send_batch_at(broker, messages, now) {
            Ok(_) => Ok(()),
            Err(e) => Err(e),
        }
    }

    /// Flush the batch now (see `flush_batch_at`).
    pub fn flush_batch(&mut self, broker: &mut PrecursorBroker) -> (r: Result<()>)
        requires
            old(broker).wf(),
            old(broker).topic_room("default"@, old(self).pending().len()),
            old(broker).topic_map().contains_key("default"@) ==> old(broker).topic_map()["default"@].spec_config().partition_count > 0,
            old(self).spec_stats().total_messages + old(self).pending().len() <= u64::MAX,
            old(self).spec_stats().total_bytes + total_size(old(self).pending()) <= u64::MAX,
        ensures
            exists|now: Timestamp| #[trigger] old(self).flushed(final(self), old(broker), final(broker), now, r),
    {
        self.flush_batch_at(broker, Timestamp::now())
    }

    /// Add `message` to the batch; when the batch reaches the configured
    /// size it is flushed at `now`.
    pub fn add_to_batch_at(&mut self, broker: &mut PrecursorBroker, message: Message, now: Timestamp) -> (r: Result<()>)
        requires
            old(broker).wf(),
            old(broker).topic_room("default"@, old(self).pending().len() + 1),
            old(broker).topic_map().contains_key("default"@) ==> old(broker).topic_map()["default"@].spec_config().partition_count > 0,
            old(self).spec_stats().total_messages + old(self).pending().len() + 1 <= u64::MAX,
            old(self).spec_stats().total_bytes + total_size(old(self).pending().push(message@)) <= u64::MAX,
        ensures
            old(self).added_to_batch(final(self), old(broker), final(broker), message@, now, r),
    {
        let ghost m = message@;
        self.batch.push(message);
        self.stats.current_batch_size = self.batch.len();
        proof {
            assert(self.pending() =~= old(self).pending().push(m));
        }
        if self.batch.len() >= self.config.batch_size {
            self.flush_batch_at(broker, now)
        } else {
            Ok(())
        }
    }

    /// Add `message` to the batch, flushing a full batch now (see
    /// `add_to_batch_at`).
    pub fn add_to_batch(&mut self, broker: &mut PrecursorBroker, message: Message) -> (r: Result<()>)
        requires
            old(broker).wf(),
            old(broker).topic_room("default"@, old(self).pending().len() + 1),
            old(broker).topic_map().contains_key("default"@) ==> old(broker).topic_map()["default"@].spec_config().partition_count > 0,
            old(self).spec_stats().total_messages + old(self).pending().len() + 1 <= u64::MAX,
            old(self).spec_stats().total_bytes + total_size(old(self).pending().push(message@)) <= u64::MAX,
        ensures
            exists|now: Timestamp| #[trigger] old(self).added_to_batch(final(self), old(broker), final(broker), message@, now, r),
    {
        self.add_to_batch_at(broker, message, Timestamp::now())
    }

    /// The producer's statistics, with the number of batched messages.
    pub fn get_stats(&self) -> (s: ProducerStats)
        ensures
            s == (ProducerStats { current_batch_size: self.pending().len() as usize, ..self.spec_stats() }),
    {
        ProducerStats {
            total_messages: self.stats.total_messages,
            total_bytes: self.stats.total_bytes,
            total_errors: self.stats.total_errors,
            last_send_time: self.stats.last_send_time,
            current_batch_size: self.batch.len(),
        }
    }

    /// Start the producer; fails if it runs already.
    pub fn start(&mut self) -> (r: Result<()>)
        ensures
            final(self).is_running(),
            r is Err <==> old(self).is_running(),
            r matches Err(e) ==> e matches Error::Internal(s) && s@ == "Producer is already running"@,
            final(self).spec_config() == old(self).spec_config(),
            final(self).spec_stats() == old(self).spec_stats(),
            final(self).pending() == old(self).pending(),
    {
        if self.running {
            return Err(Error::Internal("Producer is already running".to_string()));
        }
        self.running = true;
        Ok(())
    }

    /// Stop the producer and flush its batch at `now`; fails if it is not
    /// running.
    pub fn stop_at(&mut self, broker: &mut PrecursorBroker, now: Timestamp) -> (r: Result<()>)
        requires
            old(broker).wf(),
            old(broker).topic_room("default"@, old(self).pending().len()),
            old(broker).topic_map().contains_key("default"@) ==> old(broker).topic_map()["default"@].spec_config().partition_count > 0,
            old(self).spec_stats().total_messages + old(self).pending().len() <= u64::MAX,
            old(self).spec_stats().total_bytes + total_size(old(self).pending()) <= u64::MAX,
        ensures
            old(self).stopped(final(self), old(broker), final(broker), now, r),
    {
        if !self.running {
            return Err(Error::Internal("Producer is not running".to_string()));
        }
        self.running = false;
        self.flush_batch_at(broker, now)
    }

    /// Stop the producer, flushing its batch now (see `stop_at`).
    pub fn stop(&mut self, broker: &mut PrecursorBroker) -> (r: Result<()>)
        requires
            old(broker).wf(),
            old(broker).topic_room("default"@, old(self).pending().len()),
            old(broker).topic_map().contains_key("default"@) ==> old(broker).topic_map()["default"@].spec_config().partition_count > 0,
            old(self).spec_stats().total_messages + old(self).pending().len() <= u64::MAX,
            old(self).spec_stats().total_bytes + total_size(old(self).pending()) <= u64::MAX,
        ensures
            exists|now: Timestamp| #[trigger] old(self).stopped(final(self), old(broker), final(broker), now, r),
    {
        self.stop_at(broker, Timestamp::now())
    }
}

/// Sending `ms` and then `m` counts as sending `ms` followed by `m`.
pub proof fn lemma_after_sending_push(s: ProducerStats, ms: Seq<MessageView>, m: MessageView, now: Timestamp)
    requires
        s.total_messages + ms.len() + 1 <= u64::MAX,
        s.total_bytes + total_size(ms.push(m)) <= u64::MAX,
    ensures
        after_sending(after_sending(s, ms, now), seq![m], now) == after_sending(s, ms.push(m), now),
{
    assert(ms.push(m).drop_last() =~= ms);
    lemma_total_size_single(m);
}

/// A single message's total size is its size.
pub proof fn lemma_total_size_single(m: MessageView)
    ensures
        total_size(seq![m]) == m.size,
        total_size(Seq::<MessageView>::empty().push(m)) == m.size,
{
    assert(seq![m].drop_last() =~= Seq::<MessageView>::empty());
    assert(Seq::<MessageView>::empty().push(m) =~= seq![m]);
    assert(total_size(Seq::<MessageView>::empty()) == 0);
}

/// The total size of a prefix stays within that of the whole.
pub proof fn lemma_total_size_prefix(ms: Seq<MessageView>, i: int)
    requires
        0 <= i <= ms.len(),
    ensures
        total_size(ms.take(i)) <= total_size(ms),
    decreases ms.len() - i,
{
    if i < ms.len() {
        lemma_total_size_prefix(ms, i + 1);
        assert(ms.take(i + 1).drop_last() =~= ms.take(i));
    } else {
        assert(ms.take(i) =~= ms);
    }
}

} // verus!
