//! The broker: its queues and topics by name, the producers and consumers
//! registered with it, and the statistics of what went through it.
//!
//! Storage, the cluster and the periodic tasks are the caller's; the broker
//! here holds what they act on.

use vstd::prelude::*;
use std::time::Duration;
use crate::broker::consumer::{Consumer, ConsumerConfig};
use crate::broker::error::{Error, Result};
use crate::broker::producer::{Producer, ProducerConfig, ProducerStats};
use crate::broker::message::{BrokerConfig, BrokerStats, ConsumerGroup, Message, MessageView, Offset};
use crate::broker::names::{NameMap, names_of};
use crate::broker::queue::{Queue, QueueConfig};
use crate::broker::replication::ReplicationManager;
use crate::broker::topic::{Topic, TopicConfig, partition_for, rotated};
use crate::broker::time::duration_nanos;
use crate::qiss::types::Timestamp;

verus! {

/// The Precursor broker.
pub struct PrecursorBroker {
    config: BrokerConfig,
    queues: NameMap<Queue>,
    topics: NameMap<Topic>,
    producers: NameMap<bool>,
    consumers: NameMap<bool>,
    consumer_groups: NameMap<ConsumerGroup>,
    replication: ReplicationManager,
    stats: BrokerStats,
    message_id_counter: u64,
}

/// The error says there is no queue `name`.
pub open spec fn is_queue_not_found(e: Error, name: Seq<char>) -> bool {
    e matches Error::QueueNotFound(s) && s@ == name
}

/// The error says there is no topic `name`.
pub open spec fn is_topic_not_found(e: Error, name: Seq<char>) -> bool {
    e matches Error::TopicNotFound(s) && s@ == name
}

impl PrecursorBroker {
    /// The configuration.
    pub closed spec fn spec_config(&self) -> BrokerConfig {
        self.config
    }

    /// The queues, by name.
    pub closed spec fn queue_map(&self) -> Map<Seq<char>, Queue> {
        self.queues.map()
    }

    /// The topics, by name.
    pub closed spec fn topic_map(&self) -> Map<Seq<char>, Topic> {
        self.topics.map()
    }

    /// The IDs of the registered producers.
    pub closed spec fn producer_ids(&self) -> Set<Seq<char>> {
        self.producers.map().dom()
    }

    /// The IDs of the registered consumers.
    pub closed spec fn consumer_ids(&self) -> Set<Seq<char>> {
        self.consumers.map().dom()
    }

    /// Messages produced through the broker.
    pub closed spec fn produced(&self) -> u64 {
        self.stats.total_messages_produced
    }

    /// Messages consumed through the broker.
    pub closed spec fn consumed(&self) -> u64 {
        self.stats.total_messages_consumed
    }

    /// The last message ID handed out.
    pub closed spec fn last_message_id(&self) -> u64 {
        self.message_id_counter
    }

    /// The counters of bytes produced and consumed, and the uptime, as
    /// kept in the statistics.
    pub closed spec fn byte_counts(&self) -> (u64, u64) {
        (self.stats.total_bytes_produced, self.stats.total_bytes_consumed)
    }

    /// The uptime recorded last.
    pub closed spec fn uptime(&self) -> Duration {
        self.stats.uptime
    }

    /// The number of consumer groups.
    pub closed spec fn group_count(&self) -> nat {
        self.consumer_groups.spec_len()
    }

    /// Whether the replication manager runs.
    pub closed spec fn replicating(&self) -> bool {
        self.replication.is_running()
    }

    /// The broker's invariant: every queue and topic is well formed.
    pub closed spec fn wf(&self) -> bool {
        &&& self.queues.wf()
        &&& self.topics.wf()
        &&& self.producers.wf()
        &&& self.consumers.wf()
        &&& self.consumer_groups.wf()
        &&& self.replication.wf()
        &&& forall|k: Seq<char>| #[trigger] self.queues.map().contains_key(k) ==> self.queues.map()[k].wf()
        &&& forall|k: Seq<char>| #[trigger] self.topics.map().contains_key(k) ==> self.topics.map()[k].wf()
    }

    /// The topic `name`, if there is one, can take `n` more messages in and
    /// out, and so can the broker's counters.
    pub open spec fn topic_room(&self, name: Seq<char>, n: nat) -> bool {
        &&& self.produced() + n <= u64::MAX
        &&& self.consumed() + n <= u64::MAX
        &&& self.topic_map().contains_key(name) ==> self.topic_map()[name].has_room_for(n)
    }

    /// Everything but the queues and the counters is as before.
    pub open spec fn same_but_queues(&self, other: &PrecursorBroker) -> bool {
        &&& self.spec_config() == other.spec_config()
        &&& self.topic_map() == other.topic_map()
        &&& self.producer_ids() == other.producer_ids()
        &&& self.consumer_ids() == other.consumer_ids()
        &&& self.last_message_id() == other.last_message_id()
        &&& self.replicating() == other.replicating()
    }

    /// Everything but the topics and the counters is as before.
    pub open spec fn same_but_topics(&self, other: &PrecursorBroker) -> bool {
        &&& self.spec_config() == other.spec_config()
        &&& self.queue_map() == other.queue_map()
        &&& self.producer_ids() == other.producer_ids()
        &&& self.consumer_ids() == other.consumer_ids()
        &&& self.last_message_id() == other.last_message_id()
        &&& self.replicating() == other.replicating()
    }

    /// `after` is the broker after producing `message` to topic `name` with
    /// result `r` (see `produce_to_topic`).
    pub open spec fn topic_produce_step(&self, after: &PrecursorBroker, name: Seq<char>, message: MessageView, r: Result<Offset>) -> bool {
        &&& after.wf()
        &&& after.same_but_topics(self)
        &&& after.consumed() == self.consumed()
        &&& if self.topic_map().contains_key(name) {
            let t = self.topic_map()[name];
            let count = t.spec_config().partition_count;
            &&& after.topic_map() == self.topic_map().insert(name, after.topic_map()[name])
            &&& t.produced_to(&after.topic_map()[name], partition_for(message.partition_key, t.rotation(), count), message, r)
            &&& after.topic_map()[name].rotation() == rotated(message.partition_key, t.rotation(), count)
            &&& after.produced() == if r is Ok { (self.produced() + 1) as u64 } else { self.produced() }
        } else {
            &&& r matches Err(e) && is_topic_not_found(e, name)
            &&& after.topic_map() == self.topic_map()
            &&& after.produced() == self.produced()
        }
    }

    /// `after` is the broker after `message` was produced to queue `name`
    /// at `now` with result `r` (see `produce_to_queue_at`).
    pub open spec fn queue_produce_step(&self, after: &PrecursorBroker, name: Seq<char>, message: MessageView, now: Timestamp, r: Result<Offset>) -> bool {
        &&& after.wf()
        &&& after.same_but_queues(self)
        &&& after.consumed() == self.consumed()
        &&& if self.queue_map().contains_key(name) {
            &&& after.queue_map() == self.queue_map().insert(name, after.queue_map()[name])
            &&& self.queue_map()[name].produced_into(&after.queue_map()[name], message, now, r)
            &&& after.produced() == if r is Ok { (self.produced() + 1) as u64 } else { self.produced() }
        } else {
            &&& r matches Err(e) && is_queue_not_found(e, name)
            &&& after.queue_map() == self.queue_map()
            &&& after.produced() == self.produced()
        }
    }

    /// `after` is the broker after `consumer` consumed from queue `name` at
    /// `now` with result `r` (see `consume_from_queue_at`).
    pub open spec fn queue_consume_step(&self, after: &PrecursorBroker, name: Seq<char>, consumer: Seq<char>, now: Timestamp, r: Result<Option<Message>>) -> bool {
        &&& after.wf()
        &&& after.same_but_queues(self)
        &&& after.produced() == self.produced()
        &&& if self.queue_map().contains_key(name) {
            &&& after.queue_map() == self.queue_map().insert(name, after.queue_map()[name])
            &&& self.queue_map()[name].consumed_from(&after.queue_map()[name], consumer, now, r)
            &&& after.consumed() == if r matches Ok(Some(_)) { (self.consumed() + 1) as u64 } else { self.consumed() }
        } else {
            &&& r matches Err(e) && is_queue_not_found(e, name)
            &&& after.queue_map() == self.queue_map()
            &&& after.consumed() == self.consumed()
        }
    }

    /// `after` is the broker after a consumer of a group consumed from a
    /// partition of topic `name` with result `r` (see `consume_from_topic`).
    pub open spec fn topic_consume_step(&self, after: &PrecursorBroker, name: Seq<char>, partition: i32, g: Seq<char>, c: Seq<char>, r: Result<Option<Message>>) -> bool {
        &&& after.wf()
        &&& after.same_but_topics(self)
        &&& after.produced() == self.produced()
        &&& if self.topic_map().contains_key(name) {
            &&& after.topic_map() == self.topic_map().insert(name, after.topic_map()[name])
            &&& self.topic_map()[name].consumed_at(&after.topic_map()[name], partition, g, c, r)
            &&& after.consumed() == if r matches Ok(Some(_)) { (self.consumed() + 1) as u64 } else { self.consumed() }
        } else {
            &&& r matches Err(e) && is_topic_not_found(e, name)
            &&& after.topic_map() == self.topic_map()
            &&& after.consumed() == self.consumed()
        }
    }

    /// A broker with no queues, topics, producers or consumers.
    pub fn new(config: BrokerConfig) -> (b: Self)
        ensures
            b.wf(),
            b.spec_config() == config,
            b.queue_map() == Map::<Seq<char>, Queue>::empty(),
            b.topic_map() == Map::<Seq<char>, Topic>::empty(),
            b.producer_ids() == Set::<Seq<char>>::empty(),
            b.consumer_ids() == Set::<Seq<char>>::empty(),
            b.produced() == 0,
            b.consumed() == 0,
            b.last_message_id() == 0,
            b.byte_counts() == (0u64, 0u64),
            b.group_count() == 0,
            duration_nanos(b.uptime()) == 0,
            !b.replicating(),
    {
        let replication = ReplicationManager::new(&config);
        let b = PrecursorBroker {
            config,
            queues: NameMap::new(),
            topics: NameMap::new(),
            producers: NameMap::new(),
            consumers: NameMap::new(),
            consumer_groups: NameMap::new(),
            replication,
            stats: BrokerStats::default(),
            message_id_counter: 0,
        };
        assert(b.producer_ids() =~= Set::<Seq<char>>::empty());
        assert(b.consumer_ids() =~= Set::<Seq<char>>::empty());
        b
    }

    /// Start the broker's replication when it is enabled; fails if it runs
    /// already.
    pub fn start(&mut self) -> (r: Result<()>)
        requires
            old(self).wf(),
        ensures
            final(self).wf(),
            final(self).queue_map() == old(self).queue_map(),
            final(self).topic_map() == old(self).topic_map(),
            old(self).spec_config().enable_replication ==> (r is Err <==> old(self).replicating()) && final(self).replicating(),
            !old(self).spec_config().enable_replication ==> r is Ok && final(self).replicating() == old(self).replicating(),
    {
        if self.config.enable_replication {
            match self.replication.start() {
                Ok(()) => {},
                Err(e) => return Err(e),
            }
        }
        Ok(())
    }

    /// Stop the broker's replication when it is enabled; fails if it does
    /// not run.
    pub fn stop(&mut self) -> (r: Result<()>)
        requires
            old(self).wf(),
        ensures
            final(self).wf(),
            final(self).queue_map() == old(self).queue_map(),
            final(self).topic_map() == old(self).topic_map(),
            old(self).spec_config().enable_replication ==> (r is Err <==> !old(self).replicating()) && !final(self).replicating(),
            !old(self).spec_config().enable_replication ==> r is Ok && final(self).replicating() == old(self).replicating(),
    {
        if self.config.enable_replication {
            match self.replication.stop() {
                Ok(()) => {},
                Err(e) => return Err(e),
            }
        }
        Ok(())
    }

    /// Create an empty queue `name`, replacing any queue of that name.
    pub fn create_queue(&mut self, name: String, config: QueueConfig) -> (r: Result<()>)
        requires
            old(self).wf(),
        ensures
            final(self).wf(),
            r is Ok,
            final(self).queue_map().dom() == old(self).queue_map().dom().insert(name@),
            forall|k: Seq<char>| k != name@ && #[trigger] old(self).queue_map().contains_key(k) ==> final(self).queue_map()[k] == old(self).queue_map()[k],
            final(self).queue_map()[name@].entries().len() == 0,
            final(self).queue_map()[name@].next() == 0,
            final(self).queue_map()[name@].spec_name() == name@,
            final(self).queue_map()[name@].spec_config() == config,
            final(self).same_but_queues(old(self)),
            final(self).produced() == old(self).produced(),
            final(self).consumed() == old(self).consumed(),
    {
        let queue = Queue::new(name.clone(), config);
        let _ = queue.initialize();
        self.queues.insert(name, queue);
        assert(self.queue_map().dom() =~= old(self).queue_map().dom().insert(name@));
        Ok(())
    }

    /// Delete queue `name`: its messages go, and the result says whether its
    /// persisted data is to be deleted too. Fails for an unknown queue.
    pub fn delete_queue(&mut self, name: &str) -> (r: Result<bool>)
        requires
            old(self).wf(),
        ensures
            final(self).wf(),
            final(self).queue_map() == old(self).queue_map().remove(name@),
            final(self).same_but_queues(old(self)),
            final(self).produced() == old(self).produced(),
            final(self).consumed() == old(self).consumed(),
            match r {
                Ok(persisted) => old(self).queue_map().contains_key(name@) && persisted == old(self).queue_map()[name@].spec_config().enable_persistence,
                Err(e) => !old(self).queue_map().contains_key(name@) && is_queue_not_found(e, name@),
            },
    {
        match self.queues.remove(name) {
            Some(mut queue) => Ok(queue.delete()),
            None => Err(Error::QueueNotFound(name.to_string())),
        }
    }

    /// Create topic `name` with its partitions, replacing any topic of that
    /// name.
    pub fn create_topic(&mut self, name: String, config: TopicConfig) -> (r: Result<()>)
        requires
            old(self).wf(),
        ensures
            final(self).wf(),
            r is Ok,
            final(self).topic_map().dom() == old(self).topic_map().dom().insert(name@),
            forall|k: Seq<char>| k != name@ && #[trigger] old(self).topic_map().contains_key(k) ==> final(self).topic_map()[k] == old(self).topic_map()[k],
            final(self).topic_map()[name@].spec_name() == name@,
            final(self).topic_map()[name@].spec_config() == config,
            final(self).topic_map()[name@].parts().len() == crate::broker::topic::created_partitions(config.partition_count),
            final(self).topic_map()[name@].spec_stats().total_produced == 0,
            final(self).topic_map()[name@].spec_stats().total_consumed == 0,
            final(self).topic_map()[name@].rotation() == 0,
            forall|i: int| 0 <= i < final(self).topic_map()[name@].parts().len() ==> {
                &&& (#[trigger] final(self).topic_map()[name@].parts()[i]).messages().len() == 0
                &&& final(self).topic_map()[name@].parts()[i].next() == 0
                &&& final(self).topic_map()[name@].parts()[i].spec_stats() == crate::broker::topic::zero_partition_stats()
                &&& forall|g: Seq<char>, c: Seq<char>| #[trigger] final(self).topic_map()[name@].parts()[i].group_offset(g, c) == 0
            },
            final(self).same_but_topics(old(self)),
            final(self).produced() == old(self).produced(),
            final(self).consumed() == old(self).consumed(),
    {
        let mut topic = Topic::new(name.clone(), config);
        let _ = topic.initialize();
        self.topics.insert(name, topic);
        assert(self.topic_map().dom() =~= old(self).topic_map().dom().insert(name@));
        Ok(())
    }

    /// Whether the broker has a topic `name`.
    pub fn has_topic(&self, name: &str) -> (b: bool)
        requires
            self.wf(),
        ensures
            b == self.topic_map().contains_key(name@),
    {
        self.topics.get(name).is_some()
    }

    /// Delete topic `name` and its partitions. Fails for an unknown topic.
    pub fn delete_topic(&mut self, name: &str) -> (r: Result<()>)
        requires
            old(self).wf(),
        ensures
            final(self).wf(),
            final(self).topic_map() == old(self).topic_map().remove(name@),
            final(self).same_but_topics(old(self)),
            final(self).produced() == old(self).produced(),
            final(self).consumed() == old(self).consumed(),
            r is Ok <==> old(self).topic_map().contains_key(name@),
            r matches Err(e) ==> is_topic_not_found(e, name@),
    {
        match self.topics.remove(name) {
            Some(mut topic) => topic.delete(),
            None => Err(Error::TopicNotFound(name.to_string())),
        }
    }

    /// Register a producer ID.
    pub fn register_producer(&mut self, producer_id: &str)
        requires
            old(self).wf(),
        ensures
            final(self).wf(),
            final(self).producer_ids() == old(self).producer_ids().insert(producer_id@),
            final(self).queue_map() == old(self).queue_map(),
            final(self).topic_map() == old(self).topic_map(),
            final(self).consumer_ids() == old(self).consumer_ids(),
            final(self).produced() == old(self).produced(),
            final(self).consumed() == old(self).consumed(),
            final(self).spec_config() == old(self).spec_config(),
    {
        self.producers.insert(producer_id.to_string(), true);
        assert(self.producer_ids() =~= old(self).producer_ids().insert(producer_id@));
    }

    /// Register a consumer ID.
    pub fn register_consumer(&mut self, consumer_id: &str)
        requires
            old(self).wf(),
        ensures
            final(self).wf(),
            final(self).consumer_ids() == old(self).consumer_ids().insert(consumer_id@),
            final(self).queue_map() == old(self).queue_map(),
            final(self).topic_map() == old(self).topic_map(),
            final(self).producer_ids() == old(self).producer_ids(),
            final(self).produced() == old(self).produced(),
            final(self).consumed() == old(self).consumed(),
            final(self).spec_config() == old(self).spec_config(),
    {
        self.consumers.insert(consumer_id.to_string(), true);
        assert(self.consumer_ids() =~= old(self).consumer_ids().insert(consumer_id@));
    }

    /// Clean up every queue at `now`.
    fn cleanup_queues_at(&mut self, now: Timestamp)
        requires
            old(self).wf(),
        ensures
            final(self).wf(),
            final(self).queue_map().dom() == old(self).queue_map().dom(),
            forall|k: Seq<char>| #[trigger] old(self).queue_map().contains_key(k) ==> old(self).queue_map()[k].cleaned(&final(self).queue_map()[k], now),
            final(self).topic_map() == old(self).topic_map(),
            final(self).spec_config() == old(self).spec_config(),
            final(self).producer_ids() == old(self).producer_ids(),
            final(self).consumer_ids() == old(self).consumer_ids(),
            final(self).produced() == old(self).produced(),
            final(self).consumed() == old(self).consumed(),
            final(self).last_message_id() == old(self).last_message_id(),
            final(self).replicating() == old(self).replicating(),
    {
        let names = self.queues.keys();
        let n = names.len();
        let mut i: usize = 0;
        while i < n
            invariant
                n == names@.len(),
                i <= n,
                names_of(names@) == old(self).queues.keys_seq(),
                old(self).queues.wf(),
                self.wf(),
                self.queue_map().dom() == old(self).queue_map().dom(),
                forall|k: Seq<char>| #[trigger] old(self).queue_map().contains_key(k) ==> {
                    if names_of(names@).take(i as int).contains(k) {
                        old(self).queue_map()[k].cleaned(&self.queue_map()[k], now)
                    } else {
                        self.queue_map()[k] == old(self).queue_map()[k]
                    }
                },
                self.topic_map() == old(self).topic_map(),
                self.spec_config() == old(self).spec_config(),
                self.producer_ids() == old(self).producer_ids(),
                self.consumer_ids() == old(self).consumer_ids(),
                self.produced() == old(self).produced(),
                self.consumed() == old(self).consumed(),
                self.last_message_id() == old(self).last_message_id(),
                self.replicating() == old(self).replicating(),
            decreases n - i,
        {
            let ghost ns = names_of(names@);
            let ghost k = ns[i as int];
            let ghost before = self.queue_map();
            proof {
                old(self).queues.lemma_seqs();
                assert(old(self).queue_map().contains_key(k));
                assert(!ns.take(i as int).contains(k)) by {
                    if ns.take(i as int).contains(k) {
                        let j = choose|j: int| 0 <= j < i && ns.take(i as int)[j] == k;
                        assert(ns[j] == k);
                    }
                }
                assert(ns.take(i + 1) =~= ns.take(i as int).push(k));
                assert(names@[i as int]@ == k);
            }
            match self.queues.remove(names[i].as_str()) {
                Some(mut q) => {
                    let ghost orig = q;
                    let _ = q.cleanup_expired_messages_at(now);
                    let ghost cleaned = q;
                    self.queues.insert(names[i].clone(), q);
                    proof {
                        assert(self.queue_map() =~= before.insert(k, cleaned));
                        assert forall|kk: Seq<char>| #[trigger] old(self).queue_map().contains_key(kk) implies {
                            if ns.take(i + 1).contains(kk) {
                                old(self).queue_map()[kk].cleaned(&self.queue_map()[kk], now)
                            } else {
                                self.queue_map()[kk] == old(self).queue_map()[kk]
                            }
                        } by {
                            if kk != k {
                                assert(ns.take(i + 1).contains(kk) == ns.take(i as int).contains(kk));
                                assert(self.queue_map()[kk] == before[kk]);
                            } else {
                                assert(orig == before[k]);
                                assert(before[k] == old(self).queue_map()[k]);
                                assert(orig.cleaned(&cleaned, now));
                                assert(ns.take(i + 1).contains(k)) by {
                                    assert(ns.take(i + 1)[i as int] == k);
                                }
                            }
                        }
                    }
                },
                None => {},
            }
            i = i + 1;
        }
        proof {
            old(self).queues.lemma_seqs();
            assert(names_of(names@).take(n as int) =~= names_of(names@));
            assert forall|k: Seq<char>| #[trigger] old(self).queue_map().contains_key(k) implies names_of(names@).take(n as int).contains(k) by {
                let j = choose|j: int| 0 <= j < old(self).queues.keys_seq().len() && old(self).queues.keys_seq()[j] == k;
                assert(names_of(names@).take(n as int)[j] == k);
            }
        }
    }

    /// Clean up every topic at `now`.
    fn cleanup_topics_at(&mut self, now: Timestamp)
        requires
            old(self).wf(),
        ensures
            final(self).wf(),
            final(self).topic_map().dom() == old(self).topic_map().dom(),
            forall|k: Seq<char>| #[trigger] old(self).topic_map().contains_key(k) ==> old(self).topic_map()[k].cleaned(&final(self).topic_map()[k], now),
            final(self).queue_map() == old(self).queue_map(),
            final(self).spec_config() == old(self).spec_config(),
            final(self).producer_ids() == old(self).producer_ids(),
            final(self).consumer_ids() == old(self).consumer_ids(),
            final(self).produced() == old(self).produced(),
            final(self).consumed() == old(self).consumed(),
            final(self).last_message_id() == old(self).last_message_id(),
            final(self).replicating() == old(self).replicating(),
    {
        let names = self.topics.keys();
        let n = names.len();
        let mut i: usize = 0;
        while i < n
            invariant
                n == names@.len(),
                i <= n,
                names_of(names@) == old(self).topics.keys_seq(),
                old(self).topics.wf(),
                self.wf(),
                self.topic_map().dom() == old(self).topic_map().dom(),
                forall|k: Seq<char>| #[trigger] old(self).topic_map().contains_key(k) ==> {
                    if names_of(names@).take(i as int).contains(k) {
                        old(self).topic_map()[k].cleaned(&self.topic_map()[k], now)
                    } else {
                        self.topic_map()[k] == old(self).topic_map()[k]
                    }
                },
                self.queue_map() == old(self).queue_map(),
                self.spec_config() == old(self).spec_config(),
                self.producer_ids() == old(self).producer_ids(),
                self.consumer_ids() == old(self).consumer_ids(),
                self.produced() == old(self).produced(),
                self.consumed() == old(self).consumed(),
                self.last_message_id() == old(self).last_message_id(),
                self.replicating() == old(self).replicating(),
            decreases n - i,
        {
            let ghost ns = names_of(names@);
            let ghost k = ns[i as int];
            let ghost before = self.topic_map();
            proof {
                old(self).topics.lemma_seqs();
                assert(old(self).topic_map().contains_key(k));
                assert(!ns.take(i as int).contains(k)) by {
                    if ns.take(i as int).contains(k) {
                        let j = choose|j: int| 0 <= j < i && ns.take(i as int)[j] == k;
                        assert(ns[j] == k);
                    }
                }
                assert(ns.take(i + 1) =~= ns.take(i as int).push(k));
                assert(names@[i as int]@ == k);
            }
            match self.topics.remove(names[i].as_str()) {
                Some(mut q) => {
                    let ghost orig = q;
                    let _ = q.cleanup_expired_messages_at(now);
                    let ghost cleaned = q;
                    self.topics.insert(names[i].clone(), q);
                    proof {
                        assert(self.topic_map() =~= before.insert(k, cleaned));
                        assert forall|kk: Seq<char>| #[trigger] old(self).topic_map().contains_key(kk) implies {
                            if ns.take(i + 1).contains(kk) {
                                old(self).topic_map()[kk].cleaned(&self.topic_map()[kk], now)
                            } else {
                                self.topic_map()[kk] == old(self).topic_map()[kk]
                            }
                        } by {
                            if kk != k {
                                assert(ns.take(i + 1).contains(kk) == ns.take(i as int).contains(kk));
                                assert(self.topic_map()[kk] == before[kk]);
                            } else {
                                assert(orig == before[k]);
                                assert(before[k] == old(self).topic_map()[k]);
                                assert(orig.cleaned(&cleaned, now));
                                assert(ns.take(i + 1).contains(k)) by {
                                    assert(ns.take(i + 1)[i as int] == k);
                                }
                            }
                        }
                    }
                },
                None => {},
            }
            i = i + 1;
        }
        proof {
            old(self).topics.lemma_seqs();
            assert(names_of(names@).take(n as int) =~= names_of(names@));
            assert forall|k: Seq<char>| #[trigger] old(self).topic_map().contains_key(k) implies names_of(names@).take(n as int).contains(k) by {
                let j = choose|j: int| 0 <= j < old(self).topics.keys_seq().len() && old(self).topics.keys_seq()[j] == k;
                assert(names_of(names@).take(n as int)[j] == k);
            }
        }
    }

    /// Record how long the broker has been up.
    pub fn record_uptime(&mut self, uptime: Duration)
        requires
            old(self).wf(),
        ensures
            final(self).wf(),
            final(self).uptime() == uptime,
            final(self).queue_map() == old(self).queue_map(),
            final(self).topic_map() == old(self).topic_map(),
            final(self).spec_config() == old(self).spec_config(),
            final(self).producer_ids() == old(self).producer_ids(),
            final(self).consumer_ids() == old(self).consumer_ids(),
            final(self).produced() == old(self).produced(),
            final(self).consumed() == old(self).consumed(),
            final(self).byte_counts() == old(self).byte_counts(),
            final(self).last_message_id() == old(self).last_message_id(),
            final(self).replicating() == old(self).replicating(),
    {
        self.stats.uptime = uptime;
    }

    /// The periodic cleanup at `now`: every queue and every topic drops the
    /// messages older than its retention.
    pub fn cleanup_expired_at(&mut self, now: Timestamp)
        requires
            old(self).wf(),
        ensures
            final(self).wf(),
            final(self).queue_map().dom() == old(self).queue_map().dom(),
            final(self).topic_map().dom() == old(self).topic_map().dom(),
            forall|k: Seq<char>| #[trigger] old(self).queue_map().contains_key(k) ==> old(self).queue_map()[k].cleaned(&final(self).queue_map()[k], now),
            forall|k: Seq<char>| #[trigger] old(self).topic_map().contains_key(k) ==> old(self).topic_map()[k].cleaned(&final(self).topic_map()[k], now),
            final(self).spec_config() == old(self).spec_config(),
            final(self).producer_ids() == old(self).producer_ids(),
            final(self).consumer_ids() == old(self).consumer_ids(),
            final(self).produced() == old(self).produced(),
            final(self).consumed() == old(self).consumed(),
            final(self).last_message_id() == old(self).last_message_id(),
            final(self).replicating() == old(self).replicating(),
    {
        self.cleanup_queues_at(now);
        self.cleanup_topics_at(now);
    }

    /// Create a producer with `config`, registered with the broker under its
    /// ID.
    pub fn create_producer(&mut self, config: ProducerConfig) -> (r: Result<Producer>)
        requires
            old(self).wf(),
        ensures
            final(self).wf(),
            final(self).producer_ids() == old(self).producer_ids().insert(config.producer_id@),
            final(self).queue_map() == old(self).queue_map(),
            final(self).topic_map() == old(self).topic_map(),
            final(self).consumer_ids() == old(self).consumer_ids(),
            final(self).produced() == old(self).produced(),
            final(self).consumed() == old(self).consumed(),
            final(self).spec_config() == old(self).spec_config(),
            r matches Ok(p) && {
                &&& p.spec_config() == config
                &&& p.spec_stats() == (ProducerStats { total_messages: 0, total_bytes: 0, total_errors: 0, last_send_time: None, current_batch_size: 0 })
                &&& p.pending().len() == 0
                &&& !p.is_running()
            },
    {
        self.register_producer(config.producer_id.as_str());
        Ok(Producer::new(config))
    }

    /// Create a consumer with `config`, registered with the broker under its
    /// ID.
    pub fn create_consumer(&mut self, config: ConsumerConfig) -> (r: Result<Consumer>)
        requires
            old(self).wf(),
        ensures
            final(self).wf(),
            final(self).consumer_ids() == old(self).consumer_ids().insert(config.consumer_id@),
            final(self).queue_map() == old(self).queue_map(),
            final(self).topic_map() == old(self).topic_map(),
            final(self).producer_ids() == old(self).producer_ids(),
            final(self).produced() == old(self).produced(),
            final(self).consumed() == old(self).consumed(),
            final(self).spec_config() == old(self).spec_config(),
            r matches Ok(c) && {
                &&& c.spec_config() == config
                &&& c.topics().len() == 0
                &&& c.received() == 0
                &&& c.received_bytes() == 0
                &&& c.last_poll() is None
                &&& c.last_commit() is None
                &&& !c.is_running()
            },
    {
        self.register_consumer(config.consumer_id.as_str());
        Ok(Consumer::new(config))
    }

    /// Produce `message` to queue `name` at `now` (see `Queue::produce_at`);
    /// fails for an unknown queue.
    pub fn produce_to_queue_at(&mut self, name: &str, message: Message, now: Timestamp) -> (r: Result<Offset>)
        requires
            old(self).wf(),
            message.wf(),
            old(self).produced() < u64::MAX,
            old(self).queue_map().contains_key(name@) ==> old(self).queue_map()[name@].next() < u64::MAX,
        ensures
            old(self).queue_produce_step(final(self), name@, message@, now, r),
    {
        match self.queues.remove(name) {
            None => {
                assert(self.queues.map() =~= old(self).queues.map());
                Err(Error::QueueNotFound(name.to_string()))
            },
            Some(mut queue) => {
                let r = queue.produce_at(message, now);
                let ghost q = queue;
                self.queues.insert(name.to_string(), queue);
                assert(self.queue_map() =~= old(self).queue_map().insert(name@, q));
                if r.is_ok() {
                    self.stats.total_messages_produced = self.stats.total_messages_produced + 1;
                }
                r
            },
        }
    }

    /// Produce `message` to queue `name` now (see `produce_to_queue_at`).
    pub fn produce_to_queue(&mut self, name: &str, message: Message) -> (r: Result<Offset>)
        requires
            old(self).wf(),
            message.wf(),
            old(self).produced() < u64::MAX,
            old(self).queue_map().contains_key(name@) ==> old(self).queue_map()[name@].next() < u64::MAX,
        ensures
            exists|now: Timestamp| #[trigger] old(self).queue_produce_step(final(self), name@, message@, now, r),
    {
        self.produce_to_queue_at(name, message, Timestamp::now())
    }

    /// Consume from queue `name` for `consumer_id` at `now` (see
    /// `Queue::consume_at`); fails for an unknown queue.
    pub fn consume_from_queue_at(&mut self, name: &str, consumer_id: &str, now: Timestamp) -> (r: Result<Option<Message>>)
        requires
            old(self).wf(),
            old(self).consumed() < u64::MAX,
            old(self).queue_map().contains_key(name@) ==> old(self).queue_map()[name@].consume_ok(now),
        ensures
            old(self).queue_consume_step(final(self), name@, consumer_id@, now, r),
    {
        match self.queues.remove(name) {
            None => {
                assert(self.queues.map() =~= old(self).queues.map());
                Err(Error::QueueNotFound(name.to_string()))
            },
            Some(mut queue) => {
                let r = queue.consume_at(consumer_id, now);
                let ghost q = queue;
                self.queues.insert(name.to_string(), queue);
                assert(self.queue_map() =~= old(self).queue_map().insert(name@, q));
                match r {
                    Ok(Some(m)) => {
                        self.stats.total_messages_consumed = self.stats.total_messages_consumed + 1;
                        Ok(Some(m))
                    },
                    other => other,
                }
            },
        }
    }

    /// Consume from queue `name` for `consumer_id` now (see
    /// `consume_from_queue_at`).
    pub fn consume_from_queue(&mut self, name: &str, consumer_id: &str) -> (r: Result<Option<Message>>)
        requires
            old(self).wf(),
            old(self).consumed() < u64::MAX,
            old(self).queue_map().contains_key(name@) ==> forall|now: Timestamp| #[trigger] old(self).queue_map()[name@].consume_ok(now),
        ensures
            exists|now: Timestamp| #[trigger] old(self).queue_consume_step(final(self), name@, consumer_id@, now, r),
    {
        let now = Timestamp::now();
        proof {
            if old(self).queue_map().contains_key(name@) {
                assert(old(self).queue_map()[name@].consume_ok(now));
            }
        }
        self.consume_from_queue_at(name, consumer_id, now)
    }

    /// Produce `message` to topic `name`, into the partition chosen for it
    /// (see `Topic::produce`); fails for an unknown topic.
    pub fn produce_to_topic(&mut self, name: &str, message: Message) -> (r: Result<Offset>)
        requires
            old(self).wf(),
            old(self).topic_room(name@, 1),
            old(self).topic_map().contains_key(name@) ==> old(self).topic_map()[name@].spec_config().partition_count > 0,
        ensures
            old(self).topic_produce_step(final(self), name@, message@, r),
    {
        match self.topics.remove(name) {
            None => {
                assert(self.topics.map() =~= old(self).topics.map());
                Err(Error::TopicNotFound(name.to_string()))
            },
            Some(mut topic) => {
                proof {
                    topic.lemma_room(1);
                }
                let r = topic.produce(message);
                let ghost t = topic;
                self.topics.insert(name.to_string(), topic);
                assert(self.topic_map() =~= old(self).topic_map().insert(name@, t));
                if r.is_ok() {
                    self.stats.total_messages_produced = self.stats.total_messages_produced + 1;
                }
                r
            },
        }
    }

    /// Consume from a partition of topic `name` for a consumer of a group
    /// (see `Topic::consume`); fails for an unknown topic.
    pub fn consume_from_topic(&mut self, name: &str, partition: i32, consumer_group: &str, consumer_id: &str) -> (r: Result<Option<Message>>)
        requires
            old(self).wf(),
            old(self).topic_room(name@, 1),
        ensures
            old(self).topic_consume_step(final(self), name@, partition, consumer_group@, consumer_id@, r),
            final(self).wf(),
            final(self).same_but_topics(old(self)),
            final(self).produced() == old(self).produced(),
            if old(self).topic_map().contains_key(name@) {
                &&& final(self).topic_map() == old(self).topic_map().insert(name@, final(self).topic_map()[name@])
                &&& old(self).topic_map()[name@].consumed_at(&final(self).topic_map()[name@], partition, consumer_group@, consumer_id@, r)
                &&& final(self).consumed() == if r matches Ok(Some(_)) { (old(self).consumed() + 1) as u64 } else { old(self).consumed() }
            } else {
                &&& r matches Err(e) && is_topic_not_found(e, name@)
                &&& final(self).topic_map() == old(self).topic_map()
                &&& final(self).consumed() == old(self).consumed()
            },
    {
        match self.topics.remove(name) {
            None => {
                assert(self.topics.map() =~= old(self).topics.map());
                Err(Error::TopicNotFound(name.to_string()))
            },
            Some(mut topic) => {
                proof {
                    topic.lemma_room(1);
                }
                let r = topic.consume(partition, consumer_group, consumer_id);
                let ghost t = topic;
                self.topics.insert(name.to_string(), topic);
                assert(self.topic_map() =~= old(self).topic_map().insert(name@, t));
                match r {
                    Ok(Some(m)) => {
                        self.stats.total_messages_consumed = self.stats.total_messages_consumed + 1;
                        Ok(Some(m))
                    },
                    other => other,
                }
            },
        }
    }

    /// The statistics, with the number of producers, consumers, queues,
    /// topics and consumer groups.
    pub fn get_stats(&self) -> (s: BrokerStats)
        requires
            self.wf(),
        ensures
            s.total_messages_produced == self.produced(),
            s.total_messages_consumed == self.consumed(),
            s.active_producers == self.producer_ids().len(),
            s.active_consumers == self.consumer_ids().len(),
            s.active_queues == self.queue_map().dom().len(),
            s.active_topics == self.topic_map().dom().len(),
            (s.total_bytes_produced, s.total_bytes_consumed) == self.byte_counts(),
            s.consumer_groups == self.group_count(),
            s.uptime == self.uptime(),
    {
        proof {
            self.producers.lemma_len();
            self.consumers.lemma_len();
            self.queues.lemma_len();
            self.topics.lemma_len();
        }
        BrokerStats {
            total_messages_produced: self.stats.total_messages_produced,
            total_messages_consumed: self.stats.total_messages_consumed,
            total_bytes_produced: self.stats.total_bytes_produced,
            total_bytes_consumed: self.stats.total_bytes_consumed,
            active_producers: self.producers.len(),
            active_consumers: self.consumers.len(),
            active_queues: self.queues.len(),
            active_topics: self.topics.len(),
            consumer_groups: self.consumer_groups.len(),
            uptime: self.stats.uptime.clone(),
        }
    }

    /// The next message ID: one past the last.
    pub fn generate_message_id(&mut self) -> (id: u64)
        requires
            old(self).last_message_id() < u64::MAX,
        ensures
            id == old(self).last_message_id() + 1,
            final(self).last_message_id() == id,
            final(self).queue_map() == old(self).queue_map(),
            final(self).topic_map() == old(self).topic_map(),
    {
        self.message_id_counter = self.message_id_counter + 1;
        self.message_id_counter
    }
}

/// After a consumption from a topic, room for `n + 1` messages in a topic
/// leaves room for `n` in it.
pub proof fn lemma_topic_room_after_consume(
    before: &PrecursorBroker,
    after: &PrecursorBroker,
    name: Seq<char>,
    partition: i32,
    g: Seq<char>,
    c: Seq<char>,
    r: Result<Option<Message>>,
    other: Seq<char>,
    n: nat,
)
    requires
        before.topic_consume_step(after, name, partition, g, c, r),
        before.topic_room(other, n + 1),
    ensures
        after.topic_room(other, n),
{
    if before.topic_map().contains_key(name) && other == name {
        before.topic_map()[name].lemma_room_after_consume(&after.topic_map()[name], partition, g, c, r, n);
    }
    if before.topic_map().contains_key(other) && other != name {
        assert(after.topic_map()[other] == before.topic_map()[other]);
        before.topic_map()[other].lemma_room_after(&after.topic_map()[other], n);
    }
}

} // verus!
