//! Consumers: they poll the topics they subscribe to, one message from the
//! first partition of each, and count what they received.

use vstd::prelude::*;
use std::time::Duration;
use crate::broker::error::{Error, Result};
use crate::broker::message::Message;
use crate::broker::names::names_of;
use crate::broker::precursor::{PrecursorBroker, lemma_topic_room_after_consume};
use crate::broker::replication::clone_strings;
use crate::broker::time::{duration_from_millis, duration_from_secs, duration_nanos};
use crate::qiss::types::Timestamp;

verus! {

/// Consumer configuration.
#[derive(Debug, Clone)]
pub struct ConsumerConfig {
    /// Consumer ID
    pub consumer_id: String,
    /// Consumer group
    pub consumer_group: String,
    /// Client ID
    pub client_id: String,
    /// Session timeout
    pub session_timeout: Duration,
    /// Rebalance timeout
    pub rebalance_timeout: Duration,
    /// Auto offset reset
    pub auto_offset_reset: AutoOffsetReset,
    /// Enable auto commit
    pub enable_auto_commit: bool,
    /// Auto commit interval
    pub auto_commit_interval: Duration,
    /// Max poll records
    pub max_poll_records: usize,
    /// Fetch min bytes
    pub fetch_min_bytes: usize,
    /// Fetch max wait
    pub fetch_max_wait: Duration,
}

impl Default for ConsumerConfig {
    fn default() -> (c: Self)
        ensures
            c.consumer_id@ == "consumer-1"@,
            c.consumer_group@ == "default-group"@,
            c.client_id@ == "client-1"@,
            duration_nanos(c.session_timeout) == 30 * 1_000_000_000,
            duration_nanos(c.rebalance_timeout) == 60 * 1_000_000_000,
            c.auto_offset_reset == AutoOffsetReset::Latest,
            c.enable_auto_commit,
            duration_nanos(c.auto_commit_interval) == 5 * 1_000_000_000,
            c.max_poll_records == 500,
            c.fetch_min_bytes == 1,
            duration_nanos(c.fetch_max_wait) == 500 * 1_000_000,
    {
        ConsumerConfig {
            consumer_id: "consumer-1".to_string(),
            consumer_group: "default-group".to_string(),
            client_id: "client-1".to_string(),
            session_timeout: duration_from_secs(30),
            rebalance_timeout: duration_from_secs(60),
            auto_offset_reset: AutoOffsetReset::Latest,
            enable_auto_commit: true,
            auto_commit_interval: duration_from_secs(5),
            max_poll_records: 500,
            fetch_min_bytes: 1,
            fetch_max_wait: duration_from_millis(500),
        }
    }
}

/// Auto offset reset policy.
#[derive(Debug, Clone, Copy, PartialEq, Eq, Structural)]
pub enum AutoOffsetReset {
    /// Start from earliest available offset
    Earliest,
    /// Start from latest available offset
    Latest,
    /// Fail if no offset is available
    NoReset,
}

/// Consumer statistics.
#[derive(Debug)]
pub struct ConsumerStats {
    /// Total messages consumed
    pub total_messages: u64,
    /// Total bytes consumed
    pub total_bytes: u64,
    /// Last poll time
    pub last_poll_time: Option<Timestamp>,
    /// Last commit time
    pub last_commit_time: Option<Timestamp>,
    /// Current subscriptions
    pub subscriptions: Vec<String>,
}

impl Default for ConsumerStats {
    fn default() -> (s: Self)
        ensures
            s.total_messages == 0,
            s.total_bytes == 0,
            s.last_poll_time is None,
            s.last_commit_time is None,
            s.subscriptions@.len() == 0,
    {
        ConsumerStats { total_messages: 0, total_bytes: 0, last_poll_time: None, last_commit_time: None, subscriptions: Vec::new() }
    }
}

/// The messages handed out by a run of consumptions, in order: those of
/// the results that delivered one.
pub open spec fn delivered(results: Seq<Result<Option<Message>>>) -> Seq<Message>
    decreases results.len(),
{
    if results.len() == 0 {
        Seq::empty()
    } else {
        let rest = delivered(results.drop_last());
        match results.last() {
            Ok(Some(m)) => rest.push(m),
            _ => rest,
        }
    }
}

/// `b` plus the sizes of `ms`, one at a time, each sum held at `u64::MAX`.
pub open spec fn add_sizes(b: u64, ms: Seq<Message>) -> u64
    decreases ms.len(),
{
    if ms.len() == 0 {
        b
    } else {
        let t = add_sizes(b, ms.drop_last());
        if t + ms.last()@.size > u64::MAX {
            u64::MAX
        } else {
            (t + ms.last()@.size) as u64
        }
    }
}

/// `trace` runs from one broker state to the next by consuming, for
/// consumer `c` of group `g`, from partition 0 of each topic of `topics` in
/// turn, with the results `results`.
pub open spec fn poll_trace(trace: Seq<PrecursorBroker>, topics: Seq<Seq<char>>, g: Seq<char>, c: Seq<char>, results: Seq<Result<Option<Message>>>) -> bool {
    &&& trace.len() == topics.len() + 1
    &&& results.len() == topics.len()
    &&& forall|i: int| 0 <= i < topics.len() ==> #[trigger] trace[i].topic_consume_step(&trace[i + 1], topics[i], 0, g, c, results[i])
}

/// Consumer.
pub struct Consumer {
    config: ConsumerConfig,
    subscriptions: Vec<String>,
    stats: ConsumerStats,
    running: bool,
}

impl Consumer {
    /// The configuration.
    pub closed spec fn spec_config(&self) -> ConsumerConfig {
        self.config
    }

    /// The topics subscribed to, in order.
    pub closed spec fn topics(&self) -> Seq<Seq<char>> {
        names_of(self.subscriptions@)
    }

    /// The number of messages received.
    pub closed spec fn received(&self) -> u64 {
        self.stats.total_messages
    }

    /// The number of bytes received, held at `u64::MAX`.
    pub closed spec fn received_bytes(&self) -> u64 {
        self.stats.total_bytes
    }

    /// The time of the last poll.
    pub closed spec fn last_poll(&self) -> Option<Timestamp> {
        self.stats.last_poll_time
    }

    /// The time of the last commit.
    pub closed spec fn last_commit(&self) -> Option<Timestamp> {
        self.stats.last_commit_time
    }

    /// Whether the consumer runs.
    pub closed spec fn is_running(&self) -> bool {
        self.running
    }

    /// Everything but the counters and the times is as in
    /// `other`.
    pub open spec fn same_setup(&self, other: &Consumer) -> bool {
        &&& self.spec_config() == other.spec_config()
        &&& self.topics() == other.topics()
        &&& self.is_running() == other.is_running()
    }

    /// A stopped consumer with no subscriptions and nothing received.
    pub fn new(config: ConsumerConfig) -> (c: Self)
        ensures
            c.spec_config() == config,
            c.topics().len() == 0,
            c.received() == 0,
            c.received_bytes() == 0,
            c.last_poll() is None,
            c.last_commit() is None,
            !c.is_running(),
    {
        let c = Consumer {
            config,
            subscriptions: Vec::new(),
            stats: ConsumerStats::default(),
            running: false,
        };
        assert(c.topics() =~= Seq::<Seq<char>>::empty());
        c
    }

    /// The consumer ID.
    pub fn id(&self) -> (s: &str)
        ensures
            s@ == self.spec_config().consumer_id@,
    {
        self.config.consumer_id.as_str()
    }

    /// The consumer group.
    pub fn group(&self) -> (s: &str)
        ensures
            s@ == self.spec_config().consumer_group@,
    {
        self.config.consumer_group.as_str()
    }

    /// Subscribe to `topics`, in place of the earlier subscriptions.
    pub fn subscribe(&mut self, topics: Vec<String>) -> (r: Result<()>)
        ensures
            r is Ok,
            final(self).topics() == names_of(topics@),
            final(self).spec_config() == old(self).spec_config(),
            final(self).is_running() == old(self).is_running(),
            final(self).received() == old(self).received(),
            final(self).received_bytes() == old(self).received_bytes(),
            final(self).last_poll() == old(self).last_poll(),
            final(self).last_commit() == old(self).last_commit(),
    {
        self.stats.subscriptions = clone_strings(&topics);
        self.subscriptions = topics;
        Ok(())
    }

    /// Drop all subscriptions.
    pub fn unsubscribe(&mut self) -> (r: Result<()>)
        ensures
            r is Ok,
            final(self).topics().len() == 0,
            final(self).spec_config() == old(self).spec_config(),
            final(self).is_running() == old(self).is_running(),
            final(self).received() == old(self).received(),
            final(self).received_bytes() == old(self).received_bytes(),
            final(self).last_poll() == old(self).last_poll(),
            final(self).last_commit() == old(self).last_commit(),
    {
        self.subscriptions.clear();
        self.stats.subscriptions.clear();
        assert(self.topics() =~= Seq::<Seq<char>>::empty());
        Ok(())
    }

    /// Poll at `now`: from partition 0 of each subscribed topic in turn,
    /// consume one message for this consumer and its group; the messages
    /// handed out are returned in that order and counted. Failures to
    /// consume are passed over.
    pub fn poll_at(&mut self, broker: &mut PrecursorBroker, timeout: Option<Duration>, now: Timestamp) -> (r: Result<Vec<Message>>)
        requires
            old(broker).wf(),
            forall|i: int| 0 <= i < old(self).topics().len() ==> #[trigger] old(broker).topic_room(old(self).topics()[i], old(self).topics().len()),
            old(self).received() + old(self).topics().len() <= u64::MAX,
        ensures
            final(self).same_setup(old(self)),
            final(self).last_poll() == Some(now),
            final(self).last_commit() == old(self).last_commit(),
            final(broker).wf(),
            r matches Ok(ms) && exists|trace: Seq<PrecursorBroker>, results: Seq<Result<Option<Message>>>|
                #[trigger] poll_trace(trace, old(self).topics(), old(self).spec_config().consumer_group@, old(self).spec_config().consumer_id@, results)
                && trace[0] == *old(broker) && trace.last() == *final(broker)
                && ms@ == delivered(results)
                && final(self).received() == old(self).received() + ms@.len()
                && final(self).received_bytes() == add_sizes(old(self).received_bytes(), ms@),
    {
        let _wait = match timeout {
            Some(t) => t,
            None => self.config.fetch_max_wait,
        };
        self.stats.last_poll_time = Some(now);
        let ghost topics = self.topics();
        let ghost g = self.spec_config().consumer_group@;
        let ghost c = self.spec_config().consumer_id@;
        let ghost b0 = *broker;
        let ghost k0 = self.received();
        let ghost bytes0 = self.received_bytes();
        let n = self.subscriptions.len();
        let mut messages: Vec<Message> = Vec::new();
        let ghost mut trace: Seq<PrecursorBroker> = seq![*broker];
        let ghost mut results: Seq<Result<Option<Message>>> = Seq::empty();
        let mut i: usize = 0;
        while i < n
            invariant
                n == topics.len(),
                i <= n,
                topics == old(self).topics(),
                self.same_setup(old(self)),
                self.topics() == topics,
                g == self.spec_config().consumer_group@,
                c == self.spec_config().consumer_id@,
                self.last_poll() == Some(now),
                self.last_commit() == old(self).last_commit(),
                broker.wf(),
                forall|j: int| 0 <= j < n ==> #[trigger] broker.topic_room(topics[j], (n - i) as nat),
                k0 == old(self).received(),
                bytes0 == old(self).received_bytes(),
                k0 + n <= u64::MAX,
                poll_trace(trace, topics.take(i as int), g, c, results),
                trace[0] == b0,
                b0 == *old(broker),
                trace.last() == *broker,
                messages@ == delivered(results),
                messages@.len() <= i,
                self.received() == k0 + messages@.len(),
                self.received_bytes() == add_sizes(bytes0, messages@),
            decreases n - i,
        {
            let ghost before = *broker;
            assert(self.subscriptions@[i as int]@ == topics[i as int]);
            assert(broker.topic_room(topics[i as int], (n - i) as nat));
            let r = broker.consume_from_topic(
                self.subscriptions[i].as_str(),
                0,
                self.config.consumer_group.as_str(),
                self.config.consumer_id.as_str(),
            );
            proof {
                assert forall|j: int| 0 <= j < n implies #[trigger] broker.topic_room(topics[j], (n - i - 1) as nat) by {
                    lemma_topic_room_after_consume(&before, &*broker, topics[i as int], 0, g, c, r, topics[j], (n - i - 1) as nat);
                }
                let t2 = trace.push(*broker);
                let r2 = results.push(r);
                assert forall|j: int| 0 <= j < i + 1 implies #[trigger] t2[j].topic_consume_step(&t2[j + 1], topics.take(i + 1)[j], 0, g, c, r2[j]) by {
                    if j < i {
                        assert(t2[j] == trace[j] && t2[j + 1] == trace[j + 1] && r2[j] == results[j]);
                        assert(topics.take(i + 1)[j] == topics.take(i as int)[j]);
                    }
                }
                assert(r2.drop_last() =~= results);
                trace = t2;
                results = r2;
            }
            match r {
                Ok(Some(m)) => {
                    let size = m.size();
                    let ghost prev = messages@;
                    messages.push(m);
                    self.stats.total_messages = self.stats.total_messages + 1;
                    self.stats.total_bytes = self.stats.total_bytes.saturating_add(size as u64);
                    proof {
                        assert(messages@.drop_last() =~= prev);
                    }
                },
                _ => {},
            }
            let ghost i_before = i;
            i = i + 1;
            proof {
                assert forall|j: int| 0 <= j < n implies #[trigger] broker.topic_room(topics[j], (n - i) as nat) by {
                    assert(broker.topic_room(topics[j], (n - i_before - 1) as nat));
                    assert((n - i_before - 1) as nat == (n - i) as nat);
                }
            }
        }
        proof {
            assert(topics.take(n as int) =~= topics);
        }
        Ok(messages)
    }

    /// Poll now (see `poll_at`).
    pub fn poll(&mut self, broker: &mut PrecursorBroker, timeout: Option<Duration>) -> (r: Result<Vec<Message>>)
        requires
            old(broker).wf(),
            forall|i: int| 0 <= i < old(self).topics().len() ==> #[trigger] old(broker).topic_room(old(self).topics()[i], old(self).topics().len()),
            old(self).received() + old(self).topics().len() <= u64::MAX,
        ensures
            final(self).same_setup(old(self)),
            final(self).last_poll() is Some,
            final(self).last_commit() == old(self).last_commit(),
            final(broker).wf(),
            r matches Ok(ms) && exists|trace: Seq<PrecursorBroker>, results: Seq<Result<Option<Message>>>|
                #[trigger] poll_trace(trace, old(self).topics(), old(self).spec_config().consumer_group@, old(self).spec_config().consumer_id@, results)
                && trace[0] == *old(broker) && trace.last() == *final(broker)
                && ms@ == delivered(results)
                && final(self).received() == old(self).received() + ms@.len()
                && final(self).received_bytes() == add_sizes(old(self).received_bytes(), ms@),
    {
        self.poll_at(broker, timeout, Timestamp::now())
    }

    /// Record a commit at `now`.
    pub fn commit_offsets_at(&mut self, now: Timestamp) -> (r: Result<()>)
        ensures
            r is Ok,
            final(self).same_setup(old(self)),
            final(self).received() == old(self).received(),
            final(self).received_bytes() == old(self).received_bytes(),
            final(self).last_poll() == old(self).last_poll(),
            final(self).last_commit() == Some(now),
    {
        self.stats.last_commit_time = Some(now);
        Ok(())
    }

    /// Record a commit now.
    pub fn commit_offsets(&mut self) -> (r: Result<()>)
        ensures
            r is Ok,
            final(self).same_setup(old(self)),
            final(self).received() == old(self).received(),
            final(self).received_bytes() == old(self).received_bytes(),
            final(self).last_poll() == old(self).last_poll(),
            final(self).last_commit() is Some,
    {
        self.commit_offsets_at(Timestamp::now())
    }

    /// The consumer's statistics, with its subscriptions.
    pub fn get_stats(&self) -> (s: ConsumerStats)
        ensures
            s.total_messages == self.received(),
            s.total_bytes == self.received_bytes(),
            s.last_poll_time == self.last_poll(),
            s.last_commit_time == self.last_commit(),
            names_of(s.subscriptions@) == self.topics(),
    {
        let subscriptions = clone_strings(&self.subscriptions);
        ConsumerStats {
            total_messages: self.stats.total_messages,
            total_bytes: self.stats.total_bytes,
            last_poll_time: self.stats.last_poll_time,
            last_commit_time: self.stats.last_commit_time,
            subscriptions,
        }
    }

    /// Start the consumer; fails if it runs already.
    pub fn start(&mut self) -> (r: Result<()>)
        ensures
            final(self).is_running(),
            r is Err <==> old(self).is_running(),
            r matches Err(e) ==> e matches Error::Internal(s) && s@ == "Consumer is already running"@,
            final(self).spec_config() == old(self).spec_config(),
            final(self).topics() == old(self).topics(),
            final(self).received() == old(self).received(),
            final(self).received_bytes() == old(self).received_bytes(),
            final(self).last_poll() == old(self).last_poll(),
            final(self).last_commit() == old(self).last_commit(),
    {
        if self.running {
            return Err(Error::Internal("Consumer is already running".to_string()));
        }
        self.running = true;
        Ok(())
    }

    /// Stop the consumer; fails if it is not running.
    pub fn stop(&mut self) -> (r: Result<()>)
        ensures
            !final(self).is_running(),
            r is Err <==> !old(self).is_running(),
            r matches Err(e) ==> e matches Error::Internal(s) && s@ == "Consumer is not running"@,
            final(self).spec_config() == old(self).spec_config(),
            final(self).topics() == old(self).topics(),
            final(self).received() == old(self).received(),
            final(self).received_bytes() == old(self).received_bytes(),
            final(self).last_poll() == old(self).last_poll(),
            final(self).last_commit() == old(self).last_commit(),
    {
        if !self.running {
            return Err(Error::Internal("Consumer is not running".to_string()));
        }
        self.running = false;
        Ok(())
    }
}

} // verus!
