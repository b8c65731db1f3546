//! Cluster membership and metadata.

use vstd::prelude::*;
use std::time::Duration;
use crate::broker::error::{Error, Result};
use crate::broker::ids::IdMap;
use crate::broker::names::{DeepCopy, NameMap, copy_opt_string, names_of, opt_name};
use crate::broker::replication::clone_strings;
use crate::broker::time::{age, duration_as_nanos, duration_from_secs, duration_nanos};
use crate::qiss::types::Timestamp;

verus! {

/// Cluster configuration.
#[derive(Debug, Clone)]
pub struct ClusterConfig {
    /// Cluster ID
    pub cluster_id: String,
    /// Broker ID
    pub broker_id: String,
    /// Broker address
    pub broker_address: String,
    /// Controller address
    pub controller_address: Option<String>,
    /// Heartbeat interval
    pub heartbeat_interval: Duration,
    /// Session timeout
    pub session_timeout: Duration,
    /// Rebalance timeout
    pub rebalance_timeout: Duration,
    /// Enable auto rebalance
    pub enable_auto_rebalance: bool,
    /// Minimum in-sync replicas
    pub min_in_sync_replicas: u32,
    /// Unclean leader election
    pub unclean_leader_election: bool,
}

impl ClusterConfig {
    /// The values of the default configuration.
    pub open spec fn is_default(&self) -> bool {
        &&& self.cluster_id@ == "default-cluster"@
        &&& self.broker_id@ == "broker-1"@
        &&& self.broker_address@ == "localhost:9092"@
        &&& self.controller_address is None
        &&& duration_nanos(self.heartbeat_interval) == 3 * 1_000_000_000
        &&& duration_nanos(self.session_timeout) == 30 * 1_000_000_000
        &&& duration_nanos(self.rebalance_timeout) == 60 * 1_000_000_000
        &&& self.enable_auto_rebalance
        &&& self.min_in_sync_replicas == 1
        &&& !self.unclean_leader_election
    }
}

impl Default for ClusterConfig {
    fn default() -> (c: Self)
        ensures
            c.is_default(),
    {
        ClusterConfig {
            cluster_id: "default-cluster".to_string(),
            broker_id: "broker-1".to_string(),
            broker_address: "localhost:9092".to_string(),
            controller_address: None,
            heartbeat_interval: duration_from_secs(3),
            session_timeout: duration_from_secs(30),
            rebalance_timeout: duration_from_secs(60),
            enable_auto_rebalance: true,
            min_in_sync_replicas: 1,
            unclean_leader_election: false,
        }
    }
}

/// Broker state.
#[derive(Debug, Clone, Copy, PartialEq, Eq, Structural)]
pub enum BrokerState {
    /// Offline
    Offline,
    /// Online
    Online,
    /// Controller
    Controller,
}


/// Broker information.
#[derive(Debug)]
pub struct Broker {
    /// Broker ID
    pub broker_id: String,
    /// Broker address
    pub address: String,
    /// Broker state
    pub state: BrokerState,
    /// Last heartbeat
    pub last_heartbeat: Timestamp,
    /// Rack ID
    pub rack_id: Option<String>,
    /// Broker version
    pub version: String,
    /// Broker capabilities
    pub capabilities: Vec<String>,
}

/// What a `Broker` holds, as plain values.
pub struct BrokerView {
    pub broker_id: Seq<char>,
    pub address: Seq<char>,
    pub state: BrokerState,
    pub last_heartbeat: Timestamp,
    pub rack_id: Option<Seq<char>>,
    pub version: Seq<char>,
    pub capabilities: Seq<Seq<char>>,
}

impl View for Broker {
    type V = BrokerView;

    open spec fn view(&self) -> BrokerView {
        BrokerView {
            broker_id: self.broker_id@,
            address: self.address@,
            state: self.state,
            last_heartbeat: self.last_heartbeat,
            rack_id: opt_name(self.rack_id),
            version: self.version@,
            capabilities: names_of(self.capabilities@),
        }
    }
}

impl DeepCopy for Broker {
    fn deep_copy(&self) -> (r: Self) {
        Broker {
            broker_id: self.broker_id.clone(),
            address: self.address.clone(),
            state: self.state,
            last_heartbeat: self.last_heartbeat,
            rack_id: copy_opt_string(&self.rack_id),
            version: self.version.clone(),
            capabilities: clone_strings(&self.capabilities),
        }
    }
}

/// Partition metadata.
#[derive(Debug)]
pub struct PartitionMetadata {
    /// Topic name
    pub topic_name: String,
    /// Partition ID
    pub partition_id: i32,
    /// Leader broker ID
    pub leader: Option<String>,
    /// Replicas
    pub replicas: Vec<String>,
    /// In-sync replicas
    pub in_sync_replicas: Vec<String>,
    /// Offline replicas
    pub offline_replicas: Vec<String>,
}

/// What a `PartitionMetadata` holds, as plain values.
pub struct PartitionMetadataView {
    pub topic_name: Seq<char>,
    pub partition_id: i32,
    pub leader: Option<Seq<char>>,
    pub replicas: Seq<Seq<char>>,
    pub in_sync_replicas: Seq<Seq<char>>,
    pub offline_replicas: Seq<Seq<char>>,
}

impl View for PartitionMetadata {
    type V = PartitionMetadataView;

    open spec fn view(&self) -> PartitionMetadataView {
        PartitionMetadataView {
            topic_name: self.topic_name@,
            partition_id: self.partition_id,
            leader: opt_name(self.leader),
            replicas: names_of(self.replicas@),
            in_sync_replicas: names_of(self.in_sync_replicas@),
            offline_replicas: names_of(self.offline_replicas@),
        }
    }
}

impl DeepCopy for PartitionMetadata {
    fn deep_copy(&self) -> (r: Self) {
        PartitionMetadata {
            topic_name: self.topic_name.clone(),
            partition_id: self.partition_id,
            leader: copy_opt_string(&self.leader),
            replicas: clone_strings(&self.replicas),
            in_sync_replicas: clone_strings(&self.in_sync_replicas),
            offline_replicas: clone_strings(&self.offline_replicas),
        }
    }
}

/// Topic metadata.
#[derive(Debug)]
pub struct TopicMetadata {
    /// Topic name
    pub topic_name: String,
    /// Partitions, by partition ID
    pub partitions: IdMap<PartitionMetadata>,
    /// Replication factor
    pub replication_factor: u32,
    /// Min in-sync replicas
    pub min_in_sync_replicas: u32,
    /// Created timestamp
    pub created_at: Timestamp,
}

/// What a `TopicMetadata` holds, as plain values; the partitions in the
/// order of their IDs.
pub struct TopicMetadataView {
    pub topic_name: Seq<char>,
    pub partition_ids: Seq<i32>,
    pub partitions: Seq<PartitionMetadataView>,
    pub replication_factor: u32,
    pub min_in_sync_replicas: u32,
    pub created_at: Timestamp,
}

impl View for TopicMetadata {
    type V = TopicMetadataView;

    open spec fn view(&self) -> TopicMetadataView {
        TopicMetadataView {
            topic_name: self.topic_name@,
            partition_ids: self.partitions.keys_seq(),
            partitions: self.partitions.values_seq().map_values(|p: PartitionMetadata| p@),
            replication_factor: self.replication_factor,
            min_in_sync_replicas: self.min_in_sync_replicas,
            created_at: self.created_at,
        }
    }
}

impl DeepCopy for TopicMetadata {
    fn deep_copy(&self) -> (r: Self) {
        let partitions = self.partitions.deep_copy_map();
        let r = TopicMetadata {
            topic_name: self.topic_name.clone(),
            partitions,
            replication_factor: self.replication_factor,
            min_in_sync_replicas: self.min_in_sync_replicas,
            created_at: self.created_at,
        };
        assert(r.partitions.values_seq().map_values(|p: PartitionMetadata| p@) =~= self.partitions.values_seq().map_values(|p: PartitionMetadata| p@));
        r
    }
}

/// Cluster metadata.
#[derive(Debug)]
pub struct ClusterMetadata {
    /// Cluster ID
    pub cluster_id: String,
    /// Controller broker ID
    pub controller_broker_id: Option<String>,
    /// Brokers, by broker ID
    pub brokers: NameMap<Broker>,
    /// Topics, by topic name
    pub topics: NameMap<TopicMetadata>,
    /// Last updated
    pub last_updated: Timestamp,
}

/// What a `ClusterMetadata` holds, as plain values; brokers and topics in
/// the order of their names.
pub struct ClusterMetadataView {
    pub cluster_id: Seq<char>,
    pub controller_broker_id: Option<Seq<char>>,
    pub broker_ids: Seq<Seq<char>>,
    pub brokers: Seq<BrokerView>,
    pub topic_names: Seq<Seq<char>>,
    pub topics: Seq<TopicMetadataView>,
    pub last_updated: Timestamp,
}

impl View for ClusterMetadata {
    type V = ClusterMetadataView;

    open spec fn view(&self) -> ClusterMetadataView {
        ClusterMetadataView {
            cluster_id: self.cluster_id@,
            controller_broker_id: opt_name(self.controller_broker_id),
            broker_ids: self.brokers.keys_seq(),
            brokers: self.brokers.values_seq().map_values(|b: Broker| b@),
            topic_names: self.topics.keys_seq(),
            topics: self.topics.values_seq().map_values(|t: TopicMetadata| t@),
            last_updated: self.last_updated,
        }
    }
}

impl ClusterMetadata {
    /// Each broker and topic name once, each partition ID once.
    pub open spec fn wf(&self) -> bool {
        &&& self.brokers.wf()
        &&& self.topics.wf()
        &&& forall|k: Seq<char>| #[trigger] self.topics.map().contains_key(k) ==> self.topics.map()[k].partitions.wf()
    }
}

impl DeepCopy for ClusterMetadata {
    fn deep_copy(&self) -> (r: Self) {
        let r = ClusterMetadata {
            cluster_id: self.cluster_id.clone(),
            controller_broker_id: copy_opt_string(&self.controller_broker_id),
            brokers: self.brokers.deep_copy_map(),
            topics: self.topics.deep_copy_map(),
            last_updated: self.last_updated,
        };
        assert(r.brokers.values_seq().map_values(|b: Broker| b@) =~= self.brokers.values_seq().map_values(|b: Broker| b@));
        assert(r.topics.values_seq().map_values(|t: TopicMetadata| t@) =~= self.topics.values_seq().map_values(|t: TopicMetadata| t@));
        r
    }
}

/// Cluster statistics.
#[derive(Debug, Clone, Copy)]
pub struct ClusterStats {
    /// Total brokers
    pub total_brokers: usize,
    /// Online brokers
    pub online_brokers: usize,
    /// Offline brokers
    pub offline_brokers: usize,
    /// Total topics
    pub total_topics: usize,
    /// Total partitions
    pub total_partitions: usize,
    /// Under-replicated partitions
    pub under_replicated_partitions: usize,
    /// Leaderless partitions
    pub leaderless_partitions: usize,
}

impl Default for ClusterStats {
    fn default() -> (s: Self)
        ensures
            s == (ClusterStats {
                total_brokers: 0,
                online_brokers: 0,
                offline_brokers: 0,
                total_topics: 0,
                total_partitions: 0,
                under_replicated_partitions: 0,
                leaderless_partitions: 0,
            }),
    {
        ClusterStats {
            total_brokers: 0,
            online_brokers: 0,
            offline_brokers: 0,
            total_topics: 0,
            total_partitions: 0,
            under_replicated_partitions: 0,
            leaderless_partitions: 0,
        }
    }
}

/// The brokers that are online or the controller.
pub open spec fn count_online(bs: Seq<Broker>) -> nat
    decreases bs.len(),
{
    if bs.len() == 0 {
        0
    } else {
        count_online(bs.drop_last()) + if bs.last().state != BrokerState::Offline { 1nat } else { 0nat }
    }
}

/// The partitions with fewer in-sync replicas than `min`.
pub open spec fn count_under_replicated(ps: Seq<PartitionMetadata>, min: u32) -> nat
    decreases ps.len(),
{
    if ps.len() == 0 {
        0
    } else {
        count_under_replicated(ps.drop_last(), min) + if ps.last().in_sync_replicas@.len() < min { 1nat } else { 0nat }
    }
}

/// The partitions without a leader.
pub open spec fn count_leaderless(ps: Seq<PartitionMetadata>) -> nat
    decreases ps.len(),
{
    if ps.len() == 0 {
        0
    } else {
        count_leaderless(ps.drop_last()) + if ps.last().leader is None { 1nat } else { 0nat }
    }
}

/// The partitions of the topics.
pub open spec fn partitions_in(ts: Seq<TopicMetadata>) -> nat
    decreases ts.len(),
{
    if ts.len() == 0 {
        0
    } else {
        partitions_in(ts.drop_last()) + ts.last().partitions.values_seq().len()
    }
}

/// The under-replicated partitions of the topics, each topic with its own
/// minimum of in-sync replicas.
pub open spec fn under_replicated_in(ts: Seq<TopicMetadata>) -> nat
    decreases ts.len(),
{
    if ts.len() == 0 {
        0
    } else {
        under_replicated_in(ts.drop_last()) + count_under_replicated(ts.last().partitions.values_seq(), ts.last().min_in_sync_replicas)
    }
}

/// The leaderless partitions of the topics.
pub open spec fn leaderless_in(ts: Seq<TopicMetadata>) -> nat
    decreases ts.len(),
{
    if ts.len() == 0 {
        0
    } else {
        leaderless_in(ts.drop_last()) + count_leaderless(ts.last().partitions.values_seq())
    }
}

/// The broker a cluster manager registers for itself at `now`.
pub open spec fn own_broker(c: ClusterConfig, now: Timestamp) -> BrokerView {
    BrokerView {
        broker_id: c.broker_id@,
        address: c.broker_address@,
        state: BrokerState::Online,
        last_heartbeat: now,
        rack_id: None,
        version: "1.0.0"@,
        capabilities: seq!["neo-protocol"@],
    }
}

/// A broker after a heartbeat at `now`: online, heard from at `now`.
pub open spec fn heard_from(b: BrokerView, now: Timestamp) -> BrokerView {
    BrokerView { state: BrokerState::Online, last_heartbeat: now, ..b }
}

/// A broker after the health check at `now`: one not heard from for longer
/// than `timeout` nanoseconds goes offline.
pub open spec fn checked_broker(b: BrokerView, now: Timestamp, timeout: u128) -> BrokerView {
    if age(now, b.last_heartbeat) > timeout {
        BrokerView { state: BrokerState::Offline, ..b }
    } else {
        b
    }
}

/// `after` is `before` after the health check at `now` with a session
/// timeout of `timeout` nanoseconds.
pub open spec fn health_checked(before: Seq<Broker>, after: Seq<Broker>, now: Timestamp, timeout: u128) -> bool {
    &&& after.len() == before.len()
    &&& forall|i: int| 0 <= i < before.len() ==> (#[trigger] after[i])@ == checked_broker(before[i]@, now, timeout)
}

/// Counting stops at the length of what is counted.
pub proof fn lemma_counts_bounded(ps: Seq<PartitionMetadata>, min: u32)
    ensures
        count_under_replicated(ps, min) <= ps.len(),
        count_leaderless(ps) <= ps.len(),
    decreases ps.len(),
{
    if ps.len() > 0 {
        lemma_counts_bounded(ps.drop_last(), min);
    }
}

/// The counts over topics stay within their partitions, and grow with the
/// topics.
pub proof fn lemma_topic_counts(ts: Seq<TopicMetadata>, i: int)
    requires
        0 <= i <= ts.len(),
    ensures
        under_replicated_in(ts) <= partitions_in(ts),
        leaderless_in(ts) <= partitions_in(ts),
        partitions_in(ts.take(i)) <= partitions_in(ts),
    decreases ts.len(),
{
    if ts.len() > 0 {
        let last = ts.last();
        lemma_counts_bounded(last.partitions.values_seq(), last.min_in_sync_replicas);
        if i == ts.len() {
            assert(ts.take(i) =~= ts);
            lemma_topic_counts(ts.drop_last(), 0);
        } else {
            assert(ts.drop_last().take(i) =~= ts.take(i));
            lemma_topic_counts(ts.drop_last(), i);
        }
    } else {
        assert(ts.take(i) =~= ts);
    }
}

/// The cluster manager: the brokers and topics of a cluster as this broker
/// knows them.
pub struct ClusterManager {
    config: ClusterConfig,
    metadata: ClusterMetadata,
    running: bool,
}

impl ClusterManager {
    /// The configuration.
    pub closed spec fn spec_config(&self) -> ClusterConfig {
        self.config
    }

    /// The metadata.
    pub closed spec fn spec_metadata(&self) -> ClusterMetadata {
        self.metadata
    }

    /// Whether the manager runs.
    pub closed spec fn is_running(&self) -> bool {
        self.running
    }

    /// The brokers by ID.
    pub open spec fn brokers(&self) -> Map<Seq<char>, Broker> {
        self.spec_metadata().brokers.map()
    }

    /// The topics by name.
    pub open spec fn topics(&self) -> Map<Seq<char>, TopicMetadata> {
        self.spec_metadata().topics.map()
    }

    /// The metadata is well formed.
    pub open spec fn wf(&self) -> bool {
        self.spec_metadata().wf()
    }

    /// Everything but the brokers and the time of the last update is as in
    /// `other`.
    pub open spec fn same_but_brokers(&self, other: &ClusterManager) -> bool {
        &&& self.spec_config() == other.spec_config()
        &&& self.is_running() == other.is_running()
        &&& self.spec_metadata().cluster_id == other.spec_metadata().cluster_id
        &&& self.spec_metadata().controller_broker_id == other.spec_metadata().controller_broker_id
        &&& self.spec_metadata().topics == other.spec_metadata().topics
    }

    /// Everything but the topics and the time of the last update is as in
    /// `other`.
    pub open spec fn same_but_topics(&self, other: &ClusterManager) -> bool {
        &&& self.spec_config() == other.spec_config()
        &&& self.is_running() == other.is_running()
        &&& self.spec_metadata().cluster_id == other.spec_metadata().cluster_id
        &&& self.spec_metadata().controller_broker_id == other.spec_metadata().controller_broker_id
        &&& self.spec_metadata().brokers == other.spec_metadata().brokers
    }

    /// A stopped manager of cluster `config.cluster_id` that knows no broker
    /// and no topic, last updated at `now`.
    pub fn new_at(config: ClusterConfig, now: Timestamp) -> (m: Self)
        ensures
            m.wf(),
            m.spec_config() == config,
            !m.is_running(),
            m.spec_metadata().cluster_id@ == config.cluster_id@,
            m.spec_metadata().controller_broker_id is None,
            m.brokers() == Map::<Seq<char>, Broker>::empty(),
            m.topics() == Map::<Seq<char>, TopicMetadata>::empty(),
            m.spec_metadata().last_updated == now,
    {
        let topics: NameMap<TopicMetadata> = NameMap::new();
        let metadata = ClusterMetadata {
            cluster_id: config.cluster_id.clone(),
            controller_broker_id: None,
            brokers: NameMap::new(),
            topics,
            last_updated: now,
        };
        ClusterManager { config, metadata, running: false }
    }

    /// A new manager, last updated now (see `new_at`).
    pub fn new(config: ClusterConfig) -> (m: Self)
        ensures
            m.wf(),
            m.spec_config() == config,
            !m.is_running(),
            m.spec_metadata().cluster_id@ == config.cluster_id@,
            m.spec_metadata().controller_broker_id is None,
            m.brokers() == Map::<Seq<char>, Broker>::empty(),
            m.topics() == Map::<Seq<char>, TopicMetadata>::empty(),
    {
        Self::new_at(config, Timestamp::now())
    }

    /// The configuration.
    pub fn config(&self) -> (c: &ClusterConfig)
        ensures
            *c == self.spec_config(),
    {
        &self.config
    }

    /// Register this broker at `now`: online, heard from at `now`.
    pub fn register_broker_at(&mut self, now: Timestamp) -> (r: Result<()>)
        requires
            old(self).wf(),
        ensures
            r is Ok,
            final(self).wf(),
            final(self).same_but_brokers(old(self)),
            final(self).brokers().contains_key(old(self).spec_config().broker_id@),
            final(self).brokers()[old(self).spec_config().broker_id@]@ == own_broker(old(self).spec_config(), now),
            final(self).brokers().remove(old(self).spec_config().broker_id@) == old(self).brokers().remove(old(self).spec_config().broker_id@),
            final(self).spec_metadata().last_updated == now,
    {
        let broker = Broker {
            broker_id: self.config.broker_id.clone(),
            address: self.config.broker_address.clone(),
            state: BrokerState::Online,
            last_heartbeat: now,
            rack_id: None,
            version: "1.0.0".to_string(),
            capabilities: vec!["neo-protocol".to_string()],
        };
        proof {
            assert(names_of(broker.capabilities@) =~= seq!["neo-protocol"@]);
        }
        let ghost b = broker;
        self.metadata.brokers.insert(self.config.broker_id.clone(), broker);
        self.metadata.last_updated = now;
        proof {
            assert(self.brokers().remove(self.config.broker_id@) =~= old(self).brokers().remove(self.config.broker_id@));
        }
        Ok(())
    }

    /// Register this broker now (see `register_broker_at`).
    pub fn register_broker(&mut self) -> (r: Result<()>)
        requires
            old(self).wf(),
        ensures
            r is Ok,
            final(self).wf(),
            final(self).same_but_brokers(old(self)),
            final(self).brokers().contains_key(old(self).spec_config().broker_id@),
            exists|now: Timestamp| final(self).brokers()[old(self).spec_config().broker_id@]@ == #[trigger] own_broker(old(self).spec_config(), now),
            final(self).brokers().remove(old(self).spec_config().broker_id@) == old(self).brokers().remove(old(self).spec_config().broker_id@),
    {
        self.register_broker_at(Timestamp::now())
    }

    /// Unregister this broker at `now`.
    pub fn unregister_broker_at(&mut self, now: Timestamp) -> (r: Result<()>)
        requires
            old(self).wf(),
        ensures
            r is Ok,
            final(self).wf(),
            final(self).same_but_brokers(old(self)),
            final(self).brokers() == old(self).brokers().remove(old(self).spec_config().broker_id@),
            final(self).spec_metadata().last_updated == now,
    {
        let _ = self.metadata.brokers.remove(self.config.broker_id.as_str());
        self.metadata.last_updated = now;
        Ok(())
    }

    /// Unregister this broker now (see `unregister_broker_at`).
    pub fn unregister_broker(&mut self) -> (r: Result<()>)
        requires
            old(self).wf(),
        ensures
            r is Ok,
            final(self).wf(),
            final(self).same_but_brokers(old(self)),
            final(self).brokers() == old(self).brokers().remove(old(self).spec_config().broker_id@),
    {
        self.unregister_broker_at(Timestamp::now())
    }

    /// Start the manager at `now`, registering this broker; fails if it runs
    /// already.
    pub fn start_at(&mut self, now: Timestamp) -> (r: Result<()>)
        requires
            old(self).wf(),
        ensures
            final(self).wf(),
            final(self).is_running(),
            r is Err <==> old(self).is_running(),
            r matches Err(e) ==> e matches Error::Internal(s) && s@ == "Cluster manager is already running"@,
            r is Err ==> *final(self) == *old(self),
            r is Ok ==> {
                &&& final(self).spec_config() == old(self).spec_config()
                &&& final(self).topics() == old(self).topics()
                &&& final(self).brokers().contains_key(old(self).spec_config().broker_id@)
                &&& final(self).brokers()[old(self).spec_config().broker_id@]@ == own_broker(old(self).spec_config(), now)
                &&& final(self).brokers().remove(old(self).spec_config().broker_id@) == old(self).brokers().remove(old(self).spec_config().broker_id@)
            },
    {
        if self.running {
            return Err(Error::Internal("Cluster manager is already running".to_string()));
        }
        self.running = true;
        self.register_broker_at(now)
    }

    /// Start the manager now (see `start_at`).
    pub fn start(&mut self) -> (r: Result<()>)
        requires
            old(self).wf(),
        ensures
            final(self).wf(),
            final(self).is_running(),
            r is Err <==> old(self).is_running(),
            r matches Err(e) ==> e matches Error::Internal(s) && s@ == "Cluster manager is already running"@,
            r is Err ==> *final(self) == *old(self),
            r is Ok ==> {
                &&& final(self).spec_config() == old(self).spec_config()
                &&& final(self).topics() == old(self).topics()
                &&& final(self).brokers().contains_key(old(self).spec_config().broker_id@)
                &&& exists|now: Timestamp| final(self).brokers()[old(self).spec_config().broker_id@]@ == #[trigger] own_broker(old(self).spec_config(), now)
                &&& final(self).brokers().remove(old(self).spec_config().broker_id@) == old(self).brokers().remove(old(self).spec_config().broker_id@)
            },
    {
        self.start_at(Timestamp::now())
    }

    /// Stop the manager at `now`, unregistering this broker; fails if it is
    /// not running.
    pub fn stop_at(&mut self, now: Timestamp) -> (r: Result<()>)
        requires
            old(self).wf(),
        ensures
            final(self).wf(),
            !final(self).is_running(),
            r is Err <==> !old(self).is_running(),
            r matches Err(e) ==> e matches Error::Internal(s) && s@ == "Cluster manager is not running"@,
            r is Err ==> *final(self) == *old(self),
            r is Ok ==> {
                &&& final(self).spec_config() == old(self).spec_config()
                &&& final(self).topics() == old(self).topics()
                &&& final(self).brokers() == old(self).brokers().remove(old(self).spec_config().broker_id@)
            },
    {
        if !self.running {
            return Err(Error::Internal("Cluster manager is not running".to_string()));
        }
        self.running = false;
        self.unregister_broker_at(now)
    }

    /// Stop the manager now (see `stop_at`).
    pub fn stop(&mut self) -> (r: Result<()>)
        requires
            old(self).wf(),
        ensures
            final(self).wf(),
            !final(self).is_running(),
            r is Err <==> !old(self).is_running(),
            r matches Err(e) ==> e matches Error::Internal(s) && s@ == "Cluster manager is not running"@,
            r is Err ==> *final(self) == *old(self),
            r is Ok ==> {
                &&& final(self).spec_config() == old(self).spec_config()
                &&& final(self).topics() == old(self).topics()
                &&& final(self).brokers() == old(self).brokers().remove(old(self).spec_config().broker_id@)
            },
    {
        self.stop_at(Timestamp::now())
    }

    /// Add (or replace) `broker`, under its ID, at `now`.
    pub fn add_broker_at(&mut self, broker: Broker, now: Timestamp) -> (r: Result<()>)
        requires
            old(self).wf(),
        ensures
            r is Ok,
            final(self).wf(),
            final(self).same_but_brokers(old(self)),
            final(self).brokers() == old(self).brokers().insert(broker.broker_id@, broker),
            final(self).spec_metadata().last_updated == now,
    {
        let id = broker.broker_id.clone();
        self.metadata.brokers.insert(id, broker);
        self.metadata.last_updated = now;
        Ok(())
    }

    /// Add `broker` now (see `add_broker_at`).
    pub fn add_broker(&mut self, broker: Broker) -> (r: Result<()>)
        requires
            old(self).wf(),
        ensures
            r is Ok,
            final(self).wf(),
            final(self).same_but_brokers(old(self)),
            final(self).brokers() == old(self).brokers().insert(broker.broker_id@, broker),
    {
        self.add_broker_at(broker, Timestamp::now())
    }

    /// Remove broker `broker_id` at `now`.
    pub fn remove_broker_at(&mut self, broker_id: &str, now: Timestamp) -> (r: Result<()>)
        requires
            old(self).wf(),
        ensures
            r is Ok,
            final(self).wf(),
            final(self).same_but_brokers(old(self)),
            final(self).brokers() == old(self).brokers().remove(broker_id@),
            final(self).spec_metadata().last_updated == now,
    {
        let _ = self.metadata.brokers.remove(broker_id);
        self.metadata.last_updated = now;
        Ok(())
    }

    /// Remove broker `broker_id` now (see `remove_broker_at`).
    pub fn remove_broker(&mut self, broker_id: &str) -> (r: Result<()>)
        requires
            old(self).wf(),
        ensures
            r is Ok,
            final(self).wf(),
            final(self).same_but_brokers(old(self)),
            final(self).brokers() == old(self).brokers().remove(broker_id@),
    {
        self.remove_broker_at(broker_id, Timestamp::now())
    }

    /// Record a heartbeat of broker `broker_id` at `now`: a known broker is
    /// online and heard from at `now`; an unknown one is passed over.
    pub fn update_broker_heartbeat_at(&mut self, broker_id: &str, now: Timestamp) -> (r: Result<()>)
        requires
            old(self).wf(),
        ensures
            r is Ok,
            final(self).wf(),
            final(self).same_but_brokers(old(self)),
            final(self).spec_metadata().last_updated == old(self).spec_metadata().last_updated,
            final(self).brokers().dom() == old(self).brokers().dom(),
            final(self).brokers().remove(broker_id@) == old(self).brokers().remove(broker_id@),
            old(self).brokers().contains_key(broker_id@) ==> final(self).brokers()[broker_id@]@ == heard_from(old(self).brokers()[broker_id@]@, now),
            !old(self).brokers().contains_key(broker_id@) ==> final(self).spec_metadata() == old(self).spec_metadata(),
    {
        proof {
            self.metadata.brokers.lemma_seqs();
        }
        let n = self.metadata.brokers.len();
        let key = broker_id.to_string();
        let mut i: usize = 0;
        while i < n
            invariant
                n == self.metadata.brokers.keys_seq().len(),
                n == self.metadata.brokers.values_seq().len(),
                key@ == broker_id@,
                self.wf(),
                *self == *old(self),
                i <= n,
                forall|j: int| 0 <= j < i ==> self.metadata.brokers.keys_seq()[j] != broker_id@,
            decreases n - i,
        {
            if *self.metadata.brokers.key_at(i) == key {
                let mut b = self.metadata.brokers.value_at(i).deep_copy();
                b.state = BrokerState::Online;
                b.last_heartbeat = now;
                let ghost k = self.metadata.brokers.keys_seq()[i as int];
                self.metadata.brokers.set_value_at(i, b);
                proof {
                    old(self).metadata.brokers.lemma_seqs();
                    assert(old(self).brokers()[k] == old(self).metadata.brokers.values_seq()[i as int]);
                    assert(self.brokers().remove(k) =~= old(self).brokers().remove(k));
                    assert(self.brokers().dom() =~= old(self).brokers().dom());
                }
                return Ok(());
            }
            i = i + 1;
        }
        proof {
            if old(self).brokers().contains_key(broker_id@) {
                let j = choose|j: int| 0 <= j < self.metadata.brokers.keys_seq().len() && self.metadata.brokers.keys_seq()[j] == broker_id@;
                assert(self.metadata.brokers.keys_seq()[j] != broker_id@);
            }
        }
        Ok(())
    }

    /// Record a heartbeat of broker `broker_id` now (see
    /// `update_broker_heartbeat_at`).
    pub fn update_broker_heartbeat(&mut self, broker_id: &str) -> (r: Result<()>)
        requires
            old(self).wf(),
        ensures
            r is Ok,
            final(self).wf(),
            final(self).same_but_brokers(old(self)),
            final(self).brokers().dom() == old(self).brokers().dom(),
            final(self).brokers().remove(broker_id@) == old(self).brokers().remove(broker_id@),
            old(self).brokers().contains_key(broker_id@) ==> exists|now: Timestamp| final(self).brokers()[broker_id@]@ == #[trigger] heard_from(old(self).brokers()[broker_id@]@, now),
    {
        self.update_broker_heartbeat_at(broker_id, Timestamp::now())
    }

    /// A copy of broker `broker_id`, if known.
    pub fn get_broker(&self, broker_id: &str) -> (r: Result<Option<Broker>>)
        requires
            self.wf(),
        ensures
            r matches Ok(o) && match o {
                Some(b) => self.brokers().contains_key(broker_id@) && b@ == self.brokers()[broker_id@]@,
                None => !self.brokers().contains_key(broker_id@),
            },
    {
        match self.metadata.brokers.get(broker_id) {
            Some(b) => Ok(Some(b.deep_copy())),
            None => Ok(None),
        }
    }

    /// Copies of all brokers, in the order they were first added.
    pub fn get_brokers(&self) -> (r: Vec<Broker>)
        ensures
            r@.len() == self.spec_metadata().brokers.values_seq().len(),
            forall|i: int| 0 <= i < r@.len() ==> (#[trigger] r@[i])@ == self.spec_metadata().brokers.values_seq()[i]@,
    {
        let n = self.metadata.brokers.len();
        let mut r: Vec<Broker> = Vec::new();
        let mut i: usize = 0;
        while i < n
            invariant
                n == self.metadata.brokers.values_seq().len(),
                i <= n,
                r@.len() == i,
                forall|j: int| 0 <= j < i ==> (#[trigger] r@[j])@ == self.metadata.brokers.values_seq()[j]@,
            decreases n - i,
        {
            r.push(self.metadata.brokers.value_at(i).deep_copy());
            i = i + 1;
        }
        r
    }

    /// Add (or replace) the metadata of a topic, under its name, at `now`.
    pub fn add_topic_metadata_at(&mut self, topic_metadata: TopicMetadata, now: Timestamp) -> (r: Result<()>)
        requires
            old(self).wf(),
            topic_metadata.partitions.wf(),
        ensures
            r is Ok,
            final(self).wf(),
            final(self).same_but_topics(old(self)),
            final(self).topics() == old(self).topics().insert(topic_metadata.topic_name@, topic_metadata),
            final(self).spec_metadata().last_updated == now,
    {
        let name = topic_metadata.topic_name.clone();
        self.metadata.topics.insert(name, topic_metadata);
        self.metadata.last_updated = now;
        Ok(())
    }

    /// Add the metadata of a topic now (see `add_topic_metadata_at`).
    pub fn add_topic_metadata(&mut self, topic_metadata: TopicMetadata) -> (r: Result<()>)
        requires
            old(self).wf(),
            topic_metadata.partitions.wf(),
        ensures
            r is Ok,
            final(self).wf(),
            final(self).same_but_topics(old(self)),
            final(self).topics() == old(self).topics().insert(topic_metadata.topic_name@, topic_metadata),
    {
        self.add_topic_metadata_at(topic_metadata, Timestamp::now())
    }

    /// Remove the metadata of topic `topic_name` at `now`.
    pub fn remove_topic_metadata_at(&mut self, topic_name: &str, now: Timestamp) -> (r: Result<()>)
        requires
            old(self).wf(),
        ensures
            r is Ok,
            final(self).wf(),
            final(self).same_but_topics(old(self)),
            final(self).topics() == old(self).topics().remove(topic_name@),
            final(self).spec_metadata().last_updated == now,
    {
        let _ = self.metadata.topics.remove(topic_name);
        self.metadata.last_updated = now;
        Ok(())
    }

    /// Remove the metadata of topic `topic_name` now (see
    /// `remove_topic_metadata_at`).
    pub fn remove_topic_metadata(&mut self, topic_name: &str) -> (r: Result<()>)
        requires
            old(self).wf(),
        ensures
            r is Ok,
            final(self).wf(),
            final(self).same_but_topics(old(self)),
            final(self).topics() == old(self).topics().remove(topic_name@),
    {
        self.remove_topic_metadata_at(topic_name, Timestamp::now())
    }

    /// Set the metadata of partition `partition_id` of topic `topic_name` at
    /// `now`; an unknown topic is passed over.
    pub fn update_partition_metadata_at(
        &mut self,
        topic_name: &str,
        partition_id: i32,
        partition_metadata: PartitionMetadata,
        now: Timestamp,
    ) -> (r: Result<()>)
        requires
            old(self).wf(),
        ensures
            r is Ok,
            final(self).wf(),
            final(self).same_but_topics(old(self)),
            if old(self).topics().contains_key(topic_name@) {
                let t = old(self).topics()[topic_name@];
                let u = final(self).topics()[topic_name@];
                &&& final(self).topics().contains_key(topic_name@)
                &&& final(self).topics().remove(topic_name@) == old(self).topics().remove(topic_name@)
                &&& u.partitions.map() == t.partitions.map().insert(partition_id, partition_metadata)
                &&& u.topic_name == t.topic_name
                &&& u.replication_factor == t.replication_factor
                &&& u.min_in_sync_replicas == t.min_in_sync_replicas
                &&& u.created_at == t.created_at
                &&& final(self).spec_metadata().last_updated == now
            } else {
                final(self).spec_metadata() == old(self).spec_metadata()
            },
    {
        if self.metadata.topics.get(topic_name).is_none() {
            return Ok(());
        }
        match self.metadata.topics.remove(topic_name) {
            Some(mut t) => {
                t.partitions.insert(partition_id, partition_metadata);
                self.metadata.topics.insert(topic_name.to_string(), t);
                self.metadata.last_updated = now;
                proof {
                    assert(self.topics().remove(topic_name@) =~= old(self).topics().remove(topic_name@));
                }
                Ok(())
            },
            None => {
                proof {
                    assert(self.metadata.topics.map() =~= old(self).metadata.topics.map());
                }
                Ok(())
            },
        }
    }

    /// Set the metadata of a partition now (see
    /// `update_partition_metadata_at`).
    pub fn update_partition_metadata(&mut self, topic_name: &str, partition_id: i32, partition_metadata: PartitionMetadata) -> (r: Result<()>)
        requires
            old(self).wf(),
        ensures
            r is Ok,
            final(self).wf(),
            final(self).same_but_topics(old(self)),
            if old(self).topics().contains_key(topic_name@) {
                let t = old(self).topics()[topic_name@];
                let u = final(self).topics()[topic_name@];
                &&& final(self).topics().contains_key(topic_name@)
                &&& final(self).topics().remove(topic_name@) == old(self).topics().remove(topic_name@)
                &&& u.partitions.map() == t.partitions.map().insert(partition_id, partition_metadata)
                &&& u.topic_name == t.topic_name
                &&& u.replication_factor == t.replication_factor
                &&& u.min_in_sync_replicas == t.min_in_sync_replicas
                &&& u.created_at == t.created_at
            } else {
                final(self).spec_metadata() == old(self).spec_metadata()
            },
    {
        self.update_partition_metadata_at(topic_name, partition_id, partition_metadata, Timestamp::now())
    }

    /// A copy of the metadata of topic `topic_name`, if known.
    pub fn get_topic_metadata(&self, topic_name: &str) -> (r: Result<Option<TopicMetadata>>)
        requires
            self.wf(),
        ensures
            r matches Ok(o) && match o {
                Some(t) => self.topics().contains_key(topic_name@) && t@ == self.topics()[topic_name@]@,
                None => !self.topics().contains_key(topic_name@),
            },
    {
        match self.metadata.topics.get(topic_name) {
            Some(t) => Ok(Some(t.deep_copy())),
            None => Ok(None),
        }
    }

    /// A copy of the metadata of partition `partition_id` of topic
    /// `topic_name`, if both are known.
    pub fn get_partition_metadata(&self, topic_name: &str, partition_id: i32) -> (r: Result<Option<PartitionMetadata>>)
        requires
            self.wf(),
        ensures
            r matches Ok(o) && match o {
                Some(p) => self.topics().contains_key(topic_name@)
                    && self.topics()[topic_name@].partitions.map().contains_key(partition_id)
                    && p@ == self.topics()[topic_name@].partitions.map()[partition_id]@,
                None => !self.topics().contains_key(topic_name@)
                    || !self.topics()[topic_name@].partitions.map().contains_key(partition_id),
            },
    {
        match self.metadata.topics.get(topic_name) {
            Some(t) => match t.partitions.get(partition_id) {
                Some(p) => Ok(Some(p.deep_copy())),
                None => Ok(None),
            },
            None => Ok(None),
        }
    }

    /// A copy of the metadata.
    pub fn get_cluster_metadata(&self) -> (m: ClusterMetadata)
        ensures
            m@ == self.spec_metadata()@,
    {
        self.metadata.deep_copy()
    }

    /// Mark the metadata as updated at `now`.
    pub fn refresh_metadata_at(&mut self, now: Timestamp)
        ensures
            final(self).spec_metadata() == (ClusterMetadata { last_updated: now, ..old(self).spec_metadata() }),
            final(self).spec_config() == old(self).spec_config(),
            final(self).is_running() == old(self).is_running(),
    {
        self.metadata.last_updated = now;
    }

    /// The statistics: brokers by state, topics, and partitions that are
    /// under-replicated or have no leader.
    pub fn get_stats(&self) -> (s: ClusterStats)
        requires
            partitions_in(self.spec_metadata().topics.values_seq()) <= usize::MAX,
        ensures
            s.total_brokers == self.spec_metadata().brokers.values_seq().len(),
            s.online_brokers == count_online(self.spec_metadata().brokers.values_seq()),
            s.offline_brokers == self.spec_metadata().brokers.values_seq().len() - count_online(self.spec_metadata().brokers.values_seq()),
            s.total_topics == self.spec_metadata().topics.values_seq().len(),
            s.total_partitions == partitions_in(self.spec_metadata().topics.values_seq()),
            s.under_replicated_partitions == under_replicated_in(self.spec_metadata().topics.values_seq()),
            s.leaderless_partitions == leaderless_in(self.spec_metadata().topics.values_seq()),
    {
        let ghost bs = self.metadata.brokers.values_seq();
        let ghost ts = self.metadata.topics.values_seq();
        let nb = self.metadata.brokers.len();
        let mut online: usize = 0;
        let mut offline: usize = 0;
        let mut i: usize = 0;
        while i < nb
            invariant
                bs == self.metadata.brokers.values_seq(),
                nb == bs.len(),
                i <= nb,
                online == count_online(bs.take(i as int)),
                online + offline == i,
            decreases nb - i,
        {
            proof {
                assert(bs.take(i + 1).drop_last() =~= bs.take(i as int));
                lemma_count_online_bounded(bs.take(i as int));
            }
            match self.metadata.brokers.value_at(i).state {
                BrokerState::Online | BrokerState::Controller => {
                    online = online + 1;
                },
                BrokerState::Offline => {
                    offline = offline + 1;
                },
            }
            i = i + 1;
        }
        proof {
            assert(bs.take(nb as int) =~= bs);
        }
        let nt = self.metadata.topics.len();
        let mut partitions: usize = 0;
        let mut under: usize = 0;
        let mut leaderless: usize = 0;
        let mut k: usize = 0;
        while k < nt
            invariant
                ts == self.metadata.topics.values_seq(),
                nt == ts.len(),
                partitions_in(ts) <= usize::MAX,
                k <= nt,
                partitions == partitions_in(ts.take(k as int)),
                under == under_replicated_in(ts.take(k as int)),
                leaderless == leaderless_in(ts.take(k as int)),
            decreases nt - k,
        {
            let t = self.metadata.topics.value_at(k);
            let (u, l) = count_partition_flags(&t.partitions, t.min_in_sync_replicas);
            proof {
                assert(ts.take(k + 1).drop_last() =~= ts.take(k as int));
                lemma_topic_counts(ts, k + 1);
                lemma_topic_counts(ts.take(k + 1), 0);
            }
            partitions = partitions + t.partitions.len();
            under = under + u;
            leaderless = leaderless + l;
            k = k + 1;
        }
        proof {
            assert(ts.take(nt as int) =~= ts);
        }
        ClusterStats {
            total_brokers: nb,
            online_brokers: online,
            offline_brokers: offline,
            total_topics: nt,
            total_partitions: partitions,
            under_replicated_partitions: under,
            leaderless_partitions: leaderless,
        }
    }

    /// The health check at `now`: each broker not heard from for longer
    /// than the session timeout goes offline.
    pub fn check_broker_health_at(&mut self, now: Timestamp)
        requires
            old(self).wf(),
        ensures
            final(self).wf(),
            final(self).same_but_brokers(old(self)),
            final(self).spec_metadata().last_updated == old(self).spec_metadata().last_updated,
            final(self).spec_metadata().brokers.keys_seq() == old(self).spec_metadata().brokers.keys_seq(),
            health_checked(old(self).spec_metadata().brokers.values_seq(), final(self).spec_metadata().brokers.values_seq(), now, duration_nanos(old(self).spec_config().session_timeout)),
    {
        let timeout = duration_as_nanos(&self.config.session_timeout);
        let n = self.metadata.brokers.len();
        let ghost old_values = self.metadata.brokers.values_seq();
        let mut i: usize = 0;
        while i < n
            invariant
                n == old_values.len(),
                n == self.metadata.brokers.values_seq().len(),
                old_values == old(self).spec_metadata().brokers.values_seq(),
                timeout == duration_nanos(self.config.session_timeout),
                i <= n,
                self.wf(),
                self.same_but_brokers(old(self)),
                self.spec_metadata().last_updated == old(self).spec_metadata().last_updated,
                self.metadata.brokers.keys_seq() == old(self).spec_metadata().brokers.keys_seq(),
                forall|j: int| 0 <= j < i ==> (#[trigger] self.metadata.brokers.values_seq()[j])@ == checked_broker(old_values[j]@, now, timeout),
                forall|j: int| i <= j < n ==> #[trigger] self.metadata.brokers.values_seq()[j] == old_values[j],
            decreases n - i,
        {
            let b = self.metadata.brokers.value_at(i);
            let heard = b.last_heartbeat.0;
            let silent: u128 = if now.0 >= heard { (now.0 - heard) as u128 } else { 0 };
            if silent > timeout && b.state != BrokerState::Offline {
                let mut c = b.deep_copy();
                c.state = BrokerState::Offline;
                self.metadata.brokers.set_value_at(i, c);
            }
            i = i + 1;
        }
    }

    /// The health check now (see `check_broker_health_at`).
    pub fn check_broker_health(&mut self)
        requires
            old(self).wf(),
        ensures
            final(self).wf(),
            final(self).same_but_brokers(old(self)),
            final(self).spec_metadata().last_updated == old(self).spec_metadata().last_updated,
            final(self).spec_metadata().brokers.keys_seq() == old(self).spec_metadata().brokers.keys_seq(),
            exists|now: Timestamp| #[trigger] health_checked(old(self).spec_metadata().brokers.values_seq(), final(self).spec_metadata().brokers.values_seq(), now, duration_nanos(old(self).spec_config().session_timeout)),
    {
        self.check_broker_health_at(Timestamp::now())
    }
}

/// The under-replicated and the leaderless partitions of `ps`, the first
/// judged against `min` in-sync replicas.
fn count_partition_flags(ps: &IdMap<PartitionMetadata>, min: u32) -> (r: (usize, usize))
    ensures
        r.0 == count_under_replicated(ps.values_seq(), min),
        r.1 == count_leaderless(ps.values_seq()),
{
    let ghost vs = ps.values_seq();
    let n = ps.len();
    let mut under: usize = 0;
    let mut leaderless: usize = 0;
    let mut j: usize = 0;
    while j < n
        invariant
            vs == ps.values_seq(),
            n == vs.len(),
            j <= n,
            under == count_under_replicated(vs.take(j as int), min),
            leaderless == count_leaderless(vs.take(j as int)),
        decreases n - j,
    {
        proof {
            assert(vs.take(j + 1).drop_last() =~= vs.take(j as int));
            lemma_counts_bounded(vs.take(j as int), min);
        }
        let p = ps.value_at(j);
        if (p.in_sync_replicas.len() as u64) < (min as u64) {
            under = under + 1;
        }
        if p.leader.is_none() {
            leaderless = leaderless + 1;
        }
        j = j + 1;
    }
    proof {
        assert(vs.take(n as int) =~= vs);
    }
    (under, leaderless)
}

/// Counting online brokers stops at the number of brokers.
pub proof fn lemma_count_online_bounded(bs: Seq<Broker>)
    ensures
        count_online(bs) <= bs.len(),
    decreases bs.len(),
{
    if bs.len() > 0 {
        lemma_count_online_bounded(bs.drop_last());
    }
}

} // verus!
