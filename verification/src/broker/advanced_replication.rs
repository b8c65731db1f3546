//! Replication across regions: the replicas of each partition, a log of
//! replications that per-region workers take off, conflict resolution and
//! statistics.
//!
//! Timers, channels and the delays of sending are the caller's; the manager
//! decides what each step does to its state and which events it reports.

use vstd::prelude::*;
use std::time::Duration;
use crate::broker::error::{Error, Result, is_storage_error};
use crate::broker::hashing::hash_u64;
use crate::broker::message::{Message, MessageView, Offset};
use crate::broker::text::{decimal, hex, push_hex, with_text};
use crate::broker::time::{duration_as_nanos, duration_from_millis, duration_from_secs, duration_nanos};
use crate::qiss::types::Timestamp;

verus! {

/// Replication configuration.
#[derive(Debug)]
pub struct ReplicationConfig {
    /// Replication factor
    pub replication_factor: u32,
    /// Minimum in-sync replicas
    pub min_in_sync_replicas: u32,
    /// Enable cross-region replication
    pub enable_cross_region: bool,
    /// Replication regions
    pub regions: Vec<ReplicationRegion>,
    /// Replication strategy
    pub strategy: ReplicationStrategy,
    /// Conflict resolution strategy
    pub conflict_resolution: ConflictResolutionStrategy,
    /// Replication timeout
    pub replication_timeout: Duration,
    /// Batch size for replication
    pub batch_size: usize,
    /// Enable compression for replication
    pub enable_compression: bool,
    /// Enable encryption for replication
    pub enable_encryption: bool,
    /// Replication lag threshold
    pub lag_threshold: Duration,
    /// Enable automatic failover
    pub enable_auto_failover: bool,
    /// Failover timeout
    pub failover_timeout: Duration,
}

impl Default for ReplicationConfig {
    fn default() -> (c: Self)
        ensures
            c.replication_factor == 3,
            c.min_in_sync_replicas == 2,
            !c.enable_cross_region,
            c.regions@.len() == 0,
            c.strategy == ReplicationStrategy::Synchronous,
            c.conflict_resolution == ConflictResolutionStrategy::LastWriteWins,
            duration_nanos(c.replication_timeout) == 30 * 1_000_000_000,
            c.batch_size == 1000,
            c.enable_compression,
            c.enable_encryption,
            duration_nanos(c.lag_threshold) == 60 * 1_000_000_000,
            c.enable_auto_failover,
            duration_nanos(c.failover_timeout) == 10 * 1_000_000_000,
    {
        ReplicationConfig {
            replication_factor: 3,
            min_in_sync_replicas: 2,
            enable_cross_region: false,
            regions: Vec::new(),
            strategy: ReplicationStrategy::Synchronous,
            conflict_resolution: ConflictResolutionStrategy::LastWriteWins,
            replication_timeout: duration_from_secs(30),
            batch_size: 1000,
            enable_compression: true,
            enable_encryption: true,
            lag_threshold: duration_from_secs(60),
            enable_auto_failover: true,
            failover_timeout: duration_from_secs(10),
        }
    }
}

/// Replication region.
#[derive(Debug)]
pub struct ReplicationRegion {
    /// Region ID
    pub region_id: String,
    /// Region name
    pub name: String,
    /// Region endpoints
    pub endpoints: Vec<String>,
    /// Region priority
    pub priority: u32,
    /// Region latency
    pub latency: Duration,
    /// Region status
    pub status: RegionStatus,
}

/// Region status.
#[derive(Debug, Clone, Copy, PartialEq, Eq, Structural)]
pub enum RegionStatus {
    /// Active
    Active,
    /// Inactive
    Inactive,
    /// Degraded
    Degraded,
    /// Failed
    Failed,
}

/// Replication strategy.
#[derive(Debug, Clone, Copy, PartialEq, Eq, Structural)]
pub enum ReplicationStrategy {
    /// Synchronous replication
    Synchronous,
    /// Asynchronous replication
    Asynchronous,
    /// Semi-synchronous replication
    SemiSynchronous,
    /// Eventual consistency
    Eventual,
}

/// Conflict resolution strategy.
#[derive(Debug, Clone, Copy, PartialEq, Eq, Structural)]
pub enum ConflictResolutionStrategy {
    /// Last write wins
    LastWriteWins,
    /// First write wins
    FirstWriteWins,
    /// Custom resolution
    Custom,
    /// Manual resolution
    Manual,
}

/// Replica information.
#[derive(Debug)]
pub struct Replica {
    /// Replica ID
    pub replica_id: String,
    /// Broker ID
    pub broker_id: String,
    /// Region ID
    pub region_id: String,
    /// Replica status
    pub status: ReplicaStatus,
    /// Last offset
    pub last_offset: Offset,
    /// Last update time
    pub last_update: Timestamp,
    /// Replication lag
    pub lag: Duration,
    /// Replica priority
    pub priority: u32,
}

impl Clone for Replica {
    fn clone(&self) -> (r: Self)
        ensures
            r == *self,
    {
        Replica {
            replica_id: self.replica_id.clone(),
            broker_id: self.broker_id.clone(),
            region_id: self.region_id.clone(),
            status: self.status,
            last_offset: self.last_offset,
            last_update: self.last_update,
            lag: self.lag.clone(),
            priority: self.priority,
        }
    }
}

/// Replica status.
#[derive(Debug, Clone, Copy, PartialEq, Eq, Structural)]
pub enum ReplicaStatus {
    /// In sync
    InSync,
    /// Out of sync
    OutOfSync,
    /// Catching up
    CatchingUp,
    /// Failed
    Failed,
    /// Offline
    Offline,
}

/// Replication log entry.
#[derive(Debug)]
pub struct ReplicationLogEntry {
    /// Entry ID
    pub entry_id: String,
    /// Topic
    pub topic: String,
    /// Partition
    pub partition: i32,
    /// Offset
    pub offset: Offset,
    /// Message
    pub message: Message,
    /// Timestamp
    pub timestamp: Timestamp,
    /// Source region
    pub source_region: String,
    /// Target regions
    pub target_regions: Vec<String>,
    /// Replication status
    pub status: ReplicationStatus,
    /// Retry count
    pub retry_count: u32,
}

/// Replication status.
#[derive(Debug, Clone, Copy, PartialEq, Eq, Structural)]
pub enum ReplicationStatus {
    /// Pending
    Pending,
    /// In progress
    InProgress,
    /// Completed
    Completed,
    /// Failed
    Failed,
    /// Skipped
    Skipped,
}

/// Conflict information.
#[derive(Debug)]
pub struct Conflict {
    /// Conflict ID
    pub conflict_id: String,
    /// Topic
    pub topic: String,
    /// Partition
    pub partition: i32,
    /// Offset
    pub offset: Offset,
    /// Conflicting entries
    pub entries: Vec<ConflictEntry>,
    /// Conflict type
    pub conflict_type: ConflictType,
    /// Timestamp
    pub timestamp: Timestamp,
    /// Resolution status
    pub resolution_status: ConflictResolutionStatus,
}

/// Conflict entry.
#[derive(Debug)]
pub struct ConflictEntry {
    /// Entry ID
    pub entry_id: String,
    /// Message
    pub message: Message,
    /// Source region
    pub source_region: String,
    /// Timestamp
    pub timestamp: Timestamp,
    /// Version
    pub version: u64,
}

/// Conflict type.
#[derive(Debug, Clone, Copy, PartialEq, Eq, Structural)]
pub enum ConflictType {
    /// Write conflict
    WriteConflict,
    /// Delete conflict
    DeleteConflict,
    /// Update conflict
    UpdateConflict,
    /// Order conflict
    OrderConflict,
}

/// Conflict resolution status.
#[derive(Debug, Clone, Copy, PartialEq, Eq, Structural)]
pub enum ConflictResolutionStatus {
    /// Unresolved
    Unresolved,
    /// Resolved
    Resolved,
    /// In progress
    InProgress,
    /// Failed
    Failed,
}

/// Replication event.
#[derive(Debug)]
pub enum ReplicationEvent {
    /// Replica added
    ReplicaAdded(String, i32, Replica),
    /// Replica removed
    ReplicaRemoved(String, i32, String),
    /// Replica status changed
    ReplicaStatusChanged(String, i32, String, ReplicaStatus),
    /// Replication completed
    ReplicationCompleted(String, i32, Offset),
    /// Replication failed
    ReplicationFailed(String, i32, Offset, String),
    /// Conflict detected
    ConflictDetected(Conflict),
    /// Conflict resolved
    ConflictResolved(String),
    /// Region status changed
    RegionStatusChanged(String, RegionStatus),
}

/// Replication statistics.
#[derive(Debug)]
pub struct ReplicationStats {
    /// Total replications
    pub total_replications: u64,
    /// Successful replications
    pub successful_replications: u64,
    /// Failed replications
    pub failed_replications: u64,
    /// Total conflicts
    pub total_conflicts: u64,
    /// Resolved conflicts
    pub resolved_conflicts: u64,
    /// Average replication latency
    pub avg_replication_latency: Duration,
    /// Average replication lag
    pub avg_replication_lag: Duration,
    /// Active replicas
    pub active_replicas: usize,
    /// Failed replicas
    pub failed_replicas: usize,
    /// Cross-region replications
    pub cross_region_replications: u64,
    /// Bytes replicated
    pub bytes_replicated: u64,
}

impl Default for ReplicationStats {
    fn default() -> (s: Self)
        ensures
            s.total_replications == 0,
            s.successful_replications == 0,
            s.failed_replications == 0,
            s.total_conflicts == 0,
            s.resolved_conflicts == 0,
            duration_nanos(s.avg_replication_latency) == 0,
            duration_nanos(s.avg_replication_lag) == 0,
            s.active_replicas == 0,
            s.failed_replicas == 0,
            s.cross_region_replications == 0,
            s.bytes_replicated == 0,
    {
        ReplicationStats {
            total_replications: 0,
            successful_replications: 0,
            failed_replications: 0,
            total_conflicts: 0,
            resolved_conflicts: 0,
            avg_replication_latency: duration_from_secs(0),
            avg_replication_lag: duration_from_secs(0),
            active_replicas: 0,
            failed_replicas: 0,
            cross_region_replications: 0,
            bytes_replicated: 0,
        }
    }
}

/// A replica together with the topic and partition it serves.
#[derive(Debug)]
pub struct PlacedReplica {
    /// Topic
    pub topic: String,
    /// Partition
    pub partition: i32,
    /// Replica
    pub replica: Replica,
}

/// A replica is healthy unless it has failed or gone offline.
pub open spec fn replica_healthy(status: ReplicaStatus) -> bool {
    status != ReplicaStatus::Failed && status != ReplicaStatus::Offline
}

/// Whether a replica counts as active in the statistics.
pub open spec fn counts_active(status: ReplicaStatus) -> bool {
    status == ReplicaStatus::InSync || status == ReplicaStatus::CatchingUp
}

/// Whether a replica counts as failed in the statistics.
pub open spec fn counts_failed(status: ReplicaStatus) -> bool {
    status == ReplicaStatus::Failed || status == ReplicaStatus::Offline
}

/// The number of replicas of `s` that count as active (or, when `active` is
/// false, as failed) in the statistics.
pub open spec fn count_replicas(s: Seq<PlacedReplica>, active: bool) -> nat
    decreases s.len(),
{
    if s.len() == 0 {
        0
    } else {
        let st = s.last().replica.status;
        count_replicas(s.drop_last(), active) + if (active && counts_active(st)) || (!active
            && counts_failed(st)) {
            1nat
        } else {
            0nat
        }
    }
}

/// The replica `r` is the one named `id` of the given topic and partition.
pub open spec fn is_replica(r: PlacedReplica, topic: Seq<char>, partition: i32, id: Seq<char>) -> bool {
    r.topic@ == topic && r.partition == partition && r.replica.replica_id@ == id
}

/// Keeps every replica but the one named `id` of the given topic and
/// partition.
pub open spec fn other_than(topic: Seq<char>, partition: i32, id: Seq<char>) -> spec_fn(PlacedReplica) -> bool {
    |r: PlacedReplica| !is_replica(r, topic, partition, id)
}

/// The IDs of the regions.
pub open spec fn region_ids(regions: Seq<ReplicationRegion>) -> Seq<Seq<char>> {
    regions.map_values(|r: ReplicationRegion| r.region_id@)
}

/// The text of each string.
pub open spec fn texts(s: Seq<String>) -> Seq<Seq<char>> {
    s.map_values(|t: String| t@)
}

/// How many regions a semi-synchronous replication to `targets` regions
/// hears from before it stops: every region confirms, and it stops as soon
/// as `required` have.
pub open spec fn semi_sync_confirmed(targets: nat, required: nat) -> nat {
    if targets == 0 {
        0
    } else if required == 0 {
        1
    } else if required < targets {
        required
    } else {
        targets
    }
}

/// The average replication latency in milliseconds after one more
/// replication, the `total`th, that took `latency` milliseconds.
pub open spec fn next_avg_millis(avg: int, total: int, latency: int) -> int {
    (avg * (total - 1) + latency) / total
}

/// The statistics can take one more replication of `bytes` bytes that took
/// `latency` without overflow.
pub open spec fn can_record(s: ReplicationStats, latency: Duration, bytes: nat) -> bool {
    let total: int = s.total_replications + 1;
    let avg: int = duration_nanos(s.avg_replication_latency) as int / 1_000_000;
    let lat: int = duration_nanos(latency) as int / 1_000_000;
    &&& s.total_replications < u64::MAX
    &&& s.successful_replications < u64::MAX
    &&& s.failed_replications < u64::MAX
    &&& s.bytes_replicated + bytes <= u64::MAX
    &&& avg * (total - 1) + lat <= u128::MAX
    &&& next_avg_millis(avg, total, lat) <= u64::MAX
}

/// The replication carries `message`, with these identity and targets.
pub open spec fn logged_replication(
    e: ReplicationLogEntry,
    entry_id: Seq<char>,
    topic: Seq<char>,
    partition: i32,
    offset: Offset,
    message: MessageView,
    now: Timestamp,
    targets: Seq<Seq<char>>,
) -> bool {
    &&& e.entry_id@ == entry_id
    &&& e.topic@ == topic
    &&& e.partition == partition
    &&& e.offset == offset
    &&& e.message@ == message
    &&& e.timestamp == now
    &&& e.source_region@ == "local"@
    &&& texts(e.target_regions@) == targets
    &&& e.status == ReplicationStatus::Pending
    &&& e.retry_count == 0
}

/// `i` is the entry with the latest timestamp, the last such entry among
/// equals (as `Iterator::max_by_key` picks).
pub open spec fn is_latest(entries: Seq<ConflictEntry>, i: int) -> bool {
    &&& 0 <= i < entries.len()
    &&& forall|j: int|
        0 <= j < entries.len() ==> (#[trigger] entries[j]).timestamp.0 <= entries[i].timestamp.0
    &&& forall|j: int|
        i < j < entries.len() ==> (#[trigger] entries[j]).timestamp.0 < entries[i].timestamp.0
}

/// `i` is the entry with the earliest timestamp, the first such entry among
/// equals (as `Iterator::min_by_key` picks).
pub open spec fn is_earliest(entries: Seq<ConflictEntry>, i: int) -> bool {
    &&& 0 <= i < entries.len()
    &&& forall|j: int|
        0 <= j < entries.len() ==> entries[i].timestamp.0 <= (#[trigger] entries[j]).timestamp.0
    &&& forall|j: int| 0 <= j < i ==> entries[i].timestamp.0 < (#[trigger] entries[j]).timestamp.0
}

/// A health check reports `e` for the replica `r`: it is marked failed.
pub open spec fn marks_failed(e: ReplicationEvent, r: PlacedReplica) -> bool {
    e matches ReplicationEvent::ReplicaStatusChanged(t, p, id, st) && t@ == r.topic@ && p
        == r.partition && id@ == r.replica.replica_id@ && st == ReplicaStatus::Failed
}

/// The replicas a health check finds unhealthy and not yet marked failed:
/// those offline.
pub open spec fn newly_unhealthy() -> spec_fn(PlacedReplica) -> bool {
    |r: PlacedReplica| !replica_healthy(r.replica.status) && r.replica.status != ReplicaStatus::Failed
}

/// A worker of `region` takes up the entry: it is bound for the region and
/// still pending.
pub open spec fn worker_takes(e: ReplicationLogEntry, region: Seq<char>) -> bool {
    texts(e.target_regions@).contains(region) && e.status == ReplicationStatus::Pending
}

/// Replicating an entry fails on every third retry.
pub open spec fn entry_fails(e: ReplicationLogEntry) -> bool {
    e.retry_count > 0 && e.retry_count % 3 == 0
}

/// The text of the error a failed replication reports.
pub open spec fn simulated_failure_text() -> Seq<char> {
    "Storage error: Replication failed: Simulated failure"@
}

/// What a worker reports of an entry it is done with: topic, partition,
/// offset, and whether it completed (else it failed).
pub type Outcome = (Seq<char>, i32, Offset, bool);

/// The event reports the outcome.
pub open spec fn reports(e: ReplicationEvent, o: Outcome) -> bool {
    if o.3 {
        e matches ReplicationEvent::ReplicationCompleted(t, p, off) && t@ == o.0 && p == o.1
            && off == o.2
    } else {
        e matches ReplicationEvent::ReplicationFailed(t, p, off, text) && t@ == o.0 && p == o.1
            && off == o.2 && text@ == simulated_failure_text()
    }
}

/// One pass of the worker of `region` over the log: the entries it leaves
/// and what it reports, in log order. An entry it takes up and replicates
/// leaves the log reported completed; one that fails stays for a retry, and
/// leaves the log reported failed at its third retry.
pub open spec fn worker_pass(log: Seq<ReplicationLogEntry>, region: Seq<char>) -> (Seq<ReplicationLogEntry>, Seq<Outcome>)
    decreases log.len(),
{
    if log.len() == 0 {
        (Seq::empty(), Seq::empty())
    } else {
        let (kept, done) = worker_pass(log.drop_last(), region);
        let e = log.last();
        if !worker_takes(e, region) {
            (kept.push(e), done)
        } else if !entry_fails(e) {
            (kept, done.push((e.topic@, e.partition, e.offset, true)))
        } else if e.retry_count + 1 >= 3 {
            (kept, done.push((e.topic@, e.partition, e.offset, false)))
        } else {
            (kept.push(ReplicationLogEntry { retry_count: (e.retry_count + 1) as u32, ..e }), done)
        }
    }
}

/// The list still to go through is what follows the first `i` entries.
pub open spec fn old_list_matches(rest: Seq<ReplicationLogEntry>, all: Seq<ReplicationLogEntry>, i: int) -> bool {
    rest == all.skip(i)
}

/// Whether `text` is one of `list`.
pub fn contains_text(list: &Vec<String>, text: &String) -> (b: bool)
    ensures
        b == texts(list@).contains(text@),
{
    let mut i: usize = 0;
    while i < list.len()
        invariant
            i <= list@.len(),
            forall|j: int| 0 <= j < i ==> list@[j]@ != text@,
        decreases list.len() - i,
    {
        if list[i] == *text {
            assert(texts(list@)[i as int] == text@);
            return true;
        }
        i = i + 1;
    }
    assert forall|j: int| 0 <= j < texts(list@).len() implies texts(list@)[j] != text@ by {
        assert(list@[j]@ != text@);
    }
    false
}

/// Advanced replication manager.
pub struct AdvancedReplicationManager {
    config: ReplicationConfig,
    replicas: Vec<PlacedReplica>,
    replication_log: Vec<ReplicationLogEntry>,
    stats: ReplicationStats,
}

impl AdvancedReplicationManager {
    /// The configuration.
    pub closed spec fn spec_config(&self) -> ReplicationConfig {
        self.config
    }

    /// Every replica, with its topic and partition, in the order added.
    pub closed spec fn placed(&self) -> Seq<PlacedReplica> {
        self.replicas@
    }

    /// The replications not yet taken off by a worker.
    pub closed spec fn log(&self) -> Seq<ReplicationLogEntry> {
        self.replication_log@
    }

    /// The statistics kept so far.
    pub closed spec fn spec_stats(&self) -> ReplicationStats {
        self.stats
    }

    /// The manager's invariant: no pending replication has been retried
    /// three times.
    pub closed spec fn wf(&self) -> bool {
        forall|i: int| 0 <= i < self.replication_log@.len() ==> #[trigger] self.replication_log@[i].retry_count < 3
    }

    /// A manager with no replicas, an empty log and zero statistics.
    pub fn new(config: ReplicationConfig) -> (m: Self)
        ensures
            m.wf(),
            m.spec_config() == config,
            m.placed().len() == 0,
            m.log().len() == 0,
            m.spec_stats().total_replications == 0,
            m.spec_stats().successful_replications == 0,
            m.spec_stats().failed_replications == 0,
            m.spec_stats().bytes_replicated == 0,
            duration_nanos(m.spec_stats().avg_replication_latency) == 0,
    {
        AdvancedReplicationManager {
            config,
            replicas: Vec::new(),
            replication_log: Vec::new(),
            stats: ReplicationStats::default(),
        }
    }

    /// Add a replica to a topic's partition; reports it added.
    pub fn add_replica(&mut self, topic: &str, partition: i32, replica: Replica) -> (e: ReplicationEvent)
        requires
            old(self).wf(),
        ensures
            final(self).wf(),
            final(self).spec_config() == old(self).spec_config(),
            final(self).log() == old(self).log(),
            final(self).spec_stats() == old(self).spec_stats(),
            final(self).placed().len() == old(self).placed().len() + 1,
            final(self).placed().drop_last() == old(self).placed(),
            final(self).placed().last().topic@ == topic@,
            final(self).placed().last().partition == partition,
            final(self).placed().last().replica == replica,
            e matches ReplicationEvent::ReplicaAdded(t, p, r) && t@ == topic@ && p == partition
                && r == replica,
    {
        let copy = replica.clone();
        self.replicas.push(PlacedReplica { topic: topic.to_string(), partition, replica });
        assert(self.replicas@.drop_last() =~= old(self).replicas@);
        ReplicationEvent::ReplicaAdded(topic.to_string(), partition, copy)
    }

    /// The IDs of the configured regions, in order: every replication goes
    /// to all of them.
    pub fn get_target_regions(&self, topic: &str, partition: i32) -> (r: Vec<String>)
        ensures
            texts(r@) == region_ids(self.spec_config().regions@),
    {
        let mut r: Vec<String> = Vec::new();
        let mut i: usize = 0;
        while i < self.config.regions.len()
            invariant
                i <= self.config.regions@.len(),
                texts(r@) == region_ids(self.config.regions@.take(i as int)),
            decreases self.config.regions.len() - i,
        {
            let ghost before = r@;
            r.push(self.config.regions[i].region_id.clone());
            assert(texts(r@) =~= texts(before).push(self.config.regions@[i as int].region_id@));
            assert(region_ids(self.config.regions@.take(i + 1)) =~= region_ids(
                self.config.regions@.take(i as int),
            ).push(self.config.regions@[i as int].region_id@));
            i = i + 1;
        }
        assert(self.config.regions@.take(i as int) =~= self.config.regions@);
        r
    }

    /// A fresh entry ID: `entry_` and the hexadecimal hash of the current
    /// time.
    pub fn generate_entry_id(&self) -> (s: String)
        ensures
            exists|h: u64| s@ == "entry_"@ + hex(h as nat),
    {
        let now = Timestamp::now();
        let h = hash_u64(now.as_nanos());
        let mut s = "entry_".to_string();
        push_hex(&mut s, h);
        s
    }

    /// Record one replication of `bytes` bytes that took `latency`: the
    /// counts go up, the bytes are added and the average latency, in whole
    /// milliseconds, takes the new one in.
    pub fn update_replication_stats(&mut self, success: bool, latency: &Duration, bytes: usize)
        requires
            old(self).wf(),
            can_record(old(self).spec_stats(), *latency, bytes as nat),
        ensures
            final(self).wf(),
            final(self).spec_config() == old(self).spec_config(),
            final(self).placed() == old(self).placed(),
            final(self).log() == old(self).log(),
            final(self).spec_stats() == (ReplicationStats {
                total_replications: (old(self).spec_stats().total_replications + 1) as u64,
                successful_replications: if success {
                    (old(self).spec_stats().successful_replications + 1) as u64
                } else {
                    old(self).spec_stats().successful_replications
                },
                failed_replications: if success {
                    old(self).spec_stats().failed_replications
                } else {
                    (old(self).spec_stats().failed_replications + 1) as u64
                },
                avg_replication_latency: final(self).spec_stats().avg_replication_latency,
                bytes_replicated: (old(self).spec_stats().bytes_replicated + bytes) as u64,
                ..old(self).spec_stats()
            }),
            duration_nanos(final(self).spec_stats().avg_replication_latency) == next_avg_millis(
                duration_nanos(old(self).spec_stats().avg_replication_latency) as int / 1_000_000,
                old(self).spec_stats().total_replications + 1,
                duration_nanos(*latency) as int / 1_000_000,
            ) * 1_000_000,
    {
        self.stats.total_replications = self.stats.total_replications + 1;
        if success {
            self.stats.successful_replications = self.stats.successful_replications + 1;
        } else {
            self.stats.failed_replications = self.stats.failed_replications + 1;
        }
        let total = self.stats.total_replications as u128;
        let avg = duration_as_nanos(&self.stats.avg_replication_latency) / 1_000_000;
        let lat = duration_as_nanos(latency) / 1_000_000;
        let next = (avg * (total - 1) + lat) / total;
        self.stats.avg_replication_latency = duration_from_millis(next as u64);
        self.stats.bytes_replicated = self.stats.bytes_replicated + bytes as u64;
    }

    /// `after` is this manager after logging replication `entry_id` of
    /// `message` (at `offset` of `topic`'s `partition`) at `now`, carried out
    /// with result `r` and recorded with `latency`.
    pub open spec fn replicated(
        &self,
        after: &AdvancedReplicationManager,
        topic: Seq<char>,
        partition: i32,
        message: MessageView,
        offset: Offset,
        now: Timestamp,
        entry_id: Seq<char>,
        latency: Duration,
        r: Result<()>,
    ) -> bool {
        let n = self.spec_config().regions@.len();
        let required = self.spec_config().min_in_sync_replicas;
        &&& after.wf()
        &&& after.spec_config() == self.spec_config()
        &&& after.placed() == self.placed()
        &&& after.log().len() == self.log().len() + 1
        &&& after.log().drop_last() == self.log()
        &&& logged_replication(after.log().last(), entry_id, topic, partition, offset, message, now, region_ids(self.spec_config().regions@))
        &&& if self.spec_config().strategy == ReplicationStrategy::SemiSynchronous && n < required {
            &&& r matches Err(e) && is_storage_error(
                e,
                "Insufficient replicas: "@ + decimal(semi_sync_confirmed(n, required as nat)) + " confirmed, "@
                    + decimal(required as nat) + " required"@,
            )
            &&& semi_sync_confirmed(n, required as nat) == n
            &&& after.spec_stats() == self.spec_stats()
        } else {
            &&& r is Ok
            &&& after.spec_stats().total_replications == self.spec_stats().total_replications + 1
            &&& after.spec_stats().successful_replications == self.spec_stats().successful_replications + 1
            &&& after.spec_stats().failed_replications == self.spec_stats().failed_replications
            &&& after.spec_stats().bytes_replicated == self.spec_stats().bytes_replicated + message.size
            &&& duration_nanos(after.spec_stats().avg_replication_latency) == next_avg_millis(
                duration_nanos(self.spec_stats().avg_replication_latency) as int / 1_000_000,
                self.spec_stats().total_replications + 1,
                duration_nanos(latency) as int / 1_000_000,
            ) * 1_000_000
        }
    }

    /// Log a replication of `message` at `now` under `entry_id`, bound for
    /// every configured region, and carry it out by the configured
    /// strategy. Sending to a region (the caller's) always confirms; a
    /// semi-synchronous replication stops once the minimum of in-sync
    /// replicas have confirmed and fails when there are fewer regions than
    /// that. On success the replication is recorded with `latency`.
    pub fn replicate_message_at(
        &mut self,
        topic: &str,
        partition: i32,
        message: Message,
        offset: Offset,
        now: Timestamp,
        entry_id: String,
        latency: &Duration,
    ) -> (r: Result<()>)
        requires
            old(self).wf(),
            !(old(self).spec_config().strategy == ReplicationStrategy::SemiSynchronous
                && old(self).spec_config().regions@.len()
                < old(self).spec_config().min_in_sync_replicas) ==> can_record(
                old(self).spec_stats(),
                *latency,
                message@.size as nat,
            ),
        ensures
            old(self).replicated(final(self), topic@, partition, message@, offset, now, entry_id@, *latency, r),
    {
        let targets = self.get_target_regions(topic, partition);
        let n = targets.len();
        assert(n == self.config.regions@.len()) by {
            assert(texts(targets@).len() == targets@.len());
            assert(region_ids(self.config.regions@).len() == self.config.regions@.len());
        }
        let size = message.size();
        let entry = ReplicationLogEntry {
            entry_id,
            topic: topic.to_string(),
            partition,
            offset,
            message,
            timestamp: now,
            source_region: "local".to_string(),
            target_regions: targets,
            status: ReplicationStatus::Pending,
            retry_count: 0,
        };
        proof {
            reveal_strlit("local");
        }
        self.replication_log.push(entry);
        assert(self.replication_log@.drop_last() =~= old(self).replication_log@);
        match self.config.strategy {
            ReplicationStrategy::SemiSynchronous => {
                let required = self.config.min_in_sync_replicas as usize;
                let mut confirmed: usize = 0;
                let mut k: usize = 0;
                while k < n
                    invariant_except_break
                        k <= n,
                        confirmed == k,
                        k == 0 || confirmed < required,
                    ensures
                        confirmed == semi_sync_confirmed(n as nat, required as nat),
                    decreases n - k,
                {
                    confirmed = confirmed + 1;
                    k = k + 1;
                    if confirmed >= required {
                        break;
                    }
                }
                if confirmed < required {
                    return Err(Error::InsufficientReplicas(confirmed, required));
                }
            },
            _ => {},
        }
        self.update_replication_stats(true, latency, size);
        Ok(())
    }

    /// Log and carry out a replication of `message` now, under a fresh
    /// entry ID.
    pub fn replicate_message(
        &mut self,
        topic: &str,
        partition: i32,
        message: Message,
        offset: Offset,
        latency: &Duration,
    ) -> (r: Result<()>)
        requires
            old(self).wf(),
            !(old(self).spec_config().strategy == ReplicationStrategy::SemiSynchronous
                && old(self).spec_config().regions@.len()
                < old(self).spec_config().min_in_sync_replicas) ==> can_record(
                old(self).spec_stats(),
                *latency,
                message@.size as nat,
            ),
        ensures
            final(self).wf(),
            final(self).log().len() == old(self).log().len() + 1,
            final(self).log().drop_last() == old(self).log(),
            final(self).log().last().message@ == message@,
            r is Err <==> old(self).spec_config().strategy == ReplicationStrategy::SemiSynchronous
                && old(self).spec_config().regions@.len()
                < old(self).spec_config().min_in_sync_replicas,
            exists|now: Timestamp, id: Seq<char>|
                (exists|h: u64| id == "entry_"@ + hex(h as nat)) && #[trigger] old(self).replicated(final(self), topic@, partition, message@, offset, now, id, *latency, r),
    {
        let entry_id = self.generate_entry_id();
        self.replicate_message_at(topic, partition, message, offset, Timestamp::now(), entry_id, latency)
    }

    /// The index of the conflict entry with the latest timestamp, the last
    /// such among equals; none for no entries.
    pub fn latest_entry(entries: &[ConflictEntry]) -> (r: Option<usize>)
        ensures
            match r {
                Some(i) => is_latest(entries@, i as int),
                None => entries@.len() == 0,
            },
    {
        if entries.len() == 0 {
            return None;
        }
        let mut best: usize = 0;
        let mut i: usize = 1;
        while i < entries.len()
            invariant
                1 <= i <= entries@.len(),
                best < i,
                forall|j: int| 0 <= j < i ==> (#[trigger] entries@[j]).timestamp.0 <= entries@[best as int].timestamp.0,
                forall|j: int| best < j < i ==> (#[trigger] entries@[j]).timestamp.0 < entries@[best as int].timestamp.0,
            decreases entries.len() - i,
        {
            if entries[i].timestamp.0 >= entries[best].timestamp.0 {
                best = i;
            }
            i = i + 1;
        }
        Some(best)
    }

    /// The index of the conflict entry with the earliest timestamp, the first
    /// such among equals; none for no entries.
    pub fn earliest_entry(entries: &[ConflictEntry]) -> (r: Option<usize>)
        ensures
            match r {
                Some(i) => is_earliest(entries@, i as int),
                None => entries@.len() == 0,
            },
    {
        if entries.len() == 0 {
            return None;
        }
        let mut best: usize = 0;
        let mut i: usize = 1;
        while i < entries.len()
            invariant
                1 <= i <= entries@.len(),
                best < i,
                forall|j: int| 0 <= j < i ==> entries@[best as int].timestamp.0 <= (#[trigger] entries@[j]).timestamp.0,
                forall|j: int| 0 <= j < best ==> entries@[best as int].timestamp.0 < (#[trigger] entries@[j]).timestamp.0,
            decreases entries.len() - i,
        {
            if entries[i].timestamp.0 < entries[best].timestamp.0 {
                best = i;
            }
            i = i + 1;
        }
        Some(best)
    }

    /// Resolve a conflict by the configured strategy. Last and first write
    /// wins pick the latest or earliest entry and fail when there is none;
    /// custom and manual resolution always succeed here.
    pub fn resolve_conflict(&self, conflict: &Conflict) -> (r: Result<()>)
        ensures
            r is Err <==> (self.spec_config().conflict_resolution
                == ConflictResolutionStrategy::LastWriteWins
                || self.spec_config().conflict_resolution
                == ConflictResolutionStrategy::FirstWriteWins) && conflict.entries@.len() == 0,
            r matches Err(e) ==> is_storage_error(e, "No conflict entries found"@),
    {
        match self.config.conflict_resolution {
            ConflictResolutionStrategy::LastWriteWins => {
                match Self::latest_entry(conflict.entries.as_slice()) {
                    Some(_) => Ok(()),
                    None => Err(Error::NoConflictEntries()),
                }
            },
            ConflictResolutionStrategy::FirstWriteWins => {
                match Self::earliest_entry(conflict.entries.as_slice()) {
                    Some(_) => Ok(()),
                    None => Err(Error::NoConflictEntries()),
                }
            },
            ConflictResolutionStrategy::Custom => Ok(()),
            ConflictResolutionStrategy::Manual => Ok(()),
        }
    }

    /// Compare two replicas for a conflict. Replicas carry no data to
    /// compare, so none is ever found.
    pub fn check_replica_conflict(&self, first: &Replica, second: &Replica) -> (r: Result<Option<Conflict>>)
        ensures
            r matches Ok(c) && c is None,
    {
        Ok(None)
    }

    /// Find the conflicts between every two replicas of a topic's partition
    /// and resolve each. Replicas never conflict, so the list is empty.
    pub fn detect_conflicts(&self, topic: &str, partition: i32) -> (r: Result<Vec<Conflict>>)
        ensures
            r matches Ok(v) && v@.len() == 0,
    {
        let mut conflicts: Vec<Conflict> = Vec::new();
        let t = topic.to_string();
        let n = self.replicas.len();
        let mut i: usize = 0;
        while i < n
            invariant
                n == self.replicas@.len(),
                i <= n,
                conflicts@.len() == 0,
            decreases n - i,
        {
            if self.replicas[i].partition == partition && self.replicas[i].topic == t {
                let mut j: usize = i + 1;
                while j < n
                    invariant
                        n == self.replicas@.len(),
                        i < j <= n,
                        conflicts@.len() == 0,
                    decreases n - j,
                {
                    if self.replicas[j].partition == partition && self.replicas[j].topic == t {
                        match self.check_replica_conflict(&self.replicas[i].replica, &self.replicas[j].replica) {
                            Ok(Some(c)) => conflicts.push(c),
                            Ok(None) => {},
                            Err(e) => return Err(e),
                        }
                    }
                    j = j + 1;
                }
            }
            i = i + 1;
        }
        let mut k: usize = 0;
        while k < conflicts.len()
            invariant
                conflicts@.len() == 0,
            decreases conflicts.len() - k,
        {
            match self.resolve_conflict(&conflicts[k]) {
                Ok(()) => {},
                Err(e) => return Err(e),
            }
            k = k + 1;
        }
        Ok(conflicts)
    }

    /// Whether a replica answers: it has neither failed nor gone offline.
    pub fn check_replica_health(replica: &Replica) -> (b: bool)
        ensures
            b == replica_healthy(replica.status),
    {
        replica.status != ReplicaStatus::Failed && replica.status != ReplicaStatus::Offline
    }

    /// One round of health checks: every unhealthy replica not yet marked
    /// failed (that is, every offline one) is reported failed, in order.
    pub fn health_check_events(&self) -> (r: Vec<ReplicationEvent>)
        ensures
            r@.len() == self.placed().filter(newly_unhealthy()).len(),
            forall|k: int|
                0 <= k < r@.len() ==> marks_failed(
                    #[trigger] r@[k],
                    self.placed().filter(newly_unhealthy())[k],
                ),
    {
        let ghost pred = newly_unhealthy();
        let ghost all = self.replicas@;
        let mut events: Vec<ReplicationEvent> = Vec::new();
        let mut i: usize = 0;
        while i < self.replicas.len()
            invariant
                all == self.replicas@,
                pred == newly_unhealthy(),
                i <= all.len(),
                events@.len() == all.take(i as int).filter(pred).len(),
                forall|k: int|
                    0 <= k < events@.len() ==> marks_failed(
                        #[trigger] events@[k],
                        all.take(i as int).filter(pred)[k],
                    ),
            decreases self.replicas.len() - i,
        {
            let r = &self.replicas[i];
            proof {
                assert(all.take(i + 1) =~= all.take(i as int).push(*r));
                all.take(i as int).lemma_filter_push(*r, pred);
            }
            if !Self::check_replica_health(&r.replica) && r.replica.status != ReplicaStatus::Failed {
                let ghost before = events@;
                events.push(
                    ReplicationEvent::ReplicaStatusChanged(
                        r.topic.clone(),
                        r.partition,
                        r.replica.replica_id.clone(),
                        ReplicaStatus::Failed,
                    ),
                );
                assert forall|k: int| 0 <= k < events@.len() implies marks_failed(
                    #[trigger] events@[k],
                    all.take(i + 1).filter(pred)[k],
                ) by {
                    if k < before.len() {
                        assert(events@[k] == before[k]);
                    }
                }
            }
            i = i + 1;
        }
        assert(all.take(i as int) =~= all);
        events
    }

    /// The statistics, with the replicas counted: in sync or catching up
    /// as active, failed or offline as failed.
    pub fn get_stats(&self) -> (s: ReplicationStats)
        ensures
            s == (ReplicationStats {
                active_replicas: s.active_replicas,
                failed_replicas: s.failed_replicas,
                ..self.spec_stats()
            }),
            s.active_replicas == count_replicas(self.placed(), true),
            s.failed_replicas == count_replicas(self.placed(), false),
    {
        let mut active: usize = 0;
        let mut failed: usize = 0;
        let mut i: usize = 0;
        while i < self.replicas.len()
            invariant
                i <= self.replicas@.len(),
                active == count_replicas(self.replicas@.take(i as int), true),
                failed == count_replicas(self.replicas@.take(i as int), false),
                active + failed <= i,
            decreases self.replicas.len() - i,
        {
            assert(self.replicas@.take(i + 1).drop_last() =~= self.replicas@.take(i as int));
            match self.replicas[i].replica.status {
                ReplicaStatus::InSync | ReplicaStatus::CatchingUp => {
                    active = active + 1;
                },
                ReplicaStatus::Failed | ReplicaStatus::Offline => {
                    failed = failed + 1;
                },
                _ => {},
            }
            i = i + 1;
        }
        assert(self.replicas@.take(i as int) =~= self.replicas@);
        ReplicationStats {
            total_replications: self.stats.total_replications,
            successful_replications: self.stats.successful_replications,
            failed_replications: self.stats.failed_replications,
            total_conflicts: self.stats.total_conflicts,
            resolved_conflicts: self.stats.resolved_conflicts,
            avg_replication_latency: self.stats.avg_replication_latency.clone(),
            avg_replication_lag: self.stats.avg_replication_lag.clone(),
            active_replicas: active,
            failed_replicas: failed,
            cross_region_replications: self.stats.cross_region_replications,
            bytes_replicated: self.stats.bytes_replicated,
        }
    }

    /// Replicate one entry to a region. Every third retry fails.
    pub fn process_replication_entry(
        entry: &ReplicationLogEntry,
        region: &ReplicationRegion,
        config: &ReplicationConfig,
    ) -> (r: Result<()>)
        ensures
            r is Err <==> entry_fails(*entry),
            r matches Err(e) ==> is_storage_error(e, "Replication failed: Simulated failure"@),
    {
        if entry.retry_count > 0 && entry.retry_count % 3 == 0 {
            proof {
                reveal_strlit("Replication failed: ");
                reveal_strlit("Simulated failure");
                reveal_strlit("Replication failed: Simulated failure");
                assert("Replication failed: "@ + "Simulated failure"@
                    =~= "Replication failed: Simulated failure"@);
            }
            return Err(Error::ReplicationFailed("Simulated failure".to_string()));
        }
        Ok(())
    }

    /// One pass of the worker of `region` over the log (see `worker_pass`):
    /// the log keeps what the pass leaves, and the events report the rest.
    pub fn process_region(&mut self, region: &ReplicationRegion) -> (r: Vec<ReplicationEvent>)
        requires
            old(self).wf(),
        ensures
            final(self).wf(),
            final(self).spec_config() == old(self).spec_config(),
            final(self).placed() == old(self).placed(),
            final(self).spec_stats() == old(self).spec_stats(),
            final(self).log() == worker_pass(old(self).log(), region.region_id@).0,
            r@.len() == worker_pass(old(self).log(), region.region_id@).1.len(),
            forall|k: int|
                0 <= k < r@.len() ==> reports(
                    #[trigger] r@[k],
                    worker_pass(old(self).log(), region.region_id@).1[k],
                ),
    {
        let mut old_log: Vec<ReplicationLogEntry> = Vec::new();
        std::mem::swap(&mut old_log, &mut self.replication_log);
        let ghost all = old_log@;
        let ghost rid = region.region_id@;
        let n = old_log.len();
        let mut kept: Vec<ReplicationLogEntry> = Vec::new();
        let mut events: Vec<ReplicationEvent> = Vec::new();
        let mut i: usize = 0;
        assert(all.skip(0) =~= all);
        while i < n
            invariant
                all == old(self).replication_log@,
                rid == region.region_id@,
                self.config == old(self).config,
                forall|j: int| 0 <= j < all.len() ==> #[trigger] all[j].retry_count < 3,
                n == all.len(),
                i <= n,
                old_list_matches(old_log@, all, i as int),
                kept@ == worker_pass(all.take(i as int), rid).0,
                forall|j: int| 0 <= j < kept@.len() ==> #[trigger] kept@[j].retry_count < 3,
                events@.len() == worker_pass(all.take(i as int), rid).1.len(),
                forall|k: int|
                    0 <= k < events@.len() ==> reports(
                        #[trigger] events@[k],
                        worker_pass(all.take(i as int), rid).1[k],
                    ),
            decreases n - i,
        {
            let mut e = old_log.remove(0);
            proof {
                assert(e == all[i as int]);
                assert(all.take(i + 1).drop_last() =~= all.take(i as int));
                assert(old_log@ =~= all.skip(i + 1));
            }
            let ghost before = events@;
            let takes = contains_text(&e.target_regions, &region.region_id) && e.status
                == ReplicationStatus::Pending;
            if !takes {
                kept.push(e);
            } else {
                match Self::process_replication_entry(&e, region, &self.config) {
                    Ok(()) => {
                        events.push(ReplicationEvent::ReplicationCompleted(e.topic, e.partition, e.offset));
                    },
                    Err(err) => {
                        let text = match err {
                            Error::Storage(msg) => with_text("Storage error: ", msg.as_str()),
                            _ => String::new(),
                        };
                        proof {
                            reveal_strlit("Storage error: ");
                            reveal_strlit("Replication failed: Simulated failure");
                            reveal_strlit("Storage error: Replication failed: Simulated failure");
                            assert("Storage error: "@ + "Replication failed: Simulated failure"@
                                =~= simulated_failure_text());
                        }
                        e.retry_count = e.retry_count + 1;
                        if e.retry_count >= 3 {
                            events.push(
                                ReplicationEvent::ReplicationFailed(e.topic, e.partition, e.offset, text),
                            );
                        } else {
                            kept.push(e);
                        }
                    },
                }
            }
            proof {
                assert forall|k: int| 0 <= k < events@.len() implies reports(
                    #[trigger] events@[k],
                    worker_pass(all.take(i + 1), rid).1[k],
                ) by {
                    if k < before.len() {
                        assert(events@[k] == before[k]);
                    }
                }
            }
            i = i + 1;
        }
        assert(all.take(n as int) =~= all);
        self.replication_log = kept;
        events
    }

    /// Remove the replica `replica_id` from a topic's partition; reports it
    /// removed, whether or not it was there.
    pub fn remove_replica(&mut self, topic: &str, partition: i32, replica_id: &str) -> (e: ReplicationEvent)
        requires
            old(self).wf(),
        ensures
            final(self).wf(),
            final(self).spec_config() == old(self).spec_config(),
            final(self).log() == old(self).log(),
            final(self).spec_stats() == old(self).spec_stats(),
            final(self).placed() == old(self).placed().filter(
                other_than(topic@, partition, replica_id@),
            ),
            e matches ReplicationEvent::ReplicaRemoved(t, p, id) && t@ == topic@ && p == partition
                && id@ == replica_id@,
    {
        let ghost pred = other_than(topic@, partition, replica_id@);
        let mut old_list: Vec<PlacedReplica> = Vec::new();
        std::mem::swap(&mut old_list, &mut self.replicas);
        let ghost all = old_list@;
        let mut kept: Vec<PlacedReplica> = Vec::new();
        let t = topic.to_string();
        let id = replica_id.to_string();
        let n = old_list.len();
        let mut i: usize = 0;
        while i < n
            invariant
                all == old(self).replicas@,
                pred == other_than(topic@, partition, replica_id@),
                n == all.len(),
                i <= n,
                old_list@.len() == n - i,
                old_list@ == all.skip(i as int),
                kept@ == all.take(i as int).filter(pred),
                t@ == topic@,
                id@ == replica_id@,
            decreases n - i,
        {
            let r = old_list.remove(0);
            proof {
                assert(r == all[i as int]);
                assert(all.take(i + 1).drop_last() =~= all.take(i as int));
                all.take(i as int).lemma_filter_push(r, pred);
                assert(all.take(i + 1) =~= all.take(i as int).push(r));
            }
            if !(r.partition == partition && r.topic == t && r.replica.replica_id == id) {
                assert(pred(r));
                kept.push(r);
            } else {
                assert(!pred(r));
            }
            i = i + 1;
            assert(old_list@ =~= all.skip(i as int));
        }
        assert(all.take(i as int) =~= all);
        self.replicas = kept;
        ReplicationEvent::ReplicaRemoved(t, partition, id)
    }
}

} // verus!
