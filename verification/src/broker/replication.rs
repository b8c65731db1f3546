//! Replication of partitions over brokers: the replica set of each
//! partition, its leader and in-sync replicas, offsets and lag, and the
//! health check that marks silent replicas offline.
//!
//! The periodic tasks are the caller's; each of their rounds is a call here.

use vstd::prelude::*;
use std::time::Duration;
use crate::broker::error::{Error, Result};
use crate::broker::message::{BrokerConfig, clone_opt_string, opt_text};
use crate::broker::names::NameMap;
use crate::broker::text::{push_signed_decimal, signed_decimal};
use crate::broker::time::{age, duration_as_nanos, duration_from_secs, duration_nanos};
use crate::qiss::types::Timestamp;

verus! {

/// Replication manager configuration.
#[derive(Debug)]
pub struct ReplicationConfig {
    /// Replication factor
    pub replication_factor: u32,
    /// Sync replication
    pub sync_replication: bool,
    /// Replication timeout
    pub replication_timeout: Duration,
    /// Min in-sync replicas
    pub min_in_sync_replicas: u32,
    /// Unclean leader election
    pub unclean_leader_election: bool,
    /// Replication lag threshold
    pub replication_lag_threshold: Duration,
}

impl Default for ReplicationConfig {
    fn default() -> (c: Self)
        ensures
            c.replication_factor == 1,
            !c.sync_replication,
            duration_nanos(c.replication_timeout) == 10 * 1_000_000_000,
            c.min_in_sync_replicas == 1,
            !c.unclean_leader_election,
            duration_nanos(c.replication_lag_threshold) == 30 * 1_000_000_000,
    {
        ReplicationConfig {
            replication_factor: 1,
            sync_replication: false,
            replication_timeout: duration_from_secs(10),
            min_in_sync_replicas: 1,
            unclean_leader_election: false,
            replication_lag_threshold: duration_from_secs(30),
        }
    }
}

/// Replica state.
#[derive(Debug, Clone, Copy, PartialEq, Eq, Structural)]
pub enum ReplicaState {
    /// Replica is offline
    Offline,
    /// Replica is online but not in sync
    Online,
    /// Replica is in sync
    InSync,
    /// Replica is the leader
    Leader,
}

/// Replica information.
#[derive(Debug)]
pub struct Replica {
    /// Broker ID
    pub broker_id: String,
    /// Replica state
    pub state: ReplicaState,
    /// Last heartbeat
    pub last_heartbeat: Timestamp,
    /// Log end offset
    pub log_end_offset: u64,
    /// High watermark
    pub high_watermark: u64,
    /// Replication lag
    pub replication_lag: Duration,
}

impl Clone for Replica {
    fn clone(&self) -> (r: Self)
        ensures
            r == *self,
    {
        Replica {
            broker_id: self.broker_id.clone(),
            state: self.state,
            last_heartbeat: self.last_heartbeat,
            log_end_offset: self.log_end_offset,
            high_watermark: self.high_watermark,
            replication_lag: self.replication_lag.clone(),
        }
    }
}

/// Partition replica set.
#[derive(Debug)]
pub struct PartitionReplicas {
    /// Topic name
    pub topic_name: String,
    /// Partition ID
    pub partition_id: i32,
    /// Replicas
    pub replicas: Vec<Replica>,
    /// Leader replica
    pub leader: Option<String>,
    /// In-sync replicas
    pub in_sync_replicas: Vec<String>,
}

/// What a replica set holds.
pub struct PartitionReplicasView {
    /// Topic name
    pub topic_name: Seq<char>,
    /// Partition ID
    pub partition_id: i32,
    /// Replicas
    pub replicas: Seq<Replica>,
    /// Leader replica
    pub leader: Option<Seq<char>>,
    /// In-sync replicas
    pub in_sync_replicas: Seq<Seq<char>>,
}

/// The text of each string.
pub open spec fn texts(s: Seq<String>) -> Seq<Seq<char>> {
    s.map_values(|t: String| t@)
}

impl View for PartitionReplicas {
    type V = PartitionReplicasView;

    open spec fn view(&self) -> PartitionReplicasView {
        PartitionReplicasView {
            topic_name: self.topic_name@,
            partition_id: self.partition_id,
            replicas: self.replicas@,
            leader: opt_text(self.leader),
            in_sync_replicas: texts(self.in_sync_replicas@),
        }
    }
}

/// A copy of a list of strings.
pub fn clone_strings(v: &Vec<String>) -> (r: Vec<String>)
    ensures
        r@ == v@,
{
    let mut r: Vec<String> = Vec::new();
    let mut i: usize = 0;
    while i < v.len()
        invariant
            i <= v@.len(),
            r@ == v@.take(i as int),
        decreases v.len() - i,
    {
        r.push(v[i].clone());
        i = i + 1;
        assert(r@ =~= v@.take(i as int));
    }
    assert(v@.take(i as int) =~= v@);
    r
}

/// A copy of a list of replicas.
pub fn clone_replicas(v: &Vec<Replica>) -> (r: Vec<Replica>)
    ensures
        r@ == v@,
{
    let mut r: Vec<Replica> = Vec::new();
    let mut i: usize = 0;
    while i < v.len()
        invariant
            i <= v@.len(),
            r@ == v@.take(i as int),
        decreases v.len() - i,
    {
        r.push(v[i].clone());
        i = i + 1;
        assert(r@ =~= v@.take(i as int));
    }
    assert(v@.take(i as int) =~= v@);
    r
}

impl Clone for PartitionReplicas {
    fn clone(&self) -> (r: Self)
        ensures
            r@ == self@,
    {
        PartitionReplicas {
            topic_name: self.topic_name.clone(),
            partition_id: self.partition_id,
            replicas: clone_replicas(&self.replicas),
            leader: clone_opt_string(&self.leader),
            in_sync_replicas: clone_strings(&self.in_sync_replicas),
        }
    }
}

/// Replication statistics.
#[derive(Debug)]
pub struct ReplicationStats {
    /// Total partitions
    pub total_partitions: usize,
    /// Under-replicated partitions
    pub under_replicated_partitions: usize,
    /// Offline replicas
    pub offline_replicas: usize,
    /// In-sync replicas
    pub in_sync_replicas: usize,
    /// Average replication lag
    pub avg_replication_lag: Duration,
}

impl Default for ReplicationStats {
    fn default() -> (s: Self)
        ensures
            s.total_partitions == 0,
            s.under_replicated_partitions == 0,
            s.offline_replicas == 0,
            s.in_sync_replicas == 0,
            duration_nanos(s.avg_replication_lag) == 0,
    {
        ReplicationStats {
            total_partitions: 0,
            under_replicated_partitions: 0,
            offline_replicas: 0,
            in_sync_replicas: 0,
            avg_replication_lag: duration_from_secs(0),
        }
    }
}

/// The key of a topic's partition: the topic name, a colon and the
/// partition ID.
pub open spec fn key_of(topic: Seq<char>, partition_id: i32) -> Seq<char> {
    topic + ":"@ + signed_decimal(partition_id as int)
}

/// The key of a topic's partition.
pub fn partition_key(topic: &str, partition_id: i32) -> (k: String)
    ensures
        k@ == key_of(topic@, partition_id),
{
    let mut k = topic.to_string();
    k.append(":");
    push_signed_decimal(&mut k, partition_id as i64);
    k
}

/// A replica counts as in sync when it is in sync or leads.
pub open spec fn is_in_sync(s: ReplicaState) -> bool {
    s == ReplicaState::InSync || s == ReplicaState::Leader
}

/// The brokers of the in-sync replicas, in order.
pub open spec fn in_sync_ids(rs: Seq<Replica>) -> Seq<Seq<char>>
    decreases rs.len(),
{
    if rs.len() == 0 {
        Seq::empty()
    } else {
        let rest = in_sync_ids(rs.drop_last());
        if is_in_sync(rs.last().state) {
            rest.push(rs.last().broker_id@)
        } else {
            rest
        }
    }
}

/// `i` is the first replica on broker `id`.
pub open spec fn is_first_on(rs: Seq<Replica>, id: Seq<char>, i: int) -> bool {
    &&& 0 <= i < rs.len()
    &&& rs[i].broker_id@ == id
    &&& forall|j: int| 0 <= j < i ==> (#[trigger] rs[j]).broker_id@ != id
}

/// Some replica is on broker `id`.
pub open spec fn has_broker(rs: Seq<Replica>, id: Seq<char>) -> bool {
    exists|i: int| 0 <= i < rs.len() && (#[trigger] rs[i]).broker_id@ == id
}

/// The first replica on broker `id` (meaningful when there is one).
pub open spec fn first_on(rs: Seq<Replica>, id: Seq<char>) -> int {
    choose|i: int| is_first_on(rs, id, i)
}

/// The log end offset of the leader's replica; zero without a leader or
/// its replica.
pub open spec fn leader_offset(v: PartitionReplicasView) -> u64 {
    match v.leader {
        Some(l) => if has_broker(v.replicas, l) {
            v.replicas[first_on(v.replicas, l)].log_end_offset
        } else {
            0
        },
        None => 0,
    }
}

/// The index of the first replica on broker `id`, if any.
pub fn find_broker(rs: &Vec<Replica>, id: &str) -> (r: Option<usize>)
    ensures
        match r {
            Some(i) => is_first_on(rs@, id@, i as int),
            None => !has_broker(rs@, id@),
        },
{
    let key = id.to_string();
    let mut i: usize = 0;
    while i < rs.len()
        invariant
            i <= rs@.len(),
            key@ == id@,
            forall|j: int| 0 <= j < i ==> (#[trigger] rs@[j]).broker_id@ != id@,
        decreases rs.len() - i,
    {
        if rs[i].broker_id == key {
            return Some(i);
        }
        i = i + 1;
    }
    None
}

/// Whether `i` being first on `id` pins down `first_on`.
proof fn lemma_first_on(rs: Seq<Replica>, id: Seq<char>, i: int)
    requires
        is_first_on(rs, id, i),
    ensures
        first_on(rs, id) == i,
        has_broker(rs, id),
{
    let c = first_on(rs, id);
    assert(is_first_on(rs, id, c));
    if c < i {
        assert(rs[c].broker_id@ != id);
    }
    if i < c {
        assert(rs[i].broker_id@ != id);
    }
}

/// The brokers of the in-sync replicas, in order.
pub fn collect_in_sync(rs: &Vec<Replica>) -> (r: Vec<String>)
    ensures
        texts(r@) == in_sync_ids(rs@),
{
    let mut r: Vec<String> = Vec::new();
    let mut i: usize = 0;
    while i < rs.len()
        invariant
            i <= rs@.len(),
            texts(r@) == in_sync_ids(rs@.take(i as int)),
        decreases rs.len() - i,
    {
        assert(rs@.take(i + 1).drop_last() =~= rs@.take(i as int));
        if rs[i].state == ReplicaState::InSync || rs[i].state == ReplicaState::Leader {
            let ghost before = r@;
            r.push(rs[i].broker_id.clone());
            assert(texts(r@) =~= texts(before).push(rs@[i as int].broker_id@));
        }
        i = i + 1;
    }
    assert(rs@.take(i as int) =~= rs@);
    r
}

/// A replica just joined on broker `id` at `now`: online, at offset zero,
/// with no lag.
pub open spec fn is_fresh(r: Replica, id: Seq<char>, now: Timestamp) -> bool {
    &&& r.broker_id@ == id
    &&& r.state == ReplicaState::Online
    &&& r.last_heartbeat == now
    &&& r.log_end_offset == 0
    &&& r.high_watermark == 0
    &&& duration_nanos(r.replication_lag) == 0
}

/// A replica after a health check at `now`: one silent for longer than
/// `timeout` nanoseconds is offline.
pub open spec fn swept(r: Replica, now: Timestamp, timeout: u128) -> Replica {
    if age(now, r.last_heartbeat) > timeout {
        Replica { state: ReplicaState::Offline, ..r }
    } else {
        r
    }
}

/// A replica set after a health check at `now`.
pub open spec fn swept_set(v: PartitionReplicasView, now: Timestamp, timeout: u128) -> PartitionReplicasView {
    PartitionReplicasView { replicas: v.replicas.map_values(|r: Replica| swept(r, now, timeout)), ..v }
}

/// The number of replicas offline (or, when `offline` is false, in sync).
pub open spec fn count_state(rs: Seq<Replica>, offline: bool) -> nat
    decreases rs.len(),
{
    if rs.len() == 0 {
        0
    } else {
        let st = rs.last().state;
        count_state(rs.drop_last(), offline) + if (offline && st == ReplicaState::Offline) || (
        !offline && is_in_sync(st)) {
            1nat
        } else {
            0nat
        }
    }
}

/// The total replication lag of the replicas, in nanoseconds.
pub open spec fn lag_sum(rs: Seq<Replica>) -> nat
    decreases rs.len(),
{
    if rs.len() == 0 {
        0
    } else {
        lag_sum(rs.drop_last()) + duration_nanos(rs.last().replication_lag) as nat
    }
}

/// Totals over replica sets.
pub struct ReplicaTotals {
    /// Sets with fewer in-sync replicas than required
    pub under: nat,
    /// Offline replicas
    pub offline: nat,
    /// In-sync replicas
    pub in_sync: nat,
    /// Total lag in nanoseconds
    pub lag: nat,
    /// Replicas
    pub replicas: nat,
}

/// The totals over the replica sets `ps`, with `min` in-sync replicas
/// required of each.
pub open spec fn totals(ps: Seq<PartitionReplicasView>, min: u32) -> ReplicaTotals
    decreases ps.len(),
{
    if ps.len() == 0 {
        ReplicaTotals { under: 0, offline: 0, in_sync: 0, lag: 0, replicas: 0 }
    } else {
        let t = totals(ps.drop_last(), min);
        let p = ps.last();
        ReplicaTotals {
            under: t.under + if p.in_sync_replicas.len() < min {
                1nat
            } else {
                0nat
            },
            offline: t.offline + count_state(p.replicas, true),
            in_sync: t.in_sync + count_state(p.replicas, false),
            lag: t.lag + lag_sum(p.replicas),
            replicas: t.replicas + p.replicas.len(),
        }
    }
}

/// The average lag, in whole seconds, over `count` replicas.
pub open spec fn average_lag_secs(lag: nat, count: nat) -> nat {
    if count > 0 {
        (lag / 1_000_000_000) / count
    } else {
        0
    }
}

/// The totals over a prefix stay within those over the whole.
pub proof fn lemma_totals_prefix(ps: Seq<PartitionReplicasView>, min: u32, i: int)
    requires
        0 <= i <= ps.len(),
    ensures
        totals(ps.take(i), min).replicas + (if i < ps.len() { ps[i].replicas.len() } else { 0 }) <= totals(ps, min).replicas,
        totals(ps.take(i), min).lag + (if i < ps.len() { lag_sum(ps[i].replicas) } else { 0 }) <= totals(ps, min).lag,
    decreases ps.len() - i,
{
    if i < ps.len() {
        lemma_totals_prefix(ps, min, i + 1);
        assert(ps.take(i + 1).drop_last() =~= ps.take(i));
    } else {
        assert(ps.take(i) =~= ps);
    }
}

/// The lag over a prefix stays within that over the whole.
pub proof fn lemma_lag_prefix(rs: Seq<Replica>, j: int)
    requires
        0 <= j <= rs.len(),
    ensures
        lag_sum(rs.take(j)) <= lag_sum(rs),
    decreases rs.len() - j,
{
    if j < rs.len() {
        lemma_lag_prefix(rs, j + 1);
        assert(rs.take(j + 1).drop_last() =~= rs.take(j));
    } else {
        assert(rs.take(j) =~= rs);
    }
}

/// After a health check, the set under key `k` is the swept old one.
pub open spec fn final_has(m: &ReplicationManager, k: Seq<char>, now: Timestamp, timeout: u128, old_m: &ReplicationManager) -> bool {
    m.sets()[k] == swept_set(old_m.sets()[k], now, timeout)
}

/// `e` names a replica of the manager, by partition key and broker, whose
/// lag exceeds `threshold` nanoseconds.
pub open spec fn lag_reported(m: &ReplicationManager, e: (String, String), threshold: u128) -> bool {
    exists|a: int, b: int|
        #![trigger m.set_list()[a].replicas[b]]
        0 <= a < m.set_keys().len() && a < m.set_list().len() && 0 <= b < m.set_list()[a].replicas.len()
            && e.0@ == m.set_keys()[a] && e.1@ == m.set_list()[a].replicas[b].broker_id@
            && duration_nanos(m.set_list()[a].replicas[b].replication_lag) > threshold
}

/// The text of each (partition key, broker) pair.
pub open spec fn pair_views(s: Seq<(String, String)>) -> Seq<(Seq<char>, Seq<char>)> {
    s.map_values(|e: (String, String)| (e.0@, e.1@))
}

/// The replicas among the first `m` of `replicas` whose lag exceeds
/// `threshold` nanoseconds, as (`key`, broker) pairs, in order.
pub open spec fn set_lagging(key: Seq<char>, replicas: Seq<Replica>, m: int, threshold: u128) -> Seq<(Seq<char>, Seq<char>)>
    decreases m,
{
    if m <= 0 {
        Seq::empty()
    } else {
        let rest = set_lagging(key, replicas, m - 1, threshold);
        if duration_nanos(replicas[m - 1].replication_lag) > threshold {
            rest.push((key, replicas[m - 1].broker_id@))
        } else {
            rest
        }
    }
}

/// The lagging replicas of the first `n` replica sets, set by set, each
/// under its key.
pub open spec fn all_lagging(keys: Seq<Seq<char>>, sets: Seq<PartitionReplicasView>, n: int, threshold: u128) -> Seq<(Seq<char>, Seq<char>)>
    decreases n,
{
    if n <= 0 {
        Seq::empty()
    } else {
        all_lagging(keys, sets, n - 1, threshold) + set_lagging(keys[n - 1], sets[n - 1].replicas, sets[n - 1].replicas.len() as int, threshold)
    }
}

/// The in-sync list of a replica set is exactly its replicas that are in
/// sync or lead: every such replica's broker is listed, and every listed
/// broker is one of them.
pub proof fn lemma_in_sync_ids_exact(rs: Seq<Replica>)
    ensures
        forall|i: int|
            0 <= i < rs.len() && (rs[i].state == ReplicaState::InSync || rs[i].state == ReplicaState::Leader)
                ==> in_sync_ids(rs).contains(#[trigger] rs[i].broker_id@),
        forall|id: Seq<char>|
            #[trigger] in_sync_ids(rs).contains(id) ==> exists|i: int|
                0 <= i < rs.len() && (#[trigger] rs[i]).broker_id@ == id
                    && (rs[i].state == ReplicaState::InSync || rs[i].state == ReplicaState::Leader),
    decreases rs.len(),
{
    if rs.len() > 0 {
        let init = rs.drop_last();
        lemma_in_sync_ids_exact(init);
        let rest = in_sync_ids(init);
        let last = rs.last();
        assert forall|i: int|
            0 <= i < rs.len() && (rs[i].state == ReplicaState::InSync || rs[i].state == ReplicaState::Leader)
                implies in_sync_ids(rs).contains(#[trigger] rs[i].broker_id@) by {
            if i < rs.len() - 1 {
                assert(init[i] == rs[i]);
                let k = choose|k: int| 0 <= k < rest.len() && rest[k] == init[i].broker_id@;
                if last.state == ReplicaState::InSync || last.state == ReplicaState::Leader {
                    assert(in_sync_ids(rs)[k] == rest[k]);
                }
            } else {
                assert(in_sync_ids(rs) == rest.push(last.broker_id@));
                assert(in_sync_ids(rs)[rest.len() as int] == last.broker_id@);
            }
        }
        assert forall|id: Seq<char>| #[trigger] in_sync_ids(rs).contains(id) implies exists|i: int|
            0 <= i < rs.len() && (#[trigger] rs[i]).broker_id@ == id
                && (rs[i].state == ReplicaState::InSync || rs[i].state == ReplicaState::Leader) by {
            let k = choose|k: int| 0 <= k < in_sync_ids(rs).len() && in_sync_ids(rs)[k] == id;
            if (last.state == ReplicaState::InSync || last.state == ReplicaState::Leader) && k == rest.len() {
                assert(rs[rs.len() - 1] == last);
            } else {
                assert(rest[k] == id);
                assert(rest.contains(id));
                let i = choose|i: int| 0 <= i < init.len() && (#[trigger] init[i]).broker_id@ == id
                    && (init[i].state == ReplicaState::InSync || init[i].state == ReplicaState::Leader);
                assert(rs[i] == init[i]);
            }
        }
    }
}

/// A replica on broker `id`, when there is one, has a first one.
proof fn lemma_has_first(rs: Seq<Replica>, id: Seq<char>)
    requires
        has_broker(rs, id),
    ensures
        is_first_on(rs, id, first_on(rs, id)),
    decreases rs.len(),
{
    let init = rs.drop_last();
    if has_broker(init, id) {
        lemma_has_first(init, id);
        let i = first_on(init, id);
        assert forall|j: int| 0 <= j < i implies (#[trigger] rs[j]).broker_id@ != id by {
            assert(rs[j] == init[j]);
        }
        assert(rs[i] == init[i]);
        lemma_first_on(rs, id, i);
    } else {
        let i = rs.len() - 1;
        let w = choose|w: int| 0 <= w < rs.len() && (#[trigger] rs[w]).broker_id@ == id;
        if w < i {
            assert(init[w] == rs[w]);
        }
        assert forall|j: int| 0 <= j < i implies (#[trigger] rs[j]).broker_id@ != id by {
            assert(rs[j] == init[j]);
        }
        lemma_first_on(rs, id, i);
    }
}

/// After the replica on broker `broker_id` of a set takes a new state, the
/// set's in-sync list is exactly its replicas in sync or leading; so a
/// replica made leader, or in sync, is listed, and one made anything else
/// is listed only if another replica on its broker is.
pub proof fn lemma_state_update_in_sync(
    m: &ReplicationManager,
    next: &ReplicationManager,
    topic_name: Seq<char>,
    partition_id: i32,
    broker_id: Seq<char>,
    state: ReplicaState,
    now: Timestamp,
)
    requires
        m.replica_state_updated(next, topic_name, partition_id, broker_id, state, now),
        m.sets().contains_key(key_of(topic_name, partition_id)),
        has_broker(m.sets()[key_of(topic_name, partition_id)].replicas, broker_id),
    ensures
        ({
            let v = next.sets()[key_of(topic_name, partition_id)];
            &&& (state == ReplicaState::InSync || state == ReplicaState::Leader) ==> v.in_sync_replicas.contains(broker_id)
            &&& forall|i: int|
                0 <= i < v.replicas.len() && (v.replicas[i].state == ReplicaState::InSync || v.replicas[i].state == ReplicaState::Leader)
                    ==> v.in_sync_replicas.contains(#[trigger] v.replicas[i].broker_id@)
            &&& forall|id: Seq<char>|
                #[trigger] v.in_sync_replicas.contains(id) ==> exists|i: int|
                    0 <= i < v.replicas.len() && (#[trigger] v.replicas[i]).broker_id@ == id
                        && (v.replicas[i].state == ReplicaState::InSync || v.replicas[i].state == ReplicaState::Leader)
        }),
{
    let key = key_of(topic_name, partition_id);
    let old_rs = m.sets()[key].replicas;
    lemma_has_first(old_rs, broker_id);
    let i = first_on(old_rs, broker_id);
    let rs = old_rs.update(i, Replica { state, last_heartbeat: now, ..old_rs[i] });
    assert(next.sets()[key].replicas == rs);
    assert(next.sets()[key].in_sync_replicas == in_sync_ids(rs));
    lemma_in_sync_ids_exact(rs);
    assert(rs[i].broker_id@ == broker_id);
    if state == ReplicaState::InSync || state == ReplicaState::Leader {
        assert(rs[i].state == state);
        assert(in_sync_ids(rs).contains(rs[i].broker_id@));
    }
}

/// Replication manager.
pub struct ReplicationManager {
    config: ReplicationConfig,
    partition_replicas: NameMap<PartitionReplicas>,
    stats: ReplicationStats,
    running: bool,
}

impl ReplicationManager {
    /// The configuration.
    pub closed spec fn spec_config(&self) -> ReplicationConfig {
        self.config
    }

    /// The replica set of each partition, by key.
    pub closed spec fn sets(&self) -> Map<Seq<char>, PartitionReplicasView> {
        self.partition_replicas.map().map_values(|p: PartitionReplicas| p@)
    }

    /// The replica sets in the manager's order.
    pub closed spec fn set_list(&self) -> Seq<PartitionReplicasView> {
        self.partition_replicas.values_seq().map_values(|p: PartitionReplicas| p@)
    }

    /// The keys of the replica sets, in the order of `set_list`.
    pub closed spec fn set_keys(&self) -> Seq<Seq<char>> {
        self.partition_replicas.keys_seq()
    }

    /// Whether the manager runs.
    pub closed spec fn is_running(&self) -> bool {
        self.running
    }

    /// The manager's invariant.
    pub closed spec fn wf(&self) -> bool {
        self.partition_replicas.wf()
    }

    /// The list holds each set of the map once.
    pub proof fn lemma_set_list(&self)
        requires
            self.wf(),
        ensures
            self.set_list().len() == self.sets().dom().len(),
            self.set_keys().len() == self.set_list().len(),
            forall|i: int| 0 <= i < self.set_keys().len() ==> self.sets().contains_key(#[trigger] self.set_keys()[i]) && self.sets()[self.set_keys()[i]] == self.set_list()[i],
            forall|k: Seq<char>| #[trigger] self.sets().contains_key(k) ==> exists|i: int|
                0 <= i < self.set_list().len() && self.set_list()[i] == self.sets()[k],
    {
        self.partition_replicas.lemma_seqs();
        let keys = self.partition_replicas.keys_seq();
        assert forall|k: Seq<char>| #[trigger] self.sets().contains_key(k) implies exists|i: int|
            0 <= i < self.set_list().len() && self.set_list()[i] == self.sets()[k] by {
            assert(self.partition_replicas.map().contains_key(k));
            let i = choose|i: int| 0 <= i < keys.len() && keys[i] == k;
            assert(self.set_list()[i] == self.sets()[k]);
        }
        assert(keys.to_set() =~= self.partition_replicas.map().dom()) by {
            assert forall|k: Seq<char>| keys.to_set().contains(k) implies self.partition_replicas.map().dom().contains(k) by {
                let i = choose|i: int| 0 <= i < keys.len() && keys[i] == k;
                assert(self.partition_replicas.map().contains_key(keys[i]));
            }
        }
        assert(keys.no_duplicates());
        keys.unique_seq_to_set();
        assert(self.sets().dom() =~= self.partition_replicas.map().dom());
    }

    /// A stopped manager with no replica sets, configured from the broker's
    /// configuration: its replication factor is also the minimum of in-sync
    /// replicas.
    pub fn new(config: &BrokerConfig) -> (m: Self)
        ensures
            m.wf(),
            !m.is_running(),
            m.sets() == Map::<Seq<char>, PartitionReplicasView>::empty(),
            m.spec_config().replication_factor == config.replication_factor,
            m.spec_config().sync_replication == config.sync_replication,
            duration_nanos(m.spec_config().replication_timeout) == 10 * 1_000_000_000,
            m.spec_config().min_in_sync_replicas == config.replication_factor,
            !m.spec_config().unclean_leader_election,
            duration_nanos(m.spec_config().replication_lag_threshold) == 30 * 1_000_000_000,
    {
        let m = ReplicationManager {
            config: ReplicationConfig {
                replication_factor: config.replication_factor,
                sync_replication: config.sync_replication,
                replication_timeout: duration_from_secs(10),
                min_in_sync_replicas: config.replication_factor,
                unclean_leader_election: false,
                replication_lag_threshold: duration_from_secs(30),
            },
            partition_replicas: NameMap::new(),
            stats: ReplicationStats::default(),
            running: false,
        };
        assert(m.sets() =~= Map::<Seq<char>, PartitionReplicasView>::empty());
        m
    }

    /// Start the manager; fails if it runs already.
    pub fn start(&mut self) -> (r: Result<()>)
        requires
            old(self).wf(),
        ensures
            final(self).wf(),
            final(self).sets() == old(self).sets(),
            final(self).spec_config() == old(self).spec_config(),
            final(self).is_running(),
            r is Err <==> old(self).is_running(),
            r matches Err(e) ==> e matches Error::Internal(s) && s@ == "Replication manager is already running"@,
    {
        if self.running {
            return Err(Error::Internal("Replication manager is already running".to_string()));
        }
        self.running = true;
        Ok(())
    }

    /// Stop the manager; fails if it does not run.
    pub fn stop(&mut self) -> (r: Result<()>)
        requires
            old(self).wf(),
        ensures
            final(self).wf(),
            final(self).sets() == old(self).sets(),
            final(self).spec_config() == old(self).spec_config(),
            !final(self).is_running(),
            r is Err <==> !old(self).is_running(),
            r matches Err(e) ==> e matches Error::Internal(s) && s@ == "Replication manager is not running"@,
    {
        if !self.running {
            return Err(Error::Internal("Replication manager is not running".to_string()));
        }
        self.running = false;
        Ok(())
    }

    /// Set the replicas of a topic's partition at `now`, replacing any: one
    /// fresh replica per broker, in order, the first broker leading and all
    /// of them in sync.
    pub fn add_partition_replicas_at(&mut self, topic_name: String, partition_id: i32, replicas: Vec<String>, now: Timestamp) -> (r: Result<()>)
        requires
            old(self).wf(),
        ensures
            final(self).wf(),
            r is Ok,
            old(self).replicas_added(final(self), topic_name@, partition_id, replicas@, now),
    {
        let key = partition_key(topic_name.as_str(), partition_id);
        let mut list: Vec<Replica> = Vec::new();
        let mut i: usize = 0;
        while i < replicas.len()
            invariant
                i <= replicas@.len(),
                list@.len() == i,
                forall|j: int| 0 <= j < i ==> is_fresh(#[trigger] list@[j], replicas@[j]@, now),
            decreases replicas.len() - i,
        {
            list.push(Replica {
                broker_id: replicas[i].clone(),
                state: ReplicaState::Online,
                last_heartbeat: now,
                log_end_offset: 0,
                high_watermark: 0,
                replication_lag: duration_from_secs(0),
            });
            i = i + 1;
        }
        let leader = if replicas.len() > 0 {
            Some(replicas[0].clone())
        } else {
            None
        };
        let set = PartitionReplicas {
            topic_name,
            partition_id,
            replicas: list,
            leader,
            in_sync_replicas: replicas,
        };
        let ghost v = set@;
        self.partition_replicas.insert(key, set);
        assert(self.sets() =~= old(self).sets().insert(key@, v));
        Ok(())
    }

    /// The same, now (see `add_partition_replicas_at`).
    pub fn add_partition_replicas(&mut self, topic_name: String, partition_id: i32, replicas: Vec<String>) -> (r: Result<()>)
        requires
            old(self).wf(),
        ensures
            final(self).wf(),
            r is Ok,
            exists|now: Timestamp| #[trigger] old(self).replicas_added(final(self), topic_name@, partition_id, replicas@, now),
    {
        self.add_partition_replicas_at(topic_name, partition_id, replicas, Timestamp::now())
    }

    /// Set the state of the replica on broker `broker_id` of a topic's
    /// partition, stamping its heartbeat `now`, and recompute the in-sync
    /// replicas; nothing changes without that set or replica.
    pub fn update_replica_state_at(&mut self, topic_name: &str, partition_id: i32, broker_id: &str, state: ReplicaState, now: Timestamp) -> (r: Result<()>)
        requires
            old(self).wf(),
        ensures
            final(self).wf(),
            r is Ok,
            old(self).replica_state_updated(final(self), topic_name@, partition_id, broker_id@, state, now),
    {
        let key = partition_key(topic_name, partition_id);
        match self.partition_replicas.remove(key.as_str()) {
            None => {
                assert(self.sets() =~= old(self).sets());
                Ok(())
            },
            Some(mut set) => {
                let ghost v = set@;
                match find_broker(&set.replicas, broker_id) {
                    None => {
                        self.partition_replicas.insert(key, set);
                        assert(self.partition_replicas.map() =~= old(self).partition_replicas.map());
                        assert(self.sets() =~= old(self).sets());
                    },
                    Some(i) => {
                        proof {
                            lemma_first_on(v.replicas, broker_id@, i as int);
                        }
                        let mut replica = set.replicas.remove(i);
                        replica.state = state;
                        replica.last_heartbeat = now;
                        set.replicas.insert(i, replica);
                        assert(set.replicas@ =~= v.replicas.update(i as int, Replica { state, last_heartbeat: now, ..v.replicas[i as int] }));
                        set.in_sync_replicas = collect_in_sync(&set.replicas);
                        let ghost nv = set@;
                        self.partition_replicas.insert(key, set);
                        assert(self.sets() =~= old(self).sets().insert(key@, nv));
                    },
                }
                Ok(())
            },
        }
    }

    /// The same, now (see `update_replica_state_at`).
    pub fn update_replica_state(&mut self, topic_name: &str, partition_id: i32, broker_id: &str, state: ReplicaState) -> (r: Result<()>)
        requires
            old(self).wf(),
        ensures
            final(self).wf(),
            r is Ok,
            exists|now: Timestamp| #[trigger] old(self).replica_state_updated(final(self), topic_name@, partition_id, broker_id@, state, now),
    {
        self.update_replica_state_at(topic_name, partition_id, broker_id, state, Timestamp::now())
    }

    /// Record the offsets of the replica on broker `broker_id` of a topic's
    /// partition, stamping its heartbeat `now`; its lag becomes as many
    /// seconds as its log end offset trails the leader's. Nothing changes
    /// without that set or replica.
    pub fn update_replica_offset_at(&mut self, topic_name: &str, partition_id: i32, broker_id: &str, log_end_offset: u64, high_watermark: u64, now: Timestamp) -> (r: Result<()>)
        requires
            old(self).wf(),
            ({
                let key = key_of(topic_name@, partition_id);
                let v = old(self).sets()[key];
                old(self).sets().contains_key(key) && has_broker(v.replicas, broker_id@) ==> log_end_offset <= leader_offset(v)
            }),
        ensures
            final(self).wf(),
            r is Ok,
            old(self).replica_offset_updated(final(self), topic_name@, partition_id, broker_id@, log_end_offset, high_watermark, now),
    {
        let key = partition_key(topic_name, partition_id);
        match self.partition_replicas.remove(key.as_str()) {
            None => {
                assert(self.sets() =~= old(self).sets());
                Ok(())
            },
            Some(mut set) => {
                let ghost v = set@;
                let leader_end = match &set.leader {
                    Some(l) => match find_broker(&set.replicas, l.as_str()) {
                        Some(j) => {
                            proof {
                                lemma_first_on(v.replicas, l@, j as int);
                            }
                            set.replicas[j].log_end_offset
                        },
                        None => 0,
                    },
                    None => 0,
                };
                match find_broker(&set.replicas, broker_id) {
                    None => {
                        self.partition_replicas.insert(key, set);
                        assert(self.partition_replicas.map() =~= old(self).partition_replicas.map());
                        assert(self.sets() =~= old(self).sets());
                    },
                    Some(i) => {
                        proof {
                            lemma_first_on(v.replicas, broker_id@, i as int);
                        }
                        let mut replica = set.replicas.remove(i);
                        replica.log_end_offset = log_end_offset;
                        replica.high_watermark = high_watermark;
                        replica.last_heartbeat = now;
                        replica.replication_lag = duration_from_secs(leader_end - log_end_offset);
                        set.replicas.insert(i, replica);
                        let ghost nv = set@;
                        self.partition_replicas.insert(key, set);
                        assert(self.sets() =~= old(self).sets().insert(key@, nv));
                    },
                }
                Ok(())
            },
        }
    }

    /// The same, now (see `update_replica_offset_at`).
    pub fn update_replica_offset(&mut self, topic_name: &str, partition_id: i32, broker_id: &str, log_end_offset: u64, high_watermark: u64) -> (r: Result<()>)
        requires
            old(self).wf(),
            ({
                let key = key_of(topic_name@, partition_id);
                let v = old(self).sets()[key];
                old(self).sets().contains_key(key) && has_broker(v.replicas, broker_id@) ==> log_end_offset <= leader_offset(v)
            }),
        ensures
            final(self).wf(),
            r is Ok,
            exists|now: Timestamp| #[trigger] old(self).replica_offset_updated(final(self), topic_name@, partition_id, broker_id@, log_end_offset, high_watermark, now),
    {
        self.update_replica_offset_at(topic_name, partition_id, broker_id, log_end_offset, high_watermark, Timestamp::now())
    }

    /// `next` is this manager after the replicas of a topic's partition were set
    /// at `now` (see `add_partition_replicas_at`).
    pub open spec fn replicas_added(&self, next: &ReplicationManager, topic_name: Seq<char>, partition_id: i32, replicas: Seq<String>, now: Timestamp) -> bool {
        &&& next.wf()
        &&& next.spec_config() == self.spec_config()
        &&& next.is_running() == self.is_running()
        &&& ({
            let key = key_of(topic_name, partition_id);
            let v = next.sets()[key];
            &&& next.sets() == self.sets().insert(key, v)
            &&& v.topic_name == topic_name
            &&& v.partition_id == partition_id
            &&& v.replicas.len() == replicas.len()
            &&& forall|i: int| 0 <= i < replicas.len() ==> is_fresh(#[trigger] v.replicas[i], replicas[i]@, now)
            &&& v.leader == if replicas.len() > 0 { Some(replicas[0]@) } else { None }
            &&& v.in_sync_replicas == texts(replicas)
        })
    }

    /// `next` is this manager after the state of a replica was set at `now`
    /// (see `update_replica_state_at`).
    pub open spec fn replica_state_updated(&self, next: &ReplicationManager, topic_name: Seq<char>, partition_id: i32, broker_id: Seq<char>, state: ReplicaState, now: Timestamp) -> bool {
        &&& next.wf()
        &&& next.spec_config() == self.spec_config()
        &&& next.is_running() == self.is_running()
        &&& ({
            let key = key_of(topic_name, partition_id);
            let v = self.sets()[key];
            if self.sets().contains_key(key) && has_broker(v.replicas, broker_id) {
                let i = first_on(v.replicas, broker_id);
                let rs = v.replicas.update(i, Replica { state, last_heartbeat: now, ..v.replicas[i] });
                next.sets() == self.sets().insert(key, PartitionReplicasView {
                    replicas: rs,
                    in_sync_replicas: in_sync_ids(rs),
                    ..v
                })
            } else {
                next.sets() == self.sets()
            }
        })
    }

    /// `next` is this manager after the offsets of a replica were recorded at
    /// `now` (see `update_replica_offset_at`).
    pub open spec fn replica_offset_updated(&self, next: &ReplicationManager, topic_name: Seq<char>, partition_id: i32, broker_id: Seq<char>, log_end_offset: u64, high_watermark: u64, now: Timestamp) -> bool {
        &&& next.wf()
        &&& next.spec_config() == self.spec_config()
        &&& next.is_running() == self.is_running()
        &&& ({
            let key = key_of(topic_name, partition_id);
            let v = self.sets()[key];
            if self.sets().contains_key(key) && has_broker(v.replicas, broker_id) {
                let i = first_on(v.replicas, broker_id);
                let nv = next.sets()[key];
                &&& next.sets() == self.sets().insert(key, nv)
                &&& nv == PartitionReplicasView { replicas: nv.replicas, ..v }
                &&& nv.replicas.len() == v.replicas.len()
                &&& forall|j: int| 0 <= j < v.replicas.len() && j != i ==> #[trigger] nv.replicas[j] == v.replicas[j]
                &&& nv.replicas[i] == Replica {
                    log_end_offset,
                    high_watermark,
                    last_heartbeat: now,
                    replication_lag: nv.replicas[i].replication_lag,
                    ..v.replicas[i]
                }
                &&& duration_nanos(nv.replicas[i].replication_lag) == (leader_offset(v) - log_end_offset) * 1_000_000_000
            } else {
                next.sets() == self.sets()
            }
        })
    }

    /// The replica set of a topic's partition, if there is one.
    pub fn get_partition_replicas(&self, topic_name: &str, partition_id: i32) -> (r: Result<Option<PartitionReplicas>>)
        requires
            self.wf(),
        ensures
            r matches Ok(o) && match o {
                Some(p) => self.sets().contains_key(key_of(topic_name@, partition_id)) && p@ == self.sets()[key_of(topic_name@, partition_id)],
                None => !self.sets().contains_key(key_of(topic_name@, partition_id)),
            },
    {
        let key = partition_key(topic_name, partition_id);
        match self.partition_replicas.get(key.as_str()) {
            Some(p) => Ok(Some(p.clone())),
            None => Ok(None),
        }
    }

    /// Whether a topic's partition has fewer in-sync replicas than required;
    /// a partition without a replica set is under-replicated.
    pub fn is_partition_under_replicated(&self, topic_name: &str, partition_id: i32) -> (r: Result<bool>)
        requires
            self.wf(),
        ensures
            r matches Ok(b) && b == ({
                let key = key_of(topic_name@, partition_id);
                !self.sets().contains_key(key) || self.sets()[key].in_sync_replicas.len() < self.spec_config().min_in_sync_replicas
            }),
    {
        match self.get_partition_replicas(topic_name, partition_id) {
            Ok(Some(p)) => Ok(p.in_sync_replicas.len() < self.config.min_in_sync_replicas as usize),
            Ok(None) => Ok(true),
            Err(e) => Err(e),
        }
    }

    /// The statistics fit their types: the replicas can be counted and
    /// their lags summed in whole seconds.
    pub open spec fn can_total(&self) -> bool {
        let t = totals(self.set_list(), self.spec_config().min_in_sync_replicas);
        &&& t.replicas <= usize::MAX
        &&& t.lag / 1_000_000_000 <= u64::MAX
    }

    /// The statistics over all replica sets: their number, those
    /// under-replicated, the offline and in-sync replicas, and the average
    /// lag in whole seconds.
    pub fn get_stats(&self) -> (s: ReplicationStats)
        requires
            self.wf(),
            self.can_total(),
        ensures
            ({
                let t = totals(self.set_list(), self.spec_config().min_in_sync_replicas);
                &&& s.total_partitions == self.set_list().len()
                &&& s.under_replicated_partitions == t.under
                &&& s.offline_replicas == t.offline
                &&& s.in_sync_replicas == t.in_sync
                &&& duration_nanos(s.avg_replication_lag) == average_lag_secs(t.lag, t.replicas) * 1_000_000_000
            }),
    {
        let ghost ps = self.set_list();
        let ghost min = self.config.min_in_sync_replicas;
        proof {
            self.partition_replicas.lemma_seqs();
        }
        let n = self.partition_replicas.len();
        let mut total_partitions: usize = 0;
        let mut under: usize = 0;
        let mut offline: usize = 0;
        let mut in_sync: usize = 0;
        let mut lag: u128 = 0;
        let mut count: usize = 0;
        let mut i: usize = 0;
        while i < n
            invariant
                ps == self.set_list(),
                min == self.config.min_in_sync_replicas,
                n == ps.len(),
                i <= n,
                total_partitions == i,
                under <= i,
                offline + in_sync <= count,
                ({
                    let t = totals(ps.take(i as int), min);
                    &&& under == t.under
                    &&& offline == t.offline
                    &&& in_sync == t.in_sync
                    &&& lag == t.lag
                    &&& count == t.replicas
                }),
                totals(ps, min).replicas <= usize::MAX,
                totals(ps, min).lag / 1_000_000_000 <= u64::MAX,
            decreases n - i,
        {
            proof {
                assert(ps.take(i + 1).drop_last() =~= ps.take(i as int));
                lemma_totals_prefix(ps, min, i as int + 1);
            }
            let set = self.partition_replicas.value_at(i);
            assert(set@ == ps[i as int]);
            total_partitions = total_partitions + 1;
            if set.in_sync_replicas.len() < self.config.min_in_sync_replicas as usize {
                under = under + 1;
            }
            let ghost t0 = totals(ps.take(i as int), min);
            let mut j: usize = 0;
            while j < set.replicas.len()
                invariant
                    j <= set.replicas@.len(),
                    offline == t0.offline + count_state(set.replicas@.take(j as int), true),
                    in_sync == t0.in_sync + count_state(set.replicas@.take(j as int), false),
                    lag == t0.lag + lag_sum(set.replicas@.take(j as int)),
                    count == t0.replicas + j,
                    offline + in_sync <= count,
                    t0.replicas + set.replicas@.len() <= usize::MAX,
                    t0.lag + lag_sum(set.replicas@) < 0x1_0000_0000_0000_0000 * 1_000_000_000,
                decreases set.replicas.len() - j,
            {
                proof {
                    assert(set.replicas@.take(j + 1).drop_last() =~= set.replicas@.take(j as int));
                    lemma_lag_prefix(set.replicas@, j as int + 1);
                }
                match set.replicas[j].state {
                    ReplicaState::Offline => {
                        offline = offline + 1;
                    },
                    ReplicaState::InSync | ReplicaState::Leader => {
                        in_sync = in_sync + 1;
                    },
                    _ => {},
                }
                lag = lag + duration_as_nanos(&set.replicas[j].replication_lag);
                count = count + 1;
                j = j + 1;
            }
            assert(set.replicas@.take(j as int) =~= set.replicas@);
            i = i + 1;
        }
        assert(ps.take(n as int) =~= ps);
        let avg = if count > 0 {
            duration_from_secs(((lag / 1_000_000_000) as u64) / (count as u64))
        } else {
            duration_from_secs(0)
        };
        ReplicationStats {
            total_partitions,
            under_replicated_partitions: under,
            offline_replicas: offline,
            in_sync_replicas: in_sync,
            avg_replication_lag: avg,
        }
    }

    /// One round of health checks at `now`: every replica whose last
    /// heartbeat is older than the replication timeout goes offline.
    pub fn check_replica_health_at(&mut self, now: Timestamp)
        requires
            old(self).wf(),
        ensures
            final(self).wf(),
            final(self).spec_config() == old(self).spec_config(),
            final(self).is_running() == old(self).is_running(),
            final(self).sets().dom() == old(self).sets().dom(),
            forall|k: Seq<char>| #[trigger] old(self).sets().contains_key(k) ==> final(self).sets()[k]
                == swept_set(old(self).sets()[k], now, duration_nanos(old(self).spec_config().replication_timeout)),
    {
        let timeout = duration_as_nanos(&self.config.replication_timeout);
        proof {
            self.partition_replicas.lemma_seqs();
        }
        let ghost keys = self.partition_replicas.keys_seq();
        let ghost vals = self.partition_replicas.values_seq();
        let n = self.partition_replicas.len();
        let mut i: usize = 0;
        while i < n
            invariant
                self.partition_replicas.wf(),
                self.config == old(self).config,
                self.running == old(self).running,
                timeout == duration_nanos(self.config.replication_timeout),
                keys == old(self).partition_replicas.keys_seq(),
                vals == old(self).partition_replicas.values_seq(),
                n == vals.len(),
                keys.len() == vals.len(),
                i <= n,
                self.partition_replicas.keys_seq() == keys,
                self.partition_replicas.values_seq().len() == n,
                forall|j: int| 0 <= j < i ==> (#[trigger] self.partition_replicas.values_seq()[j])@ == swept_set(vals[j]@, now, timeout),
                forall|j: int| i <= j < n ==> #[trigger] self.partition_replicas.values_seq()[j] == vals[j],
            decreases n - i,
        {
            let set = self.partition_replicas.value_at(i);
            let mut rs: Vec<Replica> = Vec::new();
            let mut j: usize = 0;
            while j < set.replicas.len()
                invariant
                    j <= set.replicas@.len(),
                    rs@ == set.replicas@.take(j as int).map_values(|r: Replica| swept(r, now, timeout)),
                decreases set.replicas.len() - j,
            {
                let mut r = set.replicas[j].clone();
                let hb = r.last_heartbeat;
                let silent = if now.0 >= hb.0 {
                    ((now.0 - hb.0) as u128) > timeout
                } else {
                    false
                };
                if silent && r.state != ReplicaState::Offline {
                    r.state = ReplicaState::Offline;
                }
                let ghost before = rs@;
                rs.push(r);
                assert(rs@ =~= set.replicas@.take(j + 1).map_values(|r: Replica| swept(r, now, timeout))) by {
                    assert(set.replicas@.take(j + 1) =~= set.replicas@.take(j as int).push(set.replicas@[j as int]));
                }
                j = j + 1;
            }
            assert(set.replicas@.take(j as int) =~= set.replicas@);
            let updated = PartitionReplicas {
                topic_name: set.topic_name.clone(),
                partition_id: set.partition_id,
                replicas: rs,
                leader: clone_opt_string(&set.leader),
                in_sync_replicas: clone_strings(&set.in_sync_replicas),
            };
            assert(updated@ == swept_set(vals[i as int]@, now, timeout));
            self.partition_replicas.set_value_at(i, updated);
            i = i + 1;
        }
        proof {
            self.partition_replicas.lemma_seqs();
            old(self).partition_replicas.lemma_seqs();
            assert forall|k: Seq<char>| #[trigger] old(self).sets().contains_key(k) implies final_has(self, k, now, timeout, old(self)) by {
                let w = choose|w: int| 0 <= w < keys.len() && keys[w] == k;
                assert(self.partition_replicas.map().contains_key(keys[w]));
                assert(old(self).partition_replicas.map()[keys[w]] == vals[w]);
            }
            assert forall|k: Seq<char>| self.sets().dom().contains(k) == old(self).sets().dom().contains(k) by {
                if self.partition_replicas.map().contains_key(k) {
                    let w = choose|w: int| 0 <= w < keys.len() && keys[w] == k;
                    assert(old(self).partition_replicas.map().contains_key(keys[w]));
                }
                if old(self).partition_replicas.map().contains_key(k) {
                    let w = choose|w: int| 0 <= w < keys.len() && keys[w] == k;
                    assert(self.partition_replicas.map().contains_key(keys[w]));
                }
            }
            assert(self.sets().dom() =~= old(self).sets().dom());
        }
    }

    /// The replicas whose lag exceeds the threshold, as the partition key
    /// and the broker, in order.
    pub fn lagging_replicas(&self) -> (r: Vec<(String, String)>)
        requires
            self.wf(),
        ensures
            forall|k: int| 0 <= k < r@.len() ==> lag_reported(self, #[trigger] r@[k], duration_nanos(self.spec_config().replication_lag_threshold)),
            pair_views(r@) == all_lagging(self.set_keys(), self.set_list(), self.set_list().len() as int, duration_nanos(self.spec_config().replication_lag_threshold)),
    {
        let threshold = duration_as_nanos(&self.config.replication_lag_threshold);
        proof {
            self.partition_replicas.lemma_seqs();
        }
        let n = self.partition_replicas.len();
        let mut out: Vec<(String, String)> = Vec::new();
        assert(pair_views(out@) =~= Seq::empty());
        let mut i: usize = 0;
        while i < n
            invariant
                self.partition_replicas.wf(),
                n == self.set_list().len(),
                n == self.set_keys().len(),
                n == self.partition_replicas.values_seq().len(),
                i <= n,
                threshold == duration_nanos(self.config.replication_lag_threshold),
                forall|k: int| 0 <= k < out@.len() ==> lag_reported(self, #[trigger] out@[k], threshold),
                pair_views(out@) == all_lagging(self.set_keys(), self.set_list(), i as int, threshold),
            decreases n - i,
        {
            let set = self.partition_replicas.value_at(i);
            let key = self.partition_replicas.key_at(i);
            assert(set@ == self.set_list()[i as int]);
            assert(all_lagging(self.set_keys(), self.set_list(), i as int, threshold)
                + set_lagging(key@, set@.replicas, 0, threshold) =~= pair_views(out@));
            let mut j: usize = 0;
            while j < set.replicas.len()
                invariant
                    n == self.set_list().len(),
                    n == self.set_keys().len(),
                    i < n,
                    set@ == self.set_list()[i as int],
                    key@ == self.set_keys()[i as int],
                    j <= set.replicas@.len(),
                    threshold == duration_nanos(self.config.replication_lag_threshold),
                    forall|k: int| 0 <= k < out@.len() ==> lag_reported(self, #[trigger] out@[k], threshold),
                    pair_views(out@) == all_lagging(self.set_keys(), self.set_list(), i as int, threshold)
                        + set_lagging(key@, set@.replicas, j as int, threshold),
                decreases set.replicas.len() - j,
            {
                if duration_as_nanos(&set.replicas[j].replication_lag) > threshold {
                    let ghost before = out@;
                    let e = (key.clone(), set.replicas[j].broker_id.clone());
                    assert(lag_reported(self, e, threshold)) by {
                        assert(self.set_list()[i as int].replicas[j as int] == set.replicas@[j as int]);
                    }
                    out.push(e);
                    assert forall|k: int| 0 <= k < out@.len() implies lag_reported(self, #[trigger] out@[k], threshold) by {
                        if k < before.len() {
                            assert(out@[k] == before[k]);
                        }
                    }
                    assert(pair_views(out@) =~= pair_views(before).push((e.0@, e.1@)));
                }
                proof {
                    assert(set@.replicas[j as int] == set.replicas@[j as int]);
                    assert(all_lagging(self.set_keys(), self.set_list(), i as int, threshold)
                        + set_lagging(key@, set@.replicas, j + 1, threshold) =~= pair_views(out@));
                }
                j = j + 1;
            }
            proof {
                assert(all_lagging(self.set_keys(), self.set_list(), i + 1, threshold) =~= pair_views(out@));
            }
            i = i + 1;
        }
        out
    }

    /// Forget the replicas of a topic's partition.
    pub fn remove_partition_replicas(&mut self, topic_name: &str, partition_id: i32) -> (r: Result<()>)
        requires
            old(self).wf(),
        ensures
            final(self).wf(),
            r is Ok,
            final(self).spec_config() == old(self).spec_config(),
            final(self).is_running() == old(self).is_running(),
            final(self).sets() == old(self).sets().remove(key_of(topic_name@, partition_id)),
    {
        let key = partition_key(topic_name, partition_id);
        let _ = self.partition_replicas.remove(key.as_str());
        assert(self.sets() =~= old(self).sets().remove(key@));
        Ok(())
    }
}

} // verus!
