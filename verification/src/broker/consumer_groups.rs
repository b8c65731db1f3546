//! Consumer groups: members, the partitions of the subscribed topics shared
//! out among them by an assignment strategy, committed offsets and
//! transactions.

use vstd::prelude::*;
use std::time::Duration;
use crate::broker::codecs::{elapsed_since, instant_now};
use crate::broker::error::{Error, Result, is_storage_error};
use crate::broker::ids::IdMap;
use crate::broker::message::Offset;
use crate::broker::name_order::{is_name_order, name_order, sort_names};
use crate::broker::names::{DeepCopy, NameMap, names_of};
use crate::broker::time::{duration_from_secs, duration_nanos};
use crate::qiss::types::Timestamp;

verus! {

/// The number of partitions the group shares out for each topic (the group
/// has no view of topic metadata).
pub const TOPIC_PARTITIONS: usize = 4;

/// How many partitions member `i` of `n` gets of `count` under range
/// assignment: an equal share, and one more for each of the first
/// `count % n` members.
pub open spec fn range_share(count: nat, n: nat, i: nat) -> nat {
    count / n + if i < count % n { 1nat } else { 0nat }
}

/// The first partition of member `i`'s range: the shares of the members
/// before it.
pub open spec fn range_start(count: nat, n: nat, i: nat) -> nat {
    i * (count / n) + if i < count % n { i } else { count % n }
}

/// The partitions member `i` of `n` gets of `count` under range assignment:
/// a run of consecutive partitions.
pub open spec fn range_block(count: nat, n: nat, i: nat) -> Seq<i32> {
    Seq::new(range_share(count, n, i), |k: int| (range_start(count, n, i) + k) as i32)
}

/// The partitions below `count` that round-robin assignment gives member `i`
/// of `n`: those whose number leaves remainder `i` divided by `n`, in
/// ascending order.
pub open spec fn round_robin_block(count: nat, n: nat, i: nat) -> Seq<i32>
    decreases count,
{
    if count == 0 {
        Seq::empty()
    } else {
        let before = round_robin_block((count - 1) as nat, n, i);
        if (count - 1) as nat % n == i {
            before.push((count - 1) as i32)
        } else {
            before
        }
    }
}

/// The range blocks of the members before `k`, one after another.
pub open spec fn range_blocks_joined(count: nat, n: nat, k: nat) -> Seq<i32>
    decreases k,
{
    if k == 0 {
        Seq::empty()
    } else {
        range_blocks_joined(count, n, (k - 1) as nat) + range_block(count, n, (k - 1) as nat)
    }
}

/// The numbers below `count`, ascending.
pub open spec fn partitions_below(count: nat) -> Seq<i32> {
    Seq::new(count, |p: int| p as i32)
}

/// Each member's range begins where the one before it ends.
pub proof fn lemma_range_start_step(count: nat, n: nat, i: nat)
    requires
        n > 0,
    ensures
        range_start(count, n, i + 1) == range_start(count, n, i) + range_share(count, n, i),
{
    let q = count / n;
    assert((i + 1) * q == i * q + q) by (nonlinear_arith);
}

/// The last member's range ends at `count`.
pub proof fn lemma_range_start_end(count: nat, n: nat)
    requires
        n > 0,
    ensures
        range_start(count, n, n) == count,
{
    assert(count == n * (count / n) + count % n) by (nonlinear_arith)
        requires
            n > 0,
    ;
    assert(count % n < n) by (nonlinear_arith)
        requires
            n > 0,
    ;
}

/// Range assignment hands out each partition exactly once: the members'
/// blocks, in member order, are the partitions `0 .. count` in order.
pub proof fn lemma_range_covers(count: nat, n: nat)
    requires
        n > 0,
        count <= i32::MAX,
    ensures
        range_blocks_joined(count, n, n) == partitions_below(count),
{
    lemma_range_prefix(count, n, n);
    lemma_range_start_end(count, n);
}

/// The blocks of the first `k` members are the partitions below the start
/// of member `k`'s block.
pub proof fn lemma_range_prefix(count: nat, n: nat, k: nat)
    requires
        n > 0,
        k <= n,
        count <= i32::MAX,
    ensures
        range_blocks_joined(count, n, k) == partitions_below(range_start(count, n, k)),
    decreases k,
{
    if k > 0 {
        let j = (k - 1) as nat;
        lemma_range_prefix(count, n, j);
        lemma_range_start_step(count, n, j);
        lemma_range_start_end(count, n);
        lemma_range_start_monotone(count, n, k, n);
        assert(range_blocks_joined(count, n, k) =~= partitions_below(range_start(count, n, k)));
    } else {
        assert(range_blocks_joined(count, n, 0) =~= partitions_below(range_start(count, n, 0)));
    }
}

/// Later members' ranges start no earlier.
pub proof fn lemma_range_start_monotone(count: nat, n: nat, a: nat, b: nat)
    requires
        n > 0,
        a <= b,
    ensures
        range_start(count, n, a) <= range_start(count, n, b),
    decreases b - a,
{
    if a < b {
        lemma_range_start_step(count, n, a);
        lemma_range_start_monotone(count, n, a + 1, b);
    }
}

/// Range shares differ by at most one partition.
pub proof fn lemma_range_balanced(count: nat, n: nat, i: nat, j: nat)
    requires
        n > 0,
    ensures
        range_share(count, n, i) <= range_share(count, n, j) + 1,
{
}

/// Partition `p` is in member `i`'s range block exactly when it lies
/// between the start of member `i`'s range and the start of the next.
pub proof fn lemma_range_block_contains(count: nat, n: nat, i: nat, p: nat)
    requires
        n > 0,
        i < n,
        count <= i32::MAX,
        p <= i32::MAX,
    ensures
        range_block(count, n, i).contains(p as i32) <==> range_start(count, n, i) <= p < range_start(
            count,
            n,
            i + 1,
        ),
{
    lemma_range_start_step(count, n, i);
    lemma_range_start_monotone(count, n, i + 1, n);
    lemma_range_start_end(count, n);
    let b = range_block(count, n, i);
    let st = range_start(count, n, i);
    if b.contains(p as i32) {
        let k = choose|k: int| 0 <= k < b.len() && b[k] == p as i32;
        assert(b[k] == (st + k) as i32);
    }
    if st <= p < range_start(count, n, i + 1) {
        assert(b[p - st] == p as i32);
    }
}

/// Range assignment gives each partition below `count` to exactly one
/// member.
pub proof fn lemma_range_unique_owner(count: nat, n: nat, p: nat)
    requires
        n > 0,
        p < count,
        count <= i32::MAX,
    ensures
        exists|i: nat| i < n && #[trigger] range_block(count, n, i).contains(p as i32),
        forall|i: nat, j: nat|
            i < n && j < n && #[trigger] range_block(count, n, i).contains(p as i32) && #[trigger] range_block(
                count,
                n,
                j,
            ).contains(p as i32) ==> i == j,
{
    lemma_range_start_end(count, n);
    lemma_range_owner_exists(count, n, p, 0);
    assert forall|i: nat, j: nat|
        i < n && j < n && #[trigger] range_block(count, n, i).contains(p as i32) && #[trigger] range_block(
            count,
            n,
            j,
        ).contains(p as i32) implies i == j by {
        lemma_range_block_contains(count, n, i, p);
        lemma_range_block_contains(count, n, j, p);
        if i < j {
            lemma_range_start_monotone(count, n, i + 1, j);
        } else if j < i {
            lemma_range_start_monotone(count, n, j + 1, i);
        }
    }
}

/// Some member from `from` on has partition `p` in its block, when `p`
/// lies at or past the start of member `from`'s range.
proof fn lemma_range_owner_exists(count: nat, n: nat, p: nat, from: nat)
    requires
        n > 0,
        from <= n,
        p < count,
        count <= i32::MAX,
        range_start(count, n, from) <= p,
    ensures
        exists|i: nat| i < n && #[trigger] range_block(count, n, i).contains(p as i32),
    decreases n - from,
{
    lemma_range_start_end(count, n);
    if from < n {
        lemma_range_block_contains(count, n, from, p);
        if p < range_start(count, n, from + 1) {
            assert(range_block(count, n, from).contains(p as i32));
        } else {
            lemma_range_owner_exists(count, n, p, from + 1);
        }
    }
}

/// Round-robin assignment gives partition `p` to member `p % n` and to no
/// other.
pub proof fn lemma_round_robin_owner(count: nat, n: nat, i: nat, p: nat)
    requires
        n > 0,
        count <= i32::MAX,
        p <= i32::MAX,
    ensures
        round_robin_block(count, n, i).contains(p as i32) <==> (p < count && p % n == i),
    decreases count,
{
    if count > 0 {
        let c = (count - 1) as nat;
        lemma_round_robin_owner(c, n, i, p);
        lemma_round_robin_bounded(c, n, i);
        let before = round_robin_block(c, n, i);
        if c % n == i {
            assert(round_robin_block(count, n, i) == before.push(c as i32));
            if p == c {
                assert(before.push(c as i32)[before.len() as int] == p as i32);
            }
            let after = before.push(c as i32);
            if after.contains(p as i32) && p != c {
                let k = choose|k: int| 0 <= k < after.len() && after[k] == p as i32;
                if k < before.len() {
                    assert(before[k] == p as i32);
                }
            }
            if before.contains(p as i32) {
                let k = choose|k: int| 0 <= k < before.len() && before[k] == p as i32;
                assert(before.push(c as i32)[k] == p as i32);
            }
        } else if p == c {
            if before.contains(p as i32) {
                let k = choose|k: int| 0 <= k < before.len() && before[k] == p as i32;
            }
        }
    }
}

/// Every partition in a round-robin block is below `count`.
pub proof fn lemma_round_robin_bounded(count: nat, n: nat, i: nat)
    requires
        count <= i32::MAX,
    ensures
        forall|k: int|
            0 <= k < round_robin_block(count, n, i).len() ==> 0 <= #[trigger] round_robin_block(
                count,
                n,
                i,
            )[k] < count,
    decreases count,
{
    if count > 0 {
        let c = (count - 1) as nat;
        lemma_round_robin_bounded(c, n, i);
        let before = round_robin_block(c, n, i);
        let b = round_robin_block(count, n, i);
        assert forall|k: int| 0 <= k < b.len() implies 0 <= #[trigger] b[k] < count by {
            if k < before.len() {
                assert(b[k] == before[k]);
            }
        }
    }
}

/// The partitions member `i` of `n` gets of `count` under range assignment.
pub fn range_partitions(count: usize, n: usize, i: usize) -> (v: Vec<i32>)
    requires
        n > 0,
        i < n,
        count <= i32::MAX,
    ensures
        v@ == range_block(count as nat, n as nat, i as nat),
{
    let per = count / n;
    let extra = count % n;
    let share = per + if i < extra { 1 } else { 0 };
    proof {
        lemma_range_start_monotone(count as nat, n as nat, i as nat, n as nat);
        lemma_range_start_end(count as nat, n as nat);
        lemma_range_start_monotone(count as nat, n as nat, (i + 1) as nat, n as nat);
        lemma_range_start_step(count as nat, n as nat, i as nat);
        assert(i * per <= range_start(count as nat, n as nat, i as nat));
    }
    let start = i * per + if i < extra { i } else { extra };
    let mut v: Vec<i32> = Vec::new();
    let mut k: usize = 0;
    while k < share
        invariant
            k <= share,
            share == range_share(count as nat, n as nat, i as nat),
            start == range_start(count as nat, n as nat, i as nat),
            start + share <= count,
            count <= i32::MAX,
            v@ == range_block(count as nat, n as nat, i as nat).take(k as int),
        decreases share - k,
    {
        v.push((start + k) as i32);
        assert(v@ =~= range_block(count as nat, n as nat, i as nat).take(k + 1));
        k = k + 1;
    }
    assert(v@ =~= range_block(count as nat, n as nat, i as nat));
    v
}

/// The partitions member `i` of `n` gets of `count` under round-robin
/// assignment.
pub fn round_robin_partitions(count: usize, n: usize, i: usize) -> (v: Vec<i32>)
    requires
        n > 0,
        count <= i32::MAX,
    ensures
        v@ == round_robin_block(count as nat, n as nat, i as nat),
{
    let mut v: Vec<i32> = Vec::new();
    let mut p: usize = 0;
    while p < count
        invariant
            p <= count,
            count <= i32::MAX,
            n > 0,
            v@ == round_robin_block(p as nat, n as nat, i as nat),
        decreases count - p,
    {
        if p % n == i {
            v.push(p as i32);
        }
        p = p + 1;
    }
    v
}

/// Consumer group configuration.
#[derive(Debug, Clone)]
pub struct ConsumerGroupConfig {
    /// Group ID
    pub group_id: String,
    /// Protocol type
    pub protocol_type: String,
    /// Session timeout
    pub session_timeout: Duration,
    /// Rebalance timeout
    pub rebalance_timeout: Duration,
    /// Heartbeat interval
    pub heartbeat_interval: Duration,
    /// Enable exactly-once semantics
    pub enable_exactly_once: bool,
    /// Enable transaction support
    pub enable_transactions: bool,
    /// Transaction timeout
    pub transaction_timeout: Duration,
    /// Maximum transaction size
    pub max_transaction_size: usize,
    /// Enable auto-commit
    pub enable_auto_commit: bool,
    /// Auto-commit interval
    pub auto_commit_interval: Duration,
    /// Partition assignment strategy
    pub assignment_strategy: AssignmentStrategy,
    /// Enable cooperative rebalancing
    pub enable_cooperative_rebalancing: bool,
}

impl Default for ConsumerGroupConfig {
    fn default() -> (c: Self)
        ensures
            c.group_id@ == "default-group"@,
            c.protocol_type@ == "consumer"@,
            duration_nanos(c.session_timeout) == 30 * 1_000_000_000,
            duration_nanos(c.rebalance_timeout) == 60 * 1_000_000_000,
            duration_nanos(c.heartbeat_interval) == 3 * 1_000_000_000,
            c.enable_exactly_once,
            c.enable_transactions,
            duration_nanos(c.transaction_timeout) == 60 * 1_000_000_000,
            c.max_transaction_size == 1000,
            c.enable_auto_commit,
            duration_nanos(c.auto_commit_interval) == 5 * 1_000_000_000,
            c.assignment_strategy == AssignmentStrategy::Range,
            c.enable_cooperative_rebalancing,
    {
        ConsumerGroupConfig {
            group_id: "default-group".to_string(),
            protocol_type: "consumer".to_string(),
            session_timeout: duration_from_secs(30),
            rebalance_timeout: duration_from_secs(60),
            heartbeat_interval: duration_from_secs(3),
            enable_exactly_once: true,
            enable_transactions: true,
            transaction_timeout: duration_from_secs(60),
            max_transaction_size: 1000,
            enable_auto_commit: true,
            auto_commit_interval: duration_from_secs(5),
            assignment_strategy: AssignmentStrategy::Range,
            enable_cooperative_rebalancing: true,
        }
    }
}

/// Partition assignment strategy.
#[derive(Debug, Clone, Copy, PartialEq, Eq, Structural)]
pub enum AssignmentStrategy {
    /// Range assignment
    Range,
    /// Round-robin assignment
    RoundRobin,
    /// Sticky assignment (assigned as round-robin)
    Sticky,
    /// Cooperative sticky assignment (assigned as round-robin)
    CooperativeSticky,
    /// Custom assignment (not available)
    Custom,
}

/// Consumer group state.
#[derive(Debug, Clone, Copy, PartialEq, Eq, Structural)]
pub enum ConsumerGroupState {
    /// Empty group
    Empty,
    /// Preparing rebalance
    PreparingRebalance,
    /// Completing rebalance
    CompletingRebalance,
    /// Stable
    Stable,
    /// Dead
    Dead,
}

/// Member state.
#[derive(Debug, Clone, Copy, PartialEq, Eq, Structural)]
pub enum MemberState {
    /// Joining
    Joining,
    /// Stable
    Stable,
    /// Leaving
    Leaving,
    /// Dead
    Dead,
}

/// Transaction state type.
#[derive(Debug, Clone, Copy, PartialEq, Eq, Structural)]
pub enum TransactionStateType {
    /// Transaction started
    Started,
    /// Transaction in progress
    InProgress,
    /// Transaction committing
    Committing,
    /// Transaction committed
    Committed,
    /// Transaction aborting
    Aborting,
    /// Transaction aborted
    Aborted,
}

/// Offsets by topic and partition.
pub open spec fn offsets_of(m: NameMap<IdMap<Offset>>) -> Map<Seq<char>, Map<i32, Offset>> {
    m.map().map_values(|im: IdMap<Offset>| im.map())
}

/// The map of topics and each topic's map of partitions are well formed.
pub open spec fn offsets_wf(m: NameMap<IdMap<Offset>>) -> bool {
    m.wf() && forall|t: Seq<char>| #[trigger] m.map().contains_key(t) ==> m.map()[t].wf()
}

/// The offsets `m` with `offset` recorded for `partition` of `topic`.
pub open spec fn with_offset(
    m: Map<Seq<char>, Map<i32, Offset>>,
    topic: Seq<char>,
    partition: i32,
    offset: Offset,
) -> Map<Seq<char>, Map<i32, Offset>> {
    let partitions = if m.contains_key(topic) {
        m[topic]
    } else {
        Map::empty()
    };
    m.insert(topic, partitions.insert(partition, offset))
}

/// The offsets `m` with every offset of `more` recorded over them.
pub open spec fn with_offsets(
    m: Map<Seq<char>, Map<i32, Offset>>,
    more: Map<Seq<char>, Map<i32, Offset>>,
) -> Map<Seq<char>, Map<i32, Offset>> {
    Map::new(
        |t: Seq<char>| m.contains_key(t) || more.contains_key(t),
        |t: Seq<char>|
            if more.contains_key(t) {
                if m.contains_key(t) {
                    m[t].union_prefer_right(more[t])
                } else {
                    more[t]
                }
            } else {
                m[t]
            },
    )
}

/// A commit replaces what was committed: after `offset` is recorded for
/// `partition` of `topic`, that is the committed offset there, whether it
/// lies above or below the one before; every other topic and partition keeps
/// its offset, and nothing else is added.
pub proof fn lemma_commit_replaces(
    m: Map<Seq<char>, Map<i32, Offset>>,
    topic: Seq<char>,
    partition: i32,
    offset: Offset,
)
    ensures
        with_offset(m, topic, partition, offset).contains_key(topic),
        with_offset(m, topic, partition, offset)[topic].contains_key(partition),
        with_offset(m, topic, partition, offset)[topic][partition] == offset,
        forall|t: Seq<char>| #[trigger] with_offset(m, topic, partition, offset).contains_key(t) <==> (t == topic || m.contains_key(t)),
        forall|t: Seq<char>| t != topic && #[trigger] m.contains_key(t) ==> with_offset(m, topic, partition, offset)[t] == m[t],
        forall|q: i32|
            q != partition && m.contains_key(topic) && #[trigger] m[topic].contains_key(q)
                ==> with_offset(m, topic, partition, offset)[topic].contains_key(q)
                && with_offset(m, topic, partition, offset)[topic][q] == m[topic][q],
        forall|q: i32| q != partition && #[trigger] with_offset(m, topic, partition, offset)[topic].contains_key(q)
            ==> m.contains_key(topic) && m[topic].contains_key(q),
{
}

/// Offsets committed together replace what was committed for the same
/// partitions, and leave the rest.
pub proof fn lemma_commits_replace(
    m: Map<Seq<char>, Map<i32, Offset>>,
    more: Map<Seq<char>, Map<i32, Offset>>,
    topic: Seq<char>,
    partition: i32,
)
    ensures
        more.contains_key(topic) && more[topic].contains_key(partition) ==> with_offsets(m, more)[topic][partition]
            == more[topic][partition],
        !(more.contains_key(topic) && more[topic].contains_key(partition)) && m.contains_key(topic)
            && m[topic].contains_key(partition) ==> with_offsets(m, more)[topic][partition] == m[topic][partition],
{
}

/// Record `offset` for `partition` of `topic`.
pub fn record_offset(m: &mut NameMap<IdMap<Offset>>, topic: &str, partition: i32, offset: Offset)
    requires
        offsets_wf(*old(m)),
    ensures
        offsets_wf(*final(m)),
        offsets_of(*final(m)) == with_offset(offsets_of(*old(m)), topic@, partition, offset),
{
    let ghost before = offsets_of(*m);
    let mut partitions = match m.remove(topic) {
        Some(p) => p,
        None => IdMap::new(),
    };
    partitions.insert(partition, offset);
    let ghost p = partitions;
    m.insert(topic.to_string(), partitions);
    proof {
        assert(m.map() == old(m).map().remove(topic@).insert(topic@, p));
        assert(offsets_of(*m) =~= with_offset(before, topic@, partition, offset));
    }
}

/// Record every offset of `src` over `dst`.
fn merge_partitions(dst: &mut IdMap<Offset>, src: &IdMap<Offset>)
    requires
        old(dst).wf(),
        src.wf(),
    ensures
        final(dst).wf(),
        final(dst).map() == old(dst).map().union_prefer_right(src.map()),
{
    proof {
        src.lemma_seqs();
    }
    let ghost ks = src.keys_seq();
    assert(old(dst).map().union_prefer_right(src.map().restrict(ks.take(0).to_set())) =~= old(dst).map());
    let mut j: usize = 0;
    while j < src.len()
        invariant
            src.wf(),
            ks == src.keys_seq(),
            ks.len() == src.values_seq().len(),
            j <= ks.len(),
            forall|a: int| 0 <= a < ks.len() ==> src.map().contains_key(#[trigger] ks[a]) && src.map()[ks[a]] == src.values_seq()[a],
            forall|k: i32| #[trigger] src.map().contains_key(k) ==> exists|a: int| 0 <= a < ks.len() && ks[a] == k,
            dst.wf(),
            dst.map() == old(dst).map().union_prefer_right(src.map().restrict(ks.take(j as int).to_set())),
        decreases ks.len() - j,
    {
        let k = src.key_at(j);
        let v = *src.value_at(j);
        let ghost before = dst.map();
        dst.insert(k, v);
        proof {
            ks.take(j as int).lemma_push_to_set_commute(k);
            assert(ks.take(j + 1) =~= ks.take(j as int).push(k));
            assert(dst.map() =~= old(dst).map().union_prefer_right(src.map().restrict(ks.take(j + 1).to_set())));
        }
        j = j + 1;
    }
    proof {
        assert(ks.take(ks.len() as int) =~= ks);
        assert(src.map().restrict(ks.to_set()) =~= src.map()) by {
            assert forall|k: i32| #[trigger] src.map().contains_key(k) implies ks.to_set().contains(k) by {
                let a = choose|a: int| 0 <= a < ks.len() && ks[a] == k;
            }
        }
    }
}

/// Record every offset of `more` over `m`.
pub fn record_offsets(m: &mut NameMap<IdMap<Offset>>, more: &NameMap<IdMap<Offset>>)
    requires
        offsets_wf(*old(m)),
        offsets_wf(*more),
    ensures
        offsets_wf(*final(m)),
        offsets_of(*final(m)) == with_offsets(offsets_of(*old(m)), offsets_of(*more)),
{
    proof {
        more.lemma_seqs();
    }
    let ghost ts = more.keys_seq();
    let ghost base = offsets_of(*old(m));
    let ghost all = offsets_of(*more);
    assert(with_offsets(base, all.restrict(ts.take(0).to_set())) =~= base);
    let mut i: usize = 0;
    while i < more.len()
        invariant
            offsets_wf(*more),
            ts == more.keys_seq(),
            ts.len() == more.values_seq().len(),
            i <= ts.len(),
            all == offsets_of(*more),
            forall|a: int| 0 <= a < ts.len() ==> more.map().contains_key(#[trigger] ts[a]) && more.map()[ts[a]] == more.values_seq()[a],
            forall|t: Seq<char>| #[trigger] more.map().contains_key(t) ==> exists|a: int| 0 <= a < ts.len() && ts[a] == t,
            forall|a: int, b: int| 0 <= a < b < ts.len() ==> ts[a] != ts[b],
            offsets_wf(*m),
            offsets_of(*m) == with_offsets(base, all.restrict(ts.take(i as int).to_set())),
        decreases ts.len() - i,
    {
        let topic = more.key_at(i);
        let src = more.value_at(i);
        proof {
            assert(more.map().contains_key(ts[i as int]));
        }
        let ghost before = offsets_of(*m);
        let ghost before_map = m.map();
        let removed = m.remove(topic.as_str());
        let ghost rem = removed;
        let mut dst = match removed {
            Some(d) => d,
            None => IdMap::new(),
        };
        let ghost had = dst.map();
        proof {
            match rem {
                Some(d) => {
                    assert(before_map.contains_key(topic@) && before_map[topic@] == d);
                    assert(before.contains_key(topic@) && before[topic@] == had);
                },
                None => {
                    assert(!before.contains_key(topic@));
                    assert(had == Map::<i32, Offset>::empty());
                },
            }
        }
        merge_partitions(&mut dst, src);
        let ghost merged = dst.map();
        m.insert(topic.clone(), dst);
        proof {
            ts.take(i as int).lemma_push_to_set_commute(topic@);
            assert(ts.take(i + 1) =~= ts.take(i as int).push(topic@));
            assert(!ts.take(i as int).to_set().contains(topic@)) by {
                if ts.take(i as int).to_set().contains(topic@) {
                    let a = choose|a: int| 0 <= a < ts.take(i as int).len() && ts.take(i as int)[a] == topic@;
                    assert(ts[a] == ts[i as int]);
                }
            }
            assert(all[topic@] == src.map());
            assert(offsets_of(*m) == before.insert(topic@, merged));
            assert(had == if base.contains_key(topic@) { base[topic@] } else { Map::<i32, Offset>::empty() }) by {
                if base.contains_key(topic@) {
                    assert(before[topic@] == base[topic@]);
                }
            }
            assert(Map::<i32, Offset>::empty().union_prefer_right(src.map()) =~= src.map());
            let r0 = all.restrict(ts.take(i as int).to_set());
            let r1 = all.restrict(ts.take(i + 1).to_set());
            assert(r1 =~= r0.insert(topic@, src.map()));
            assert(offsets_of(*m) =~= with_offsets(base, r1));
        }
        i = i + 1;
    }
    proof {
        assert(ts.take(ts.len() as int) =~= ts);
        assert(all.restrict(ts.to_set()) =~= all) by {
            assert forall|t: Seq<char>| #[trigger] all.contains_key(t) implies ts.to_set().contains(t) by {
                let a = choose|a: int| 0 <= a < ts.len() && ts[a] == t;
            }
        }
    }
}

/// Transaction state.
#[derive(Debug)]
pub struct TransactionState {
    /// Transaction ID
    pub transaction_id: String,
    /// Transaction coordinator
    pub coordinator: String,
    /// Transaction timeout
    pub timeout: Duration,
    /// Transaction start time
    pub start_time: Timestamp,
    /// Committed offsets
    pub committed_offsets: NameMap<IdMap<Offset>>,
    /// Pending offsets
    pub pending_offsets: NameMap<IdMap<Offset>>,
    /// Transaction state
    pub state: TransactionStateType,
}

impl TransactionState {
    /// Both maps of offsets are well formed.
    pub open spec fn wf(&self) -> bool {
        offsets_wf(self.committed_offsets) && offsets_wf(self.pending_offsets)
    }
}

/// A transaction that has just begun, with no offsets.
pub open spec fn fresh_transaction(
    t: TransactionState,
    id: Seq<char>,
    coordinator: Seq<char>,
    timeout: Duration,
    now: Timestamp,
) -> bool {
    &&& t.wf()
    &&& t.transaction_id@ == id
    &&& t.coordinator@ == coordinator
    &&& t.timeout == timeout
    &&& t.start_time == now
    &&& offsets_of(t.committed_offsets) == Map::<Seq<char>, Map<i32, Offset>>::empty()
    &&& offsets_of(t.pending_offsets) == Map::<Seq<char>, Map<i32, Offset>>::empty()
    &&& t.state == TransactionStateType::Started
}

fn new_transaction(id: String, coordinator: String, timeout: Duration, now: Timestamp) -> (t: TransactionState)
    ensures
        fresh_transaction(t, id@, coordinator@, timeout, now),
{
    let t = TransactionState {
        transaction_id: id,
        coordinator,
        timeout,
        start_time: now,
        committed_offsets: NameMap::new(),
        pending_offsets: NameMap::new(),
        state: TransactionStateType::Started,
    };
    assert(offsets_of(t.committed_offsets) =~= Map::<Seq<char>, Map<i32, Offset>>::empty());
    assert(offsets_of(t.pending_offsets) =~= Map::<Seq<char>, Map<i32, Offset>>::empty());
    t
}

/// Consumer group member.
#[derive(Debug)]
pub struct ConsumerGroupMember {
    /// Member ID
    pub member_id: String,
    /// Client ID
    pub client_id: String,
    /// Client host
    pub client_host: String,
    /// Session timeout
    pub session_timeout: Duration,
    /// Rebalance timeout
    pub rebalance_timeout: Duration,
    /// Subscription topics
    pub subscription: Vec<String>,
    /// Partition assignments
    pub assignment: NameMap<Vec<i32>>,
    /// Last heartbeat timestamp
    pub last_heartbeat: Timestamp,
    /// Member state
    pub state: MemberState,
    /// Protocol metadata
    pub protocol_metadata: Vec<u8>,
    /// Generation ID
    pub generation_id: u32,
    /// Transaction state
    pub transaction_state: Option<TransactionState>,
}

/// The partitions of each topic in an assignment.
pub open spec fn assignment_view(a: NameMap<Vec<i32>>) -> Map<Seq<char>, Seq<i32>> {
    a.map().map_values(|v: Vec<i32>| v@)
}

impl ConsumerGroupMember {
    /// The member's assignment and transaction are well formed.
    pub open spec fn wf(&self) -> bool {
        &&& self.assignment.wf()
        &&& (self.transaction_state matches Some(t) ==> t.wf())
    }

    /// The member's partitions of each topic.
    pub open spec fn assigned(&self) -> Map<Seq<char>, Seq<i32>> {
        assignment_view(self.assignment)
    }
}

impl DeepCopy for Vec<i32> {
    fn deep_copy(&self) -> (r: Self) {
        let mut r: Vec<i32> = Vec::new();
        let mut i: usize = 0;
        while i < self.len()
            invariant
                i <= self@.len(),
                r@ == self@.take(i as int),
            decreases self.len() - i,
        {
            r.push(self[i]);
            assert(r@ =~= self@.take(i + 1));
            i = i + 1;
        }
        assert(r@ =~= self@);
        r
    }
}

/// A copy of an assignment.
pub fn copy_assignment(a: &NameMap<Vec<i32>>) -> (r: NameMap<Vec<i32>>)
    requires
        a.wf(),
    ensures
        r.wf(),
        assignment_view(r) == assignment_view(*a),
{
    let r = a.deep_copy_map();
    proof {
        a.lemma_seqs();
        r.lemma_seqs();
        assert forall|t: Seq<char>| #[trigger] assignment_view(r).contains_key(t) == assignment_view(*a).contains_key(t) by {
            if r.map().contains_key(t) {
                let i = choose|i: int| 0 <= i < r.keys_seq().len() && r.keys_seq()[i] == t;
                assert(a.map().contains_key(a.keys_seq()[i]));
            }
            if a.map().contains_key(t) {
                let i = choose|i: int| 0 <= i < a.keys_seq().len() && a.keys_seq()[i] == t;
                assert(r.map().contains_key(r.keys_seq()[i]));
            }
        }
        assert forall|t: Seq<char>| #[trigger] assignment_view(r).contains_key(t) implies assignment_view(r)[t]
            == assignment_view(*a)[t] by {
            let i = choose|i: int| 0 <= i < r.keys_seq().len() && r.keys_seq()[i] == t;
            assert(r.values_seq()[i]@ == a.values_seq()[i]@);
        }
        assert(assignment_view(r) =~= assignment_view(*a));
    }
    r
}

/// Consumer group statistics.
#[derive(Debug)]
pub struct ConsumerGroupStats {
    /// Total members
    pub total_members: usize,
    /// Active members
    pub active_members: usize,
    /// Total rebalances
    pub total_rebalances: u64,
    /// Last rebalance time
    pub last_rebalance_time: Option<Timestamp>,
    /// Average rebalance duration
    pub avg_rebalance_duration: Duration,
    /// Total messages consumed
    pub total_messages_consumed: u64,
    /// Total bytes consumed
    pub total_bytes_consumed: u64,
    /// Lag per partition
    pub partition_lag: NameMap<IdMap<u64>>,
}

impl Default for ConsumerGroupStats {
    fn default() -> (s: Self)
        ensures
            s.total_members == 0,
            s.active_members == 0,
            s.total_rebalances == 0,
            s.last_rebalance_time is None,
            duration_nanos(s.avg_rebalance_duration) == 0,
            s.total_messages_consumed == 0,
            s.total_bytes_consumed == 0,
            s.partition_lag.wf(),
            s.partition_lag.map() == Map::<Seq<char>, IdMap<u64>>::empty(),
    {
        ConsumerGroupStats {
            total_members: 0,
            active_members: 0,
            total_rebalances: 0,
            last_rebalance_time: None,
            avg_rebalance_duration: duration_from_secs(0),
            total_messages_consumed: 0,
            total_bytes_consumed: 0,
            partition_lag: NameMap::new(),
        }
    }
}

/// Rebalance event.
#[derive(Debug)]
pub enum RebalanceEvent {
    /// Member joined
    MemberJoined(String),
    /// Member left
    MemberLeft(String),
    /// Rebalance started
    RebalanceStarted,
    /// Rebalance completed
    RebalanceCompleted,
    /// Assignment changed
    AssignmentChanged(String, NameMap<Vec<i32>>),
}

/// What an event says: the member concerned, and a new assignment.
pub open spec fn event_view(e: RebalanceEvent) -> (u8, Seq<char>, Map<Seq<char>, Seq<i32>>) {
    match e {
        RebalanceEvent::MemberJoined(id) => (0u8, id@, Map::empty()),
        RebalanceEvent::MemberLeft(id) => (1u8, id@, Map::empty()),
        RebalanceEvent::RebalanceStarted => (2u8, Seq::empty(), Map::empty()),
        RebalanceEvent::RebalanceCompleted => (3u8, Seq::empty(), Map::empty()),
        RebalanceEvent::AssignmentChanged(id, a) => (4u8, id@, assignment_view(a)),
    }
}

/// The transaction `t` with its state set to `state`.
pub open spec fn in_state(t: TransactionState, state: TransactionStateType) -> TransactionState {
    TransactionState { state, ..t }
}

/// The transactions `m` with transaction `id`, where there is one, set to
/// `state`.
pub open spec fn set_state(
    m: Map<Seq<char>, TransactionState>,
    id: Seq<char>,
    state: TransactionStateType,
) -> Map<Seq<char>, TransactionState> {
    if m.contains_key(id) {
        m.insert(id, in_state(m[id], state))
    } else {
        m
    }
}

/// Transaction coordinator: the transactions it has begun, by ID.
#[derive(Debug)]
pub struct TransactionCoordinator {
    transactions: NameMap<TransactionState>,
}

impl TransactionCoordinator {
    /// The transactions by ID.
    pub closed spec fn transactions(&self) -> Map<Seq<char>, TransactionState> {
        self.transactions.map()
    }

    /// The map is well formed, and so is each transaction.
    pub closed spec fn wf(&self) -> bool {
        &&& self.transactions.wf()
        &&& forall|id: Seq<char>| #[trigger] self.transactions.map().contains_key(id)
            ==> self.transactions.map()[id].wf()
    }

    /// Create a new transaction coordinator.
    pub fn new() -> (c: Self)
        ensures
            c.wf(),
            c.transactions() == Map::<Seq<char>, TransactionState>::empty(),
    {
        TransactionCoordinator { transactions: NameMap::new() }
    }

    /// Start transaction `transaction_id` at `now`: a fresh transaction under
    /// the coordinator "coordinator", with a timeout of 60 seconds, replacing
    /// any transaction of that ID.
    pub fn start_transaction_at(&mut self, transaction_id: String, now: Timestamp) -> (r: Result<()>)
        requires
            old(self).wf(),
        ensures
            r is Ok,
            final(self).wf(),
            final(self).transactions().dom() == old(self).transactions().dom().insert(transaction_id@),
            forall|id: Seq<char>| id != transaction_id@ && #[trigger] old(self).transactions().contains_key(id)
                ==> final(self).transactions()[id] == old(self).transactions()[id],
            fresh_transaction(
                final(self).transactions()[transaction_id@],
                transaction_id@,
                "coordinator"@,
                final(self).transactions()[transaction_id@].timeout,
                now,
            ),
            duration_nanos(final(self).transactions()[transaction_id@].timeout) == 60 * 1_000_000_000,
    {
        let t = new_transaction(transaction_id.clone(), "coordinator".to_string(), duration_from_secs(60), now);
        self.transactions.insert(transaction_id, t);
        Ok(())
    }

    /// Start transaction `transaction_id` now (see `start_transaction_at`).
    pub fn start_transaction(&mut self, transaction_id: String) -> (r: Result<()>)
        requires
            old(self).wf(),
        ensures
            r is Ok,
            final(self).wf(),
            final(self).transactions().dom() == old(self).transactions().dom().insert(transaction_id@),
            forall|id: Seq<char>| id != transaction_id@ && #[trigger] old(self).transactions().contains_key(id)
                ==> final(self).transactions()[id] == old(self).transactions()[id],
            exists|now: Timestamp| fresh_transaction(
                final(self).transactions()[transaction_id@],
                transaction_id@,
                "coordinator"@,
                final(self).transactions()[transaction_id@].timeout,
                now,
            ),
    {
        self.start_transaction_at(transaction_id, Timestamp::now())
    }

    fn set_transaction_state(&mut self, transaction_id: &str, state: TransactionStateType)
        requires
            old(self).wf(),
        ensures
            final(self).wf(),
            final(self).transactions() == set_state(old(self).transactions(), transaction_id@, state),
    {
        match self.transactions.remove(transaction_id) {
            Some(t) => {
                let ghost before = t;
                let t = TransactionState { state, ..t };
                assert(t == in_state(before, state));
                self.transactions.insert(transaction_id.to_string(), t);
                assert(self.transactions.map() =~= set_state(old(self).transactions(), transaction_id@, state));
            },
            None => {
                assert(self.transactions.map() =~= old(self).transactions());
            },
        }
    }

    /// Mark transaction `transaction_id`, if there is one, committed.
    pub fn commit_transaction(&mut self, transaction_id: &str) -> (r: Result<()>)
        requires
            old(self).wf(),
        ensures
            r is Ok,
            final(self).wf(),
            final(self).transactions() == set_state(
                old(self).transactions(),
                transaction_id@,
                TransactionStateType::Committed,
            ),
    {
        self.set_transaction_state(transaction_id, TransactionStateType::Committed);
        Ok(())
    }

    /// Mark transaction `transaction_id`, if there is one, aborted.
    pub fn abort_transaction(&mut self, transaction_id: &str) -> (r: Result<()>)
        requires
            old(self).wf(),
        ensures
            r is Ok,
            final(self).wf(),
            final(self).transactions() == set_state(
                old(self).transactions(),
                transaction_id@,
                TransactionStateType::Aborted,
            ),
    {
        self.set_transaction_state(transaction_id, TransactionStateType::Aborted);
        Ok(())
    }
}

/// The topics some member subscribes to.
pub open spec fn subscribed_topics(members: Map<Seq<char>, ConsumerGroupMember>) -> Set<Seq<char>> {
    Set::new(
        |t: Seq<char>|
            exists|id: Seq<char>|
                #[trigger] members.contains_key(id) && names_of(members[id].subscription@).contains(t),
    )
}

/// What a rebalance by `strategy` makes of the assignment `a` of member `i`
/// of `n`, for the subscribed `topics`: under range assignment each topic
/// gets the member's range block; under round-robin (which sticky and
/// cooperative sticky assignment use too) the member's round-robin block is
/// appended to what it had of each topic, where the block is not empty.
pub open spec fn reassigned(
    a: Map<Seq<char>, Seq<i32>>,
    topics: Set<Seq<char>>,
    n: nat,
    i: nat,
    strategy: AssignmentStrategy,
) -> Map<Seq<char>, Seq<i32>> {
    match strategy {
        AssignmentStrategy::Range => Map::new(
            |t: Seq<char>| a.contains_key(t) || topics.contains(t),
            |t: Seq<char>|
                if topics.contains(t) {
                    range_block(TOPIC_PARTITIONS as nat, n, i)
                } else {
                    a[t]
                },
        ),
        AssignmentStrategy::Custom => a,
        _ => {
            let b = round_robin_block(TOPIC_PARTITIONS as nat, n, i);
            if b.len() == 0 {
                a
            } else {
                Map::new(
                    |t: Seq<char>| a.contains_key(t) || topics.contains(t),
                    |t: Seq<char>|
                        if topics.contains(t) {
                            (if a.contains_key(t) {
                                a[t]
                            } else {
                                Seq::empty()
                            }) + b
                        } else {
                            a[t]
                        },
                )
            }
        },
    }
}

/// `after` is the member `before` with its assignment reassigned, as member
/// `i` of `n`; nothing else about it changes.
pub open spec fn member_reassigned(
    before: ConsumerGroupMember,
    after: ConsumerGroupMember,
    topics: Set<Seq<char>>,
    n: nat,
    i: nat,
    strategy: AssignmentStrategy,
) -> bool {
    &&& after.wf()
    &&& after == (ConsumerGroupMember { assignment: after.assignment, ..before })
    &&& after.assigned() == reassigned(before.assigned(), topics, n, i, strategy)
}

/// `after` is the membership `before` rebalanced by `strategy`: the members
/// in name order are numbered from zero, and each is reassigned as its
/// number for the topics the members subscribe to.
pub open spec fn rebalanced(
    before: Map<Seq<char>, ConsumerGroupMember>,
    after: Map<Seq<char>, ConsumerGroupMember>,
    strategy: AssignmentStrategy,
) -> bool {
    let order = name_order(before.dom());
    &&& is_name_order(order, before.dom())
    &&& after.dom() == before.dom()
    &&& forall|i: int|
        0 <= i < order.len() ==> member_reassigned(
            before[#[trigger] order[i]],
            after[order[i]],
            subscribed_topics(before),
            order.len(),
            i as nat,
            strategy,
        )
}

/// The events of a rebalance: one assignment change for each member in name
/// order, with its new assignment, where there are topics to assign.
pub open spec fn assignment_events(
    order: Seq<Seq<char>>,
    after: Map<Seq<char>, ConsumerGroupMember>,
    topics: Set<Seq<char>>,
) -> Seq<(u8, Seq<char>, Map<Seq<char>, Seq<i32>>)> {
    if topics == Set::<Seq<char>>::empty() {
        Seq::empty()
    } else {
        order.map_values(|id: Seq<char>| (4u8, id, after[id].assigned()))
    }
}

/// Consumer group.
#[derive(Debug)]
pub struct ConsumerGroup {
    config: ConsumerGroupConfig,
    state: ConsumerGroupState,
    members: NameMap<ConsumerGroupMember>,
    coordinator: Option<String>,
    generation_id: u32,
    leader_id: Option<String>,
    protocol_metadata: Vec<u8>,
    committed_offsets: NameMap<IdMap<Offset>>,
    pending_offsets: NameMap<IdMap<Offset>>,
    stats: ConsumerGroupStats,
    events: Vec<RebalanceEvent>,
    transaction_coordinator: TransactionCoordinator,
}

impl ConsumerGroup {
    /// The configuration.
    pub closed spec fn spec_config(&self) -> ConsumerGroupConfig {
        self.config
    }

    /// The group's state.
    pub closed spec fn group_state(&self) -> ConsumerGroupState {
        self.state
    }

    /// The members by ID.
    pub closed spec fn members(&self) -> Map<Seq<char>, ConsumerGroupMember> {
        self.members.map()
    }

    /// The generation: the number of rebalances completed.
    pub closed spec fn generation(&self) -> u32 {
        self.generation_id
    }

    /// The committed offsets, by topic and partition.
    pub closed spec fn committed(&self) -> Map<Seq<char>, Map<i32, Offset>> {
        offsets_of(self.committed_offsets)
    }

    /// The events not yet taken, in the order they happened.
    pub closed spec fn events(&self) -> Seq<(u8, Seq<char>, Map<Seq<char>, Seq<i32>>)> {
        self.events@.map_values(|e: RebalanceEvent| event_view(e))
    }

    /// The statistics kept.
    pub closed spec fn spec_stats(&self) -> ConsumerGroupStats {
        self.stats
    }

    /// The transactions the coordinator has begun.
    pub closed spec fn transactions(&self) -> Map<Seq<char>, TransactionState> {
        self.transaction_coordinator.transactions()
    }

    /// The maps are well formed, so is each member; no lag is recorded and
    /// no more members are active than have joined.
    pub closed spec fn wf(&self) -> bool {
        &&& self.members.wf()
        &&& forall|id: Seq<char>| #[trigger] self.members.map().contains_key(id)
            ==> self.members.map()[id].wf()
        &&& offsets_wf(self.committed_offsets)
        &&& offsets_wf(self.pending_offsets)
        &&& self.transaction_coordinator.wf()
        &&& self.stats.partition_lag.wf()
        &&& self.stats.partition_lag.map() == Map::<Seq<char>, IdMap<u64>>::empty()
        &&& self.stats.active_members <= self.stats.total_members
    }

    /// Create a new consumer group: empty, in the empty state, at generation
    /// zero, with no offsets, events or transactions.
    pub fn new(config: ConsumerGroupConfig) -> (g: Self)
        ensures
            g.wf(),
            g.spec_config() == config,
            g.group_state() == ConsumerGroupState::Empty,
            g.members() == Map::<Seq<char>, ConsumerGroupMember>::empty(),
            g.generation() == 0,
            g.committed() == Map::<Seq<char>, Map<i32, Offset>>::empty(),
            g.events() == Seq::<(u8, Seq<char>, Map<Seq<char>, Seq<i32>>)>::empty(),
            g.transactions() == Map::<Seq<char>, TransactionState>::empty(),
            g.spec_stats().total_members == 0,
            g.spec_stats().active_members == 0,
            g.spec_stats().total_rebalances == 0,
            g.spec_stats().last_rebalance_time is None,
    {
        let g = ConsumerGroup {
            config,
            state: ConsumerGroupState::Empty,
            members: NameMap::new(),
            coordinator: None,
            generation_id: 0,
            leader_id: None,
            protocol_metadata: Vec::new(),
            committed_offsets: NameMap::new(),
            pending_offsets: NameMap::new(),
            stats: ConsumerGroupStats::default(),
            events: Vec::new(),
            transaction_coordinator: TransactionCoordinator::new(),
        };
        assert(g.committed() =~= Map::<Seq<char>, Map<i32, Offset>>::empty());
        assert(g.events() =~= Seq::<(u8, Seq<char>, Map<Seq<char>, Seq<i32>>)>::empty());
        g
    }

    /// The subscribed topics, each once.
    fn subscribed_topic_list(&self) -> (r: Vec<String>)
        requires
            self.wf(),
        ensures
            names_of(r@).no_duplicates(),
            names_of(r@).to_set() == subscribed_topics(self.members()),
    {
        let ghost keys = self.members.keys_seq();
        let ghost vals = self.members.values_seq();
        proof {
            self.members.lemma_seqs();
        }
        let mut r: Vec<String> = Vec::new();
        let mut i: usize = 0;
        while i < self.members.len()
            invariant
                self.wf(),
                keys == self.members.keys_seq(),
                vals == self.members.values_seq(),
                keys.len() == vals.len(),
                i <= vals.len(),
                names_of(r@).no_duplicates(),
                forall|t: Seq<char>| names_of(r@).contains(t) <==> exists|j: int|
                    0 <= j < i && #[trigger] names_of(vals[j].subscription@).contains(t),
            decreases vals.len() - i,
        {
            let subs = &self.members.value_at(i).subscription;
            let mut k: usize = 0;
            while k < subs.len()
                invariant
                    i < vals.len(),
                    *subs == vals[i as int].subscription,
                    k <= subs@.len(),
                    names_of(r@).no_duplicates(),
                    forall|t: Seq<char>| names_of(r@).contains(t) <==> (exists|j: int|
                        0 <= j < i && #[trigger] names_of(vals[j].subscription@).contains(t))
                        || names_of(subs@).take(k as int).contains(t),
                decreases subs.len() - k,
            {
                let topic = &subs[k];
                let mut seen = false;
                let mut m: usize = 0;
                while m < r.len()
                    invariant
                        m <= r@.len(),
                        seen <==> exists|x: int| 0 <= x < m && r@[x]@ == topic@,
                    decreases r.len() - m,
                {
                    if r[m] == *topic {
                        seen = true;
                    }
                    m = m + 1;
                }
                let ghost prev = names_of(r@);
                if !seen {
                    r.push(topic.clone());
                    proof {
                        assert(names_of(r@) =~= prev.push(topic@));
                        assert(!prev.contains(topic@)) by {
                            if prev.contains(topic@) {
                                let x = choose|x: int| 0 <= x < prev.len() && prev[x] == topic@;
                                assert(r@[x]@ == topic@);
                            }
                        }
                    }
                }
                proof {
                    let s = names_of(subs@);
                    let s1 = s.take(k + 1);
                    let s0 = s.take(k as int);
                    let cur = names_of(r@);
                    assert(s1 =~= s0.push(topic@));
                    assert(s[k as int] == topic@);
                    assert(cur.contains(topic@)) by {
                        if seen {
                            let x = choose|x: int| 0 <= x < r@.len() && r@[x]@ == topic@;
                            assert(cur[x] == topic@);
                        } else {
                            assert(cur[prev.len() as int] == topic@);
                        }
                    }
                    assert forall|t: Seq<char>| cur.contains(t) <==> (exists|j: int|
                        0 <= j < i && #[trigger] names_of(vals[j].subscription@).contains(t))
                        || s1.contains(t) by {
                        assert(prev.contains(t) <==> (exists|j: int|
                            0 <= j < i && #[trigger] names_of(vals[j].subscription@).contains(t))
                            || s0.contains(t));
                        if !seen {
                            if cur.contains(t) && t != topic@ {
                                let x = choose|x: int| 0 <= x < cur.len() && cur[x] == t;
                                assert(prev[x] == t);
                            }
                            if prev.contains(t) {
                                let x = choose|x: int| 0 <= x < prev.len() && prev[x] == t;
                                assert(cur[x] == t);
                            }
                        } else {
                            assert(cur == prev);
                        }
                        if s1.contains(t) && t != topic@ {
                            let x = choose|x: int| 0 <= x < s1.len() && s1[x] == t;
                            assert(s0[x] == t);
                        }
                        if s0.contains(t) {
                            let x = choose|x: int| 0 <= x < s0.len() && s0[x] == t;
                            assert(s1[x] == t);
                        }
                        if t == topic@ {
                            assert(s1[k as int] == t);
                        }
                    }
                }
                k = k + 1;
            }
            proof {
                let s = names_of(subs@);
                assert(s.take(subs@.len() as int) =~= s);
                assert forall|t: Seq<char>| names_of(r@).contains(t) <==> exists|j: int|
                    0 <= j < i + 1 && #[trigger] names_of(vals[j].subscription@).contains(t) by {
                    if names_of(vals[i as int].subscription@).contains(t) {
                        assert(s.contains(t));
                    }
                }
            }
            i = i + 1;
        }
        proof {
            assert forall|t: Seq<char>| names_of(r@).to_set().contains(t) == subscribed_topics(self.members()).contains(t) by {
                if names_of(r@).contains(t) {
                    let j = choose|j: int| 0 <= j < i && #[trigger] names_of(vals[j].subscription@).contains(t);
                    assert(self.members().contains_key(keys[j]));
                    assert(self.members()[keys[j]] == vals[j]);
                }
                if subscribed_topics(self.members()).contains(t) {
                    let id = choose|id: Seq<char>|
                        #[trigger] self.members().contains_key(id) && names_of(self.members()[id].subscription@).contains(t);
                    let j = choose|j: int| 0 <= j < keys.len() && keys[j] == id;
                    assert(self.members()[keys[j]] == vals[j]);
                    assert(names_of(vals[j].subscription@).contains(t));
                }
            }
            assert(names_of(r@).to_set() =~= subscribed_topics(self.members()));
        }
        r
    }
}

/// `v` followed by the partitions of `more`.
fn append_partitions(v: &mut Vec<i32>, more: &Vec<i32>)
    ensures
        final(v)@ == old(v)@ + more@,
{
    let mut k: usize = 0;
    while k < more.len()
        invariant
            k <= more@.len(),
            v@ == old(v)@ + more@.take(k as int),
        decreases more.len() - k,
    {
        v.push(more[k]);
        assert(old(v)@ + more@.take(k + 1) =~= (old(v)@ + more@.take(k as int)).push(more@[k as int]));
        k = k + 1;
    }
    assert(more@.take(more@.len() as int) =~= more@);
}

/// Reassign `member`, member `i` of `n`, for `topics`.
fn reassign_member(
    member: &mut ConsumerGroupMember,
    topics: &Vec<String>,
    n: usize,
    i: usize,
    strategy: AssignmentStrategy,
)
    requires
        old(member).wf(),
        names_of(topics@).no_duplicates(),
        n > 0,
        i < n,
        strategy != AssignmentStrategy::Custom,
    ensures
        member_reassigned(*old(member), *final(member), names_of(topics@).to_set(), n as nat, i as nat, strategy),
{
    let range = match strategy {
        AssignmentStrategy::Range => true,
        _ => false,
    };
    let block = if range {
        range_partitions(TOPIC_PARTITIONS, n, i)
    } else {
        round_robin_partitions(TOPIC_PARTITIONS, n, i)
    };
    let ghost a0 = old(member).assigned();
    let ghost names = names_of(topics@);
    assert(reassigned(a0, names.take(0).to_set(), n as nat, i as nat, strategy) =~= a0) by {
        assert(names.take(0).to_set() =~= Set::<Seq<char>>::empty());
    }
    let mut k: usize = 0;
    while k < topics.len()
        invariant
            k <= topics@.len(),
            names == names_of(topics@),
            names.no_duplicates(),
            n > 0,
            i < n,
            range == (strategy == AssignmentStrategy::Range),
            strategy != AssignmentStrategy::Custom,
            block@ == if range {
                range_block(TOPIC_PARTITIONS as nat, n as nat, i as nat)
            } else {
                round_robin_block(TOPIC_PARTITIONS as nat, n as nat, i as nat)
            },
            a0 == old(member).assigned(),
            member.wf(),
            *member == (ConsumerGroupMember { assignment: member.assignment, ..*old(member) }),
            member.assigned() == reassigned(a0, names.take(k as int).to_set(), n as nat, i as nat, strategy),
        decreases topics.len() - k,
    {
        let topic = &topics[k];
        let ghost before = member.assigned();
        let ghost set0 = names.take(k as int).to_set();
        let ghost set1 = names.take(k + 1).to_set();
        proof {
            assert(names.take(k + 1) =~= names.take(k as int).push(topic@));
            assert(names[k as int] == topic@);
            names.take(k as int).lemma_push_to_set_commute(topic@);
            assert(set1 =~= set0.insert(topic@));
            assert(!set0.contains(topic@)) by {
                if set0.contains(topic@) {
                    let x = choose|x: int| 0 <= x < names.take(k as int).len() && names.take(k as int)[x] == topic@;
                    assert(names[x] == names[k as int]);
                }
            }
        }
        if range {
            let copy = block.deep_copy();
            member.assignment.insert(topic.clone(), copy);
            proof {
                assert(strategy == AssignmentStrategy::Range);
                assert(member.assigned() =~= before.insert(topic@, block@));
                assert(member.assigned() =~= reassigned(a0, set1, n as nat, i as nat, strategy));
            }
        } else if block.len() > 0 {
            match member.assignment.remove(topic.as_str()) {
                Some(mut v) => {
                    let ghost had = v@;
                    append_partitions(&mut v, &block);
                    let ghost now_v = v@;
                    member.assignment.insert(topic.clone(), v);
                    proof {
                        assert(before.contains_key(topic@) && before[topic@] == had);
                        assert(member.assigned() =~= before.insert(topic@, had + block@));
                        assert(member.assigned() =~= reassigned(a0, set1, n as nat, i as nat, strategy));
                    }
                },
                None => {
                    let copy = block.deep_copy();
                    member.assignment.insert(topic.clone(), copy);
                    proof {
                        assert(member.assigned() =~= before.insert(topic@, block@));
                        assert(!before.contains_key(topic@));
                        assert(Seq::<i32>::empty() + block@ =~= block@);
                        assert(member.assigned() =~= reassigned(a0, set1, n as nat, i as nat, strategy));
                    }
                },
            }
        } else {
            proof {
                assert(member.assigned() =~= reassigned(a0, set1, n as nat, i as nat, strategy));
            }
        }
        k = k + 1;
    }
    assert(names.take(topics@.len() as int) =~= names);
}

impl ConsumerGroup {
    /// `self` and `other` differ at most in their members and events.
    pub closed spec fn same_but_members_events(&self, other: &ConsumerGroup) -> bool {
        &&& self.config == other.config
        &&& self.state == other.state
        &&& self.coordinator == other.coordinator
        &&& self.generation_id == other.generation_id
        &&& self.leader_id == other.leader_id
        &&& self.protocol_metadata == other.protocol_metadata
        &&& self.committed_offsets == other.committed_offsets
        &&& self.pending_offsets == other.pending_offsets
        &&& self.stats == other.stats
        &&& self.transaction_coordinator == other.transaction_coordinator
    }

    /// The members of the group, in name order, with their IDs.
    fn member_order(&self) -> (order: Vec<String>)
        requires
            self.wf(),
        ensures
            names_of(order@) == name_order(self.members().dom()),
            is_name_order(names_of(order@), self.members().dom()),
            names_of(order@).no_duplicates(),
            order@.len() == self.members().dom().len(),
            forall|i: int| 0 <= i < order@.len() ==> self.members().contains_key(#[trigger] names_of(order@)[i]),
    {
        let keys = self.members.keys();
        proof {
            self.members.lemma_seqs();
            self.members.lemma_len();
            let ks = self.members.keys_seq();
            assert(ks.no_duplicates());
            assert(ks.to_set() =~= self.members().dom()) by {
                assert forall|k: Seq<char>| ks.to_set().contains(k) implies self.members().dom().contains(k) by {
                    let i = choose|i: int| 0 <= i < ks.len() && ks[i] == k;
                    assert(self.members().contains_key(ks[i]));
                }
            }
        }
        let order = sort_names(&keys);
        proof {
            let o = names_of(order@);
            let set = self.members().dom();
            assert(is_name_order(o, set));
            crate::broker::name_order::lemma_name_order();
            assert(o.no_duplicates()) by {
                assert forall|a: int, b: int| 0 <= a < o.len() && 0 <= b < o.len() && a != b implies o[a] != o[b] by {
                    if a < b {
                        assert(crate::broker::name_order::name_before(o[a], o[b]));
                    } else {
                        assert(crate::broker::name_order::name_before(o[b], o[a]));
                    }
                }
            }
            o.unique_seq_to_set();
            assert forall|i: int| 0 <= i < order@.len() implies self.members().contains_key(#[trigger] o[i]) by {
                assert(o.to_set().contains(o[i]));
            }
        }
        order
    }

    /// Share the partitions of the subscribed topics out among the members
    /// by the configured strategy.
    fn perform_partition_assignment(&mut self) -> (r: Result<()>)
        requires
            old(self).wf(),
        ensures
            final(self).wf(),
            final(self).same_but_members_events(old(self)),
            old(self).members().dom() == Set::<Seq<char>>::empty() ==> {
                &&& r is Ok
                &&& final(self).members() == old(self).members()
                &&& final(self).events() == old(self).events()
            },
            old(self).members().dom() != Set::<Seq<char>>::empty()
                && old(self).spec_config().assignment_strategy == AssignmentStrategy::Custom ==> {
                &&& r matches Err(e) && is_storage_error(e, "Custom assignment strategy not implemented"@)
                &&& final(self).members() == old(self).members()
                &&& final(self).events() == old(self).events()
            },
            old(self).members().dom() != Set::<Seq<char>>::empty()
                && old(self).spec_config().assignment_strategy != AssignmentStrategy::Custom ==> {
                &&& r is Ok
                &&& rebalanced(old(self).members(), final(self).members(), old(self).spec_config().assignment_strategy)
                &&& final(self).events() == old(self).events() + assignment_events(
                    name_order(old(self).members().dom()),
                    final(self).members(),
                    subscribed_topics(old(self).members()),
                )
            },
    {
        let n = self.members.len();
        proof {
            self.members.lemma_len();
        }
        if n == 0 {
            assert(self.members().dom() =~= Set::<Seq<char>>::empty());
            return Ok(());
        }
        proof {
            self.members.lemma_seqs();
            assert(self.members().contains_key(self.members.keys_seq()[0]));
            assert(self.members().dom() != Set::<Seq<char>>::empty()) by {
                assert(self.members().dom().contains(self.members.keys_seq()[0]));
            }
        }
        let strategy = self.config.assignment_strategy;
        if let AssignmentStrategy::Custom = strategy {
            return Err(Error::CustomAssignmentNotImplemented());
        }
        let topics = self.subscribed_topic_list();
        let order = self.member_order();
        let ghost before = self.members();
        let ghost ord = names_of(order@);
        let ghost topic_set = subscribed_topics(before);
        let ghost old_events = self.events();
        let ghost untouched = *self;
        let has_topics = topics.len() > 0;
        proof {
            if has_topics {
                assert(names_of(topics@).to_set().contains(names_of(topics@)[0]));
                assert(topic_set != Set::<Seq<char>>::empty());
            } else {
                assert(names_of(topics@) =~= Seq::<Seq<char>>::empty());
                assert(topic_set =~= Set::<Seq<char>>::empty());
            }
        }
        let mut i: usize = 0;
        while i < order.len()
            invariant
                self.wf(),
                self.same_but_members_events(&untouched),
                untouched == *old(self),
                n == order@.len(),
                n > 0,
                i <= n,
                strategy == old(self).spec_config().assignment_strategy,
                strategy != AssignmentStrategy::Custom,
                ord == names_of(order@),
                ord == name_order(before.dom()),
                is_name_order(ord, before.dom()),
                ord.no_duplicates(),
                before == old(self).members(),
                forall|j: int| 0 <= j < ord.len() ==> before.contains_key(#[trigger] ord[j]),
                names_of(topics@).no_duplicates(),
                names_of(topics@).to_set() == topic_set,
                topic_set == subscribed_topics(before),
                has_topics == (topic_set != Set::<Seq<char>>::empty()),
                old_events == old(self).events(),
                self.members().dom() == before.dom(),
                forall|j: int| 0 <= j < i ==> member_reassigned(
                    before[#[trigger] ord[j]],
                    self.members()[ord[j]],
                    topic_set,
                    n as nat,
                    j as nat,
                    strategy,
                ),
                forall|j: int| i <= j < n ==> self.members()[#[trigger] ord[j]] == before[ord[j]],
                self.events() == old_events + if has_topics {
                    ord.take(i as int).map_values(|id: Seq<char>| (4u8, id, self.members()[id].assigned()))
                } else {
                    Seq::empty()
                },
            decreases n - i,
        {
            let id = &order[i];
            proof {
                assert(ord[i as int] == id@);
                assert(before.contains_key(id@));
            }
            let ghost members_before = self.members();
            let ghost events_before = self.events@;
            match self.members.remove(id.as_str()) {
                Some(mut m) => {
                    proof {
                        assert(m == before[id@]);
                    }
                    reassign_member(&mut m, &topics, n, i, strategy);
                    let ghost mm = m;
                    if has_topics {
                        let copy = copy_assignment(&m.assignment);
                        let ev = RebalanceEvent::AssignmentChanged(id.clone(), copy);
                        let ghost evv = event_view(ev);
                        assert(evv == (4u8, id@, mm.assigned()));
                        self.events.push(ev);
                        assert(self.events() =~= events_before.map_values(|e: RebalanceEvent| event_view(e)).push(evv));
                    }
                    self.members.insert(id.clone(), m);
                    proof {
                        assert(self.members() == members_before.remove(id@).insert(id@, mm));
                        assert(self.members().dom() =~= before.dom());
                        assert forall|j: int| 0 <= j < i + 1 implies member_reassigned(
                            before[#[trigger] ord[j]],
                            self.members()[ord[j]],
                            topic_set,
                            n as nat,
                            j as nat,
                            strategy,
                        ) by {
                            if j < i {
                                assert(ord[j] != ord[i as int]);
                            }
                        }
                        assert forall|j: int| i + 1 <= j < n implies self.members()[#[trigger] ord[j]] == before[ord[j]] by {
                            assert(ord[j] != ord[i as int]);
                        }
                        let f_old = |x: Seq<char>| (4u8, x, members_before[x].assigned());
                        let f_new = |x: Seq<char>| (4u8, x, self.members()[x].assigned());
                        if has_topics {
                            assert(ord.take(i + 1).map_values(f_new) =~= ord.take(i as int).map_values(f_old).push(
                                (4u8, id@, mm.assigned()),
                            )) by {
                                assert forall|j: int| 0 <= j < i implies ord.take(i + 1).map_values(f_new)[j]
                                    == ord.take(i as int).map_values(f_old)[j] by {
                                    assert(ord[j] != ord[i as int]);
                                }
                            }
                            assert(events_before.map_values(|e: RebalanceEvent| event_view(e)) == old_events + ord.take(i as int).map_values(f_old));
                            assert(self.events() =~= old_events + ord.take(i + 1).map_values(f_new));
                        } else {
                            assert(self.events() =~= old_events + Seq::empty());
                        }
                    }
                },
                None => {
                    proof {
                        assert(false);
                    }
                },
            }
            i = i + 1;
        }
        proof {
            assert(ord.take(n as int) =~= ord);
            let after = self.members();
            if has_topics {
                assert(ord.map_values(|x: Seq<char>| (4u8, x, after[x].assigned())) =~= assignment_events(ord, after, topic_set));
            }
        }
        Ok(())
    }
}

/// Member `m` has partition `p` of topic `t`.
pub open spec fn owns(m: ConsumerGroupMember, t: Seq<char>, p: nat) -> bool {
    m.assigned().contains_key(t) && m.assigned()[t].contains(p as i32)
}

/// After a rebalance by range assignment, each partition of each
/// subscribed topic belongs to exactly one member.
pub proof fn lemma_range_rebalance_unique_owner(
    before: Map<Seq<char>, ConsumerGroupMember>,
    after: Map<Seq<char>, ConsumerGroupMember>,
    t: Seq<char>,
    p: nat,
)
    requires
        rebalanced(before, after, AssignmentStrategy::Range),
        subscribed_topics(before).contains(t),
        p < TOPIC_PARTITIONS,
    ensures
        exists|id: Seq<char>| after.contains_key(id) && #[trigger] owns(after[id], t, p),
        forall|a: Seq<char>, b: Seq<char>|
            after.contains_key(a) && after.contains_key(b) && #[trigger] owns(after[a], t, p) && #[trigger] owns(
                after[b],
                t,
                p,
            ) ==> a == b,
{
    let order = name_order(before.dom());
    let n = order.len();
    let count = TOPIC_PARTITIONS as nat;
    let topics = subscribed_topics(before);
    let id0 = choose|id: Seq<char>| #[trigger] before.contains_key(id) && names_of(before[id].subscription@).contains(t);
    assert(order.to_set().contains(id0));
    assert(n > 0);
    crate::broker::name_order::lemma_name_order();
    assert forall|i: int| 0 <= i < n implies after.contains_key(#[trigger] order[i])
        && after[order[i]].assigned()[t] == range_block(count, n, i as nat) && after[order[i]].assigned().contains_key(t) by {
        assert(order.to_set().contains(order[i]));
        assert(member_reassigned(before[order[i]], after[order[i]], topics, n, i as nat, AssignmentStrategy::Range));
    }
    lemma_range_unique_owner(count, n, p);
    let i = choose|i: nat| i < n && #[trigger] range_block(count, n, i).contains(p as i32);
    assert(owns(after[order[i as int]], t, p));
    assert forall|a: Seq<char>, b: Seq<char>|
        after.contains_key(a) && after.contains_key(b) && #[trigger] owns(after[a], t, p) && #[trigger] owns(
            after[b],
            t,
            p,
        ) implies a == b by {
        assert(order.to_set().contains(a));
        assert(order.to_set().contains(b));
        let ia = choose|k: int| 0 <= k < n && order[k] == a;
        let ib = choose|k: int| 0 <= k < n && order[k] == b;
        assert(range_block(count, n, ia as nat).contains(p as i32));
        assert(range_block(count, n, ib as nat).contains(p as i32));
    }
}

/// The view of the event that a rebalance started.
pub open spec fn started_event() -> (u8, Seq<char>, Map<Seq<char>, Seq<i32>>) {
    (2u8, Seq::empty(), Map::empty())
}

/// The view of the event that a rebalance completed.
pub open spec fn completed_event() -> (u8, Seq<char>, Map<Seq<char>, Seq<i32>>) {
    (3u8, Seq::empty(), Map::empty())
}

/// The events of a rebalance of `before` into `after` that went through:
/// it started, each member's new assignment, and it completed.
pub open spec fn rebalance_events(
    before: Map<Seq<char>, ConsumerGroupMember>,
    after: Map<Seq<char>, ConsumerGroupMember>,
) -> Seq<(u8, Seq<char>, Map<Seq<char>, Seq<i32>>)> {
    seq![started_event()] + assignment_events(name_order(before.dom()), after, subscribed_topics(before))
        + seq![completed_event()]
}

/// The statistics `s` after a rebalance at `now` that took `took`.
pub open spec fn after_rebalance(s: ConsumerGroupStats, now: Timestamp, took: Duration) -> ConsumerGroupStats {
    ConsumerGroupStats {
        total_rebalances: (s.total_rebalances + 1) as u64,
        last_rebalance_time: Some(now),
        avg_rebalance_duration: took,
        ..s
    }
}

/// A group without members rebalances into itself, with no assignment
/// events.
pub proof fn lemma_no_members_rebalanced(m: Map<Seq<char>, ConsumerGroupMember>, strategy: AssignmentStrategy)
    requires
        m.dom() == Set::<Seq<char>>::empty(),
    ensures
        rebalanced(m, m, strategy),
        assignment_events(name_order(m.dom()), m, subscribed_topics(m)) == Seq::<(u8, Seq<char>, Map<Seq<char>, Seq<i32>>)>::empty(),
{
    let e = Seq::<Seq<char>>::empty();
    assert(is_name_order(e, m.dom())) by {
        assert(e.to_set() =~= m.dom());
    }
    let o = name_order(m.dom());
    assert(is_name_order(o, m.dom()));
    crate::broker::name_order::lemma_name_order_unique(o, e);
    assert(o.map_values(|id: Seq<char>| (4u8, id, m[id].assigned())) =~= Seq::<(u8, Seq<char>, Map<Seq<char>, Seq<i32>>)>::empty());
}

impl ConsumerGroup {
    /// `self` and `other` have the same configuration, offsets and
    /// transactions.
    pub closed spec fn same_config_offsets(&self, other: &ConsumerGroup) -> bool {
        &&& self.config == other.config
        &&& self.committed_offsets == other.committed_offsets
        &&& self.pending_offsets == other.pending_offsets
        &&& self.transaction_coordinator == other.transaction_coordinator
    }

    /// Rebalance at `now`: prepare, share out the partitions, and count a
    /// new generation; a failed assignment leaves the group preparing.
    fn trigger_rebalance_at(&mut self, now: Timestamp) -> (r: Result<()>)
        requires
            old(self).wf(),
            old(self).generation() < u32::MAX,
            old(self).spec_stats().total_rebalances < u64::MAX,
        ensures
            final(self).wf(),
            final(self).same_config_offsets(old(self)),
            r is Ok <==> (old(self).members().dom() == Set::<Seq<char>>::empty()
                || old(self).spec_config().assignment_strategy != AssignmentStrategy::Custom),
            r is Ok ==> {
                &&& rebalanced(old(self).members(), final(self).members(), old(self).spec_config().assignment_strategy)
                &&& final(self).events() == old(self).events() + rebalance_events(old(self).members(), final(self).members())
                &&& final(self).group_state() == ConsumerGroupState::Stable
                &&& final(self).generation() == old(self).generation() + 1
                &&& final(self).spec_stats() == after_rebalance(
                    old(self).spec_stats(),
                    now,
                    final(self).spec_stats().avg_rebalance_duration,
                )
            },
            r matches Err(e) ==> {
                &&& is_storage_error(e, "Custom assignment strategy not implemented"@)
                &&& final(self).members() == old(self).members()
                &&& final(self).events() == old(self).events().push(started_event())
                &&& final(self).group_state() == ConsumerGroupState::PreparingRebalance
                &&& final(self).generation() == old(self).generation()
                &&& final(self).spec_stats() == old(self).spec_stats()
            },
    {
        let start = instant_now();
        self.state = ConsumerGroupState::PreparingRebalance;
        let ghost e0 = self.events();
        self.events.push(RebalanceEvent::RebalanceStarted);
        assert(self.events() =~= e0.push(started_event()));
        let ghost mid = *self;
        let ghost members0 = self.members();
        let outcome = self.perform_partition_assignment();
        match outcome {
            Err(e) => {
                return Err(e);
            },
            Ok(()) => {},
        }
        proof {
            if members0.dom() == Set::<Seq<char>>::empty() {
                lemma_no_members_rebalanced(members0, self.config.assignment_strategy);
            }
        }
        self.generation_id = self.generation_id + 1;
        self.state = ConsumerGroupState::Stable;
        self.stats.total_rebalances = self.stats.total_rebalances + 1;
        self.stats.last_rebalance_time = Some(now);
        self.stats.avg_rebalance_duration = elapsed_since(&start);
        let ghost e1 = self.events();
        self.events.push(RebalanceEvent::RebalanceCompleted);
        proof {
            assert(self.events() =~= e1.push(completed_event()));
            assert(self.events() =~= old(self).events() + rebalance_events(members0, self.members()));
        }
        Ok(())
    }
}

/// The statistics `s` with one more member joined and active.
pub open spec fn with_joined(s: ConsumerGroupStats) -> ConsumerGroupStats {
    ConsumerGroupStats {
        total_members: (s.total_members + 1) as usize,
        active_members: (s.active_members + 1) as usize,
        ..s
    }
}

/// The statistics `s` with one member fewer active (staying at zero).
pub open spec fn with_left(s: ConsumerGroupStats) -> ConsumerGroupStats {
    ConsumerGroupStats {
        active_members: if s.active_members == 0 { 0 } else { (s.active_members - 1) as usize },
        ..s
    }
}

/// `after` is `before` after a membership change to `members` and a
/// rebalance at `now`, with statistics `stats` before the rebalance and the
/// event `last` once it went through.
pub open spec fn membership_changed(
    before: ConsumerGroup,
    after: ConsumerGroup,
    members: Map<Seq<char>, ConsumerGroupMember>,
    stats: ConsumerGroupStats,
    last: (u8, Seq<char>, Map<Seq<char>, Seq<i32>>),
    now: Timestamp,
    r: Result<()>,
) -> bool {
    &&& after.wf()
    &&& after.same_config_offsets(&before)
    &&& (r is Ok <==> (members.dom() == Set::<Seq<char>>::empty()
        || before.spec_config().assignment_strategy != AssignmentStrategy::Custom))
    &&& (r is Ok ==> {
        &&& rebalanced(members, after.members(), before.spec_config().assignment_strategy)
        &&& after.events() == before.events() + rebalance_events(members, after.members()) + seq![last]
        &&& after.group_state() == ConsumerGroupState::Stable
        &&& after.generation() == before.generation() + 1
        &&& after.spec_stats() == after_rebalance(stats, now, after.spec_stats().avg_rebalance_duration)
    })
    &&& (r matches Err(e) ==> {
        &&& is_storage_error(e, "Custom assignment strategy not implemented"@)
        &&& after.members() == members
        &&& after.events() == before.events().push(started_event())
        &&& after.group_state() == ConsumerGroupState::PreparingRebalance
        &&& after.generation() == before.generation()
        &&& after.spec_stats() == stats
    })
}

impl ConsumerGroup {
    /// Add `member` at `now` (replacing any member of its ID), count it as
    /// joined and active, and rebalance; once the rebalance went through,
    /// announce that the member joined.
    pub fn add_member_at(&mut self, member: ConsumerGroupMember, now: Timestamp) -> (r: Result<()>)
        requires
            old(self).wf(),
            member.wf(),
            old(self).spec_stats().total_members < usize::MAX,
            old(self).generation() < u32::MAX,
            old(self).spec_stats().total_rebalances < u64::MAX,
        ensures
            membership_changed(
                *old(self),
                *final(self),
                old(self).members().insert(member.member_id@, member),
                with_joined(old(self).spec_stats()),
                (0u8, member.member_id@, Map::empty()),
                now,
                r,
            ),
    {
        let member_id = member.member_id.clone();
        let ghost joined = self.members().insert(member.member_id@, member);
        self.members.insert(member_id.clone(), member);
        self.stats.total_members = self.stats.total_members + 1;
        self.stats.active_members = self.stats.active_members + 1;
        let ghost mid = *self;
        assert(self.members() == joined);
        match self.trigger_rebalance_at(now) {
            Err(e) => {
                return Err(e);
            },
            Ok(()) => {},
        }
        let ghost e1 = self.events();
        let ev = RebalanceEvent::MemberJoined(member_id);
        assert(event_view(ev) == (0u8, member.member_id@, Map::<Seq<char>, Seq<i32>>::empty()));
        self.events.push(ev);
        assert(self.events() =~= e1.push(event_view(ev)));
        assert(self.events() =~= mid.events() + rebalance_events(joined, self.members()) + seq![event_view(ev)]);
        Ok(())
    }

    /// Add `member` now (see `add_member_at`).
    pub fn add_member(&mut self, member: ConsumerGroupMember) -> (r: Result<()>)
        requires
            old(self).wf(),
            member.wf(),
            old(self).spec_stats().total_members < usize::MAX,
            old(self).generation() < u32::MAX,
            old(self).spec_stats().total_rebalances < u64::MAX,
        ensures
            exists|now: Timestamp| membership_changed(
                *old(self),
                *final(self),
                old(self).members().insert(member.member_id@, member),
                with_joined(old(self).spec_stats()),
                (0u8, member.member_id@, Map::empty()),
                now,
                r,
            ),
    {
        let now = Timestamp::now();
        self.add_member_at(member, now)
    }

    /// Remove member `member_id` at `now` if there is one, count one member
    /// fewer active, and rebalance; once the rebalance went through,
    /// announce that the member left.
    pub fn remove_member_at(&mut self, member_id: &str, now: Timestamp) -> (r: Result<()>)
        requires
            old(self).wf(),
            old(self).generation() < u32::MAX,
            old(self).spec_stats().total_rebalances < u64::MAX,
        ensures
            membership_changed(
                *old(self),
                *final(self),
                old(self).members().remove(member_id@),
                with_left(old(self).spec_stats()),
                (1u8, member_id@, Map::empty()),
                now,
                r,
            ),
    {
        let ghost left = self.members().remove(member_id@);
        let _ = self.members.remove(member_id);
        self.stats.active_members = self.stats.active_members.saturating_sub(1);
        let ghost mid = *self;
        assert(self.members() == left);
        match self.trigger_rebalance_at(now) {
            Err(e) => {
                return Err(e);
            },
            Ok(()) => {},
        }
        let ghost e1 = self.events();
        let ev = RebalanceEvent::MemberLeft(member_id.to_string());
        assert(event_view(ev) == (1u8, member_id@, Map::<Seq<char>, Seq<i32>>::empty()));
        self.events.push(ev);
        assert(self.events() =~= e1.push(event_view(ev)));
        assert(self.events() =~= mid.events() + rebalance_events(left, self.members()) + seq![event_view(ev)]);
        Ok(())
    }

    /// Remove member `member_id` now (see `remove_member_at`).
    pub fn remove_member(&mut self, member_id: &str) -> (r: Result<()>)
        requires
            old(self).wf(),
            old(self).generation() < u32::MAX,
            old(self).spec_stats().total_rebalances < u64::MAX,
        ensures
            exists|now: Timestamp| membership_changed(
                *old(self),
                *final(self),
                old(self).members().remove(member_id@),
                with_left(old(self).spec_stats()),
                (1u8, member_id@, Map::empty()),
                now,
                r,
            ),
    {
        let now = Timestamp::now();
        self.remove_member_at(member_id, now)
    }
}

/// `after` is the member `before` with `offset` recorded for `partition` of
/// `topic` among the committed offsets of its transaction.
pub open spec fn offset_in_transaction(
    before: ConsumerGroupMember,
    after: ConsumerGroupMember,
    topic: Seq<char>,
    partition: i32,
    offset: Offset,
) -> bool {
    &&& before.transaction_state matches Some(t)
    &&& after.transaction_state matches Some(t2)
    &&& after == (ConsumerGroupMember { transaction_state: after.transaction_state, ..before })
    &&& t2 == (TransactionState { committed_offsets: t2.committed_offsets, ..t })
    &&& t2.wf()
    &&& offsets_of(t2.committed_offsets) == with_offset(offsets_of(t.committed_offsets), topic, partition, offset)
}

/// Member `id` of `members` is in transaction `transaction_id`.
pub open spec fn in_transaction(
    members: Map<Seq<char>, ConsumerGroupMember>,
    id: Seq<char>,
    transaction_id: Seq<char>,
) -> bool {
    &&& members.contains_key(id)
    &&& members[id].transaction_state matches Some(t)
    &&& t.transaction_id@ == transaction_id
}

impl ConsumerGroup {
    /// `self` and `other` differ at most in their members.
    pub closed spec fn same_but_members(&self, other: &ConsumerGroup) -> bool {
        &&& self.same_but_members_events(other)
        &&& self.events == other.events
    }

    /// `self` and `other` differ at most in their members, committed offsets
    /// and transactions.
    pub closed spec fn same_but_members_offsets(&self, other: &ConsumerGroup) -> bool {
        &&& self.config == other.config
        &&& self.state == other.state
        &&& self.coordinator == other.coordinator
        &&& self.generation_id == other.generation_id
        &&& self.leader_id == other.leader_id
        &&& self.protocol_metadata == other.protocol_metadata
        &&& self.pending_offsets == other.pending_offsets
        &&& self.stats == other.stats
        &&& self.events == other.events
    }

    /// Record that member `member_id` was heard from at `now`.
    pub fn update_member_heartbeat_at(&mut self, member_id: &str, now: Timestamp) -> (r: Result<()>)
        requires
            old(self).wf(),
        ensures
            final(self).wf(),
            final(self).same_but_members(old(self)),
            r is Ok <==> old(self).members().contains_key(member_id@),
            r is Ok ==> final(self).members() == old(self).members().insert(
                member_id@,
                ConsumerGroupMember { last_heartbeat: now, ..old(self).members()[member_id@] },
            ),
            r matches Err(e) ==> is_storage_error(e, "Member not found: "@ + member_id@)
                && final(self).members() == old(self).members(),
    {
        match self.members.remove(member_id) {
            Some(m) => {
                let m = ConsumerGroupMember { last_heartbeat: now, ..m };
                self.members.insert(member_id.to_string(), m);
                assert(self.members() =~= old(self).members().insert(
                    member_id@,
                    ConsumerGroupMember { last_heartbeat: now, ..old(self).members()[member_id@] },
                ));
                Ok(())
            },
            None => {
                assert(self.members() =~= old(self).members());
                Err(Error::MemberNotFound(member_id.to_string()))
            },
        }
    }

    /// Record that member `member_id` was heard from now (see
    /// `update_member_heartbeat_at`).
    pub fn update_member_heartbeat(&mut self, member_id: &str) -> (r: Result<()>)
        requires
            old(self).wf(),
        ensures
            final(self).wf(),
            final(self).same_but_members(old(self)),
            r is Ok <==> old(self).members().contains_key(member_id@),
            r is Ok ==> {
                &&& final(self).members().dom() == old(self).members().dom()
                &&& final(self).members().remove(member_id@) == old(self).members().remove(member_id@)
                &&& final(self).members()[member_id@] == (ConsumerGroupMember {
                    last_heartbeat: final(self).members()[member_id@].last_heartbeat,
                    ..old(self).members()[member_id@]
                })
            },
            r matches Err(e) ==> is_storage_error(e, "Member not found: "@ + member_id@)
                && final(self).members() == old(self).members(),
    {
        let r = self.update_member_heartbeat_at(member_id, Timestamp::now());
        proof {
            if r is Ok {
                assert(self.members().dom() =~= old(self).members().dom());
                assert(self.members().remove(member_id@) =~= old(self).members().remove(member_id@));
            }
        }
        r
    }

    /// The partitions assigned to member `member_id`, by topic.
    pub fn get_member_assignments(&self, member_id: &str) -> (r: Result<NameMap<Vec<i32>>>)
        requires
            self.wf(),
        ensures
            r is Ok <==> self.members().contains_key(member_id@),
            r matches Ok(a) ==> a.wf() && assignment_view(a) == self.members()[member_id@].assigned(),
            r matches Err(e) ==> is_storage_error(e, "Member not found: "@ + member_id@),
    {
        match self.members.get(member_id) {
            Some(m) => Ok(copy_assignment(&m.assignment)),
            None => Err(Error::MemberNotFound(member_id.to_string())),
        }
    }

    /// Commit `offset` for `partition` of `topic`; where member `member_id`
    /// is in a transaction, record it among the transaction's committed
    /// offsets too.
    pub fn commit_offsets(&mut self, member_id: &str, topic: &str, partition: i32, offset: Offset) -> (r: Result<()>)
        requires
            old(self).wf(),
        ensures
            r is Ok,
            final(self).wf(),
            final(self).same_but_members_offsets(old(self)),
            final(self).transactions() == old(self).transactions(),
            final(self).committed() == with_offset(old(self).committed(), topic@, partition, offset),
            old(self).members().contains_key(member_id@) && old(self).members()[member_id@].transaction_state is Some ==> {
                &&& final(self).members().dom() == old(self).members().dom()
                &&& final(self).members().remove(member_id@) == old(self).members().remove(member_id@)
                &&& offset_in_transaction(
                    old(self).members()[member_id@],
                    final(self).members()[member_id@],
                    topic@,
                    partition,
                    offset,
                )
            },
            !(old(self).members().contains_key(member_id@) && old(self).members()[member_id@].transaction_state is Some)
                ==> final(self).members() == old(self).members(),
    {
        record_offset(&mut self.committed_offsets, topic, partition, offset);
        match self.members.remove(member_id) {
            Some(m) => {
                let ghost before = m;
                match m.transaction_state {
                    Some(t) => {
                        let ghost t0 = t;
                        let mut t = t;
                        record_offset(&mut t.committed_offsets, topic, partition, offset);
                        assert(t == (TransactionState { committed_offsets: t.committed_offsets, ..t0 }));
                        let m2 = ConsumerGroupMember { transaction_state: Some(t), ..m };
                        let ghost after = m2;
                        self.members.insert(member_id.to_string(), m2);
                        assert(self.members().remove(member_id@) =~= old(self).members().remove(member_id@));
                        assert(self.members().dom() =~= old(self).members().dom());
                        assert(offset_in_transaction(before, after, topic@, partition, offset));
                    },
                    None => {
                        let m2 = ConsumerGroupMember { transaction_state: None, ..m };
                        self.members.insert(member_id.to_string(), m2);
                        assert(self.members() =~= old(self).members());
                    },
                }
            },
            None => {
                assert(self.members() =~= old(self).members());
            },
        }
        Ok(())
    }

    /// Start transaction `transaction_id` for member `member_id` at `now`:
    /// the member's transaction becomes a fresh one under the group's ID
    /// with the configured timeout, and the coordinator starts it too.
    pub fn start_transaction_at(&mut self, member_id: &str, transaction_id: String, now: Timestamp) -> (r: Result<()>)
        requires
            old(self).wf(),
        ensures
            final(self).wf(),
            r is Ok <==> old(self).members().contains_key(member_id@),
            r matches Err(e) ==> {
                &&& is_storage_error(e, "Member not found: "@ + member_id@)
                &&& final(self).same_but_members(old(self))
                &&& final(self).members() == old(self).members()
                &&& final(self).transactions() == old(self).transactions()
            },
            r is Ok ==> {
                &&& final(self).same_but_members_offsets(old(self))
                &&& final(self).committed() == old(self).committed()
                &&& final(self).members().dom() == old(self).members().dom()
                &&& final(self).members().remove(member_id@) == old(self).members().remove(member_id@)
                &&& final(self).members()[member_id@] == (ConsumerGroupMember {
                    transaction_state: final(self).members()[member_id@].transaction_state,
                    ..old(self).members()[member_id@]
                })
                &&& final(self).members()[member_id@].transaction_state matches Some(t)
                    && fresh_transaction(
                    t,
                    transaction_id@,
                    old(self).spec_config().group_id@,
                    old(self).spec_config().transaction_timeout,
                    now,
                )
                &&& final(self).transactions().dom() == old(self).transactions().dom().insert(transaction_id@)
                &&& forall|id: Seq<char>| id != transaction_id@ && #[trigger] old(self).transactions().contains_key(id)
                    ==> final(self).transactions()[id] == old(self).transactions()[id]
                &&& fresh_transaction(
                    final(self).transactions()[transaction_id@],
                    transaction_id@,
                    "coordinator"@,
                    final(self).transactions()[transaction_id@].timeout,
                    now,
                )
            },
    {
        match self.members.remove(member_id) {
            Some(m) => {
                let t = new_transaction(
                    transaction_id.clone(),
                    self.config.group_id.clone(),
                    self.config.transaction_timeout,
                    now,
                );
                let m2 = ConsumerGroupMember { transaction_state: Some(t), ..m };
                self.members.insert(member_id.to_string(), m2);
                assert(self.members().remove(member_id@) =~= old(self).members().remove(member_id@));
                assert(self.members().dom() =~= old(self).members().dom());
                let started = self.transaction_coordinator.start_transaction_at(transaction_id, now);
                started
            },
            None => {
                assert(self.members() =~= old(self).members());
                Err(Error::MemberNotFound(member_id.to_string()))
            },
        }
    }

    /// Start transaction `transaction_id` for member `member_id` now (see
    /// `start_transaction_at`).
    pub fn start_transaction(&mut self, member_id: &str, transaction_id: String) -> (r: Result<()>)
        requires
            old(self).wf(),
        ensures
            final(self).wf(),
            r is Ok <==> old(self).members().contains_key(member_id@),
            r matches Err(e) ==> {
                &&& is_storage_error(e, "Member not found: "@ + member_id@)
                &&& final(self).same_but_members(old(self))
                &&& final(self).members() == old(self).members()
                &&& final(self).transactions() == old(self).transactions()
            },
            r is Ok ==> {
                &&& final(self).same_but_members_offsets(old(self))
                &&& final(self).committed() == old(self).committed()
                &&& final(self).members().dom() == old(self).members().dom()
                &&& final(self).members().remove(member_id@) == old(self).members().remove(member_id@)
                &&& final(self).members()[member_id@] == (ConsumerGroupMember {
                    transaction_state: final(self).members()[member_id@].transaction_state,
                    ..old(self).members()[member_id@]
                })
                &&& final(self).members()[member_id@].transaction_state matches Some(t)
                    && fresh_transaction(
                    t,
                    transaction_id@,
                    old(self).spec_config().group_id@,
                    old(self).spec_config().transaction_timeout,
                    t.start_time,
                )
                &&& final(self).transactions().dom() == old(self).transactions().dom().insert(transaction_id@)
            },
    {
        self.start_transaction_at(member_id, transaction_id, Timestamp::now())
    }

    /// Commit transaction `transaction_id` of member `member_id`: where the
    /// member is in that transaction, its pending offsets are committed and
    /// the member leaves the transaction; the coordinator marks the
    /// transaction committed.
    pub fn commit_transaction(&mut self, member_id: &str, transaction_id: &str) -> (r: Result<()>)
        requires
            old(self).wf(),
        ensures
            r is Ok,
            final(self).wf(),
            final(self).same_but_members_offsets(old(self)),
            final(self).transactions() == set_state(
                old(self).transactions(),
                transaction_id@,
                TransactionStateType::Committed,
            ),
            in_transaction(old(self).members(), member_id@, transaction_id@) ==> {
                &&& final(self).members() == old(self).members().insert(
                    member_id@,
                    ConsumerGroupMember { transaction_state: None, ..old(self).members()[member_id@] },
                )
                &&& final(self).committed() == with_offsets(
                    old(self).committed(),
                    offsets_of(old(self).members()[member_id@].transaction_state.unwrap().pending_offsets),
                )
            },
            !in_transaction(old(self).members(), member_id@, transaction_id@) ==> {
                &&& final(self).members() == old(self).members()
                &&& final(self).committed() == old(self).committed()
            },
    {
        self.leave_transaction(member_id, transaction_id, true);
        self.transaction_coordinator.commit_transaction(transaction_id)
    }

    /// Abort transaction `transaction_id` of member `member_id`: where the
    /// member is in that transaction, it leaves it and its pending offsets
    /// are dropped; the coordinator marks the transaction aborted.
    pub fn abort_transaction(&mut self, member_id: &str, transaction_id: &str) -> (r: Result<()>)
        requires
            old(self).wf(),
        ensures
            r is Ok,
            final(self).wf(),
            final(self).same_but_members_offsets(old(self)),
            final(self).committed() == old(self).committed(),
            final(self).transactions() == set_state(
                old(self).transactions(),
                transaction_id@,
                TransactionStateType::Aborted,
            ),
            in_transaction(old(self).members(), member_id@, transaction_id@) ==> final(self).members()
                == old(self).members().insert(
                member_id@,
                ConsumerGroupMember { transaction_state: None, ..old(self).members()[member_id@] },
            ),
            !in_transaction(old(self).members(), member_id@, transaction_id@) ==> final(self).members()
                == old(self).members(),
    {
        self.leave_transaction(member_id, transaction_id, false);
        self.transaction_coordinator.abort_transaction(transaction_id)
    }

    /// Where member `member_id` is in transaction `transaction_id`, end its
    /// part in it, committing its pending offsets if `commit`.
    fn leave_transaction(&mut self, member_id: &str, transaction_id: &str, commit: bool)
        requires
            old(self).wf(),
        ensures
            final(self).wf(),
            final(self).same_but_members_offsets(old(self)),
            final(self).transaction_coordinator == old(self).transaction_coordinator,
            in_transaction(old(self).members(), member_id@, transaction_id@) ==> {
                &&& final(self).members() == old(self).members().insert(
                    member_id@,
                    ConsumerGroupMember { transaction_state: None, ..old(self).members()[member_id@] },
                )
                &&& final(self).committed() == if commit {
                    with_offsets(
                        old(self).committed(),
                        offsets_of(old(self).members()[member_id@].transaction_state.unwrap().pending_offsets),
                    )
                } else {
                    old(self).committed()
                }
            },
            !in_transaction(old(self).members(), member_id@, transaction_id@) ==> {
                &&& final(self).members() == old(self).members()
                &&& final(self).committed() == old(self).committed()
            },
    {
        match self.members.remove(member_id) {
            Some(m) => {
                let ghost before = m;
                match m.transaction_state {
                    Some(t) => {
                        if t.transaction_id == transaction_id.to_string() {
                            if commit {
                                record_offsets(&mut self.committed_offsets, &t.pending_offsets);
                            }
                            let m2 = ConsumerGroupMember { transaction_state: None, ..m };
                            self.members.insert(member_id.to_string(), m2);
                        } else {
                            let m2 = ConsumerGroupMember { transaction_state: Some(t), ..m };
                            self.members.insert(member_id.to_string(), m2);
                            assert(self.members() =~= old(self).members());
                        }
                    },
                    None => {
                        let m2 = ConsumerGroupMember { transaction_state: None, ..m };
                        self.members.insert(member_id.to_string(), m2);
                        assert(self.members() =~= old(self).members());
                    },
                }
            },
            None => {
                assert(self.members() =~= old(self).members());
            },
        }
    }

    /// The statistics, with the current number of members as both the total
    /// and the active count.
    pub fn get_stats(&self) -> (s: ConsumerGroupStats)
        requires
            self.wf(),
        ensures
            s.total_members == self.members().dom().len(),
            s.active_members == self.members().dom().len(),
            s.total_rebalances == self.spec_stats().total_rebalances,
            s.last_rebalance_time == self.spec_stats().last_rebalance_time,
            s.avg_rebalance_duration == self.spec_stats().avg_rebalance_duration,
            s.total_messages_consumed == self.spec_stats().total_messages_consumed,
            s.total_bytes_consumed == self.spec_stats().total_bytes_consumed,
            s.partition_lag.wf(),
            s.partition_lag.map() == Map::<Seq<char>, IdMap<u64>>::empty(),
    {
        proof {
            self.members.lemma_len();
        }
        let n = self.members.len();
        ConsumerGroupStats {
            total_members: n,
            active_members: n,
            total_rebalances: self.stats.total_rebalances,
            last_rebalance_time: self.stats.last_rebalance_time,
            avg_rebalance_duration: self.stats.avg_rebalance_duration.clone(),
            total_messages_consumed: self.stats.total_messages_consumed,
            total_bytes_consumed: self.stats.total_bytes_consumed,
            partition_lag: NameMap::new(),
        }
    }

    /// Take the rebalance events that happened since they were last taken,
    /// in order.
    pub fn drain_rebalance_events(&mut self) -> (r: Vec<RebalanceEvent>)
        requires
            old(self).wf(),
        ensures
            final(self).wf(),
            r@.map_values(|e: RebalanceEvent| event_view(e)) == old(self).events(),
            final(self).events() == Seq::<(u8, Seq<char>, Map<Seq<char>, Seq<i32>>)>::empty(),
            final(self).members() == old(self).members(),
            final(self).same_but_members_events(old(self)),
    {
        let mut r: Vec<RebalanceEvent> = Vec::new();
        std::mem::swap(&mut r, &mut self.events);
        assert(self.events() =~= Seq::<(u8, Seq<char>, Map<Seq<char>, Seq<i32>>)>::empty());
        r
    }

    /// The group's state.
    pub fn state(&self) -> (s: ConsumerGroupState)
        ensures
            s == self.group_state(),
    {
        self.state
    }

    /// The generation: the number of rebalances completed.
    pub fn generation_id(&self) -> (g: u32)
        ensures
            g == self.generation(),
    {
        self.generation_id
    }

    /// The number of rebalances counted.
    pub fn total_rebalances(&self) -> (n: u64)
        ensures
            n == self.spec_stats().total_rebalances,
    {
        self.stats.total_rebalances
    }

    /// The number of members counted as joined.
    pub fn total_members(&self) -> (n: usize)
        ensures
            n == self.spec_stats().total_members,
    {
        self.stats.total_members
    }

    /// The offset committed for `partition` of `topic`, if any.
    pub fn committed_offset(&self, topic: &str, partition: i32) -> (r: Option<Offset>)
        requires
            self.wf(),
        ensures
            r == (if self.committed().contains_key(topic@) && self.committed()[topic@].contains_key(partition) {
                Some(self.committed()[topic@][partition])
            } else {
                None
            }),
    {
        match self.committed_offsets.get(topic) {
            Some(p) => match p.get(partition) {
                Some(o) => Some(*o),
                None => None,
            },
            None => None,
        }
    }
}

} // verus!
