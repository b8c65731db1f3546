use std::time::Duration;

use messaging_kernel::broker::consumer_groups::{
    AssignmentStrategy, ConsumerGroup, ConsumerGroupConfig, ConsumerGroupMember, ConsumerGroupState,
    MemberState, RebalanceEvent, TransactionCoordinator, TransactionState, TransactionStateType,
    range_partitions, round_robin_partitions,
};
use messaging_kernel::broker::error::Error;
use messaging_kernel::broker::ids::IdMap;
use messaging_kernel::broker::message::Offset;
use messaging_kernel::broker::names::NameMap;
use messaging_kernel::qiss::types::Timestamp;

fn member(id: &str, topics: &[&str]) -> ConsumerGroupMember {
    ConsumerGroupMember {
        member_id: id.to_string(),
        client_id: format!("client-{}", id),
        client_host: "localhost".to_string(),
        session_timeout: Duration::from_secs(30),
        rebalance_timeout: Duration::from_secs(60),
        subscription: topics.iter().map(|t| t.to_string()).collect(),
        assignment: NameMap::new(),
        last_heartbeat: Timestamp::from_nanos(0),
        state: MemberState::Joining,
        protocol_metadata: Vec::new(),
        generation_id: 0,
        transaction_state: None,
    }
}

fn group(strategy: AssignmentStrategy) -> ConsumerGroup {
    let mut config = ConsumerGroupConfig::default();
    config.assignment_strategy = strategy;
    ConsumerGroup::new(config)
}

fn partitions_of(g: &ConsumerGroup, id: &str, topic: &str) -> Option<Vec<i32>> {
    let a = g.get_member_assignments(id).unwrap();
    a.get(topic).map(|v| v.clone())
}

fn storage_text(e: Error) -> String {
    match e {
        Error::Storage(s) => s,
        other => panic!("unexpected error {:?}", other),
    }
}

#[test]
fn test_consumer_group_config_default() {
    let config = ConsumerGroupConfig::default();
    assert_eq!(config.group_id, "default-group");
    assert_eq!(config.protocol_type, "consumer");
    assert!(config.enable_exactly_once);
    assert!(config.enable_transactions);
    assert_eq!(config.assignment_strategy, AssignmentStrategy::Range);
}

#[test]
fn test_consumer_group_creation() {
    let config = ConsumerGroupConfig::default();
    let group = ConsumerGroup::new(config);
    assert_eq!(group.state(), ConsumerGroupState::Empty);
    assert_eq!(group.generation_id(), 0);
}

#[test]
fn test_member_state() {
    assert_eq!(MemberState::Joining, MemberState::Joining);
    assert_ne!(MemberState::Joining, MemberState::Stable);
}

#[test]
fn test_transaction_state() {
    assert_eq!(TransactionStateType::Started, TransactionStateType::Started);
    assert_ne!(TransactionStateType::Started, TransactionStateType::Committed);
}

#[test]
fn test_assignment_strategy() {
    assert_eq!(AssignmentStrategy::Range, AssignmentStrategy::Range);
    assert_ne!(AssignmentStrategy::Range, AssignmentStrategy::RoundRobin);
}

#[test]
fn range_blocks_share_out_the_partitions_in_order() {
    assert_eq!(range_partitions(4, 3, 0), vec![0, 1]);
    assert_eq!(range_partitions(4, 3, 1), vec![2]);
    assert_eq!(range_partitions(4, 3, 2), vec![3]);
    assert_eq!(range_partitions(4, 5, 4), Vec::<i32>::new());
    assert_eq!(range_partitions(10, 4, 1), vec![3, 4, 5]);
    assert_eq!(range_partitions(10, 4, 3), vec![8, 9]);
    assert_eq!(round_robin_partitions(4, 3, 0), vec![0, 3]);
    assert_eq!(round_robin_partitions(4, 3, 2), vec![2]);
    assert_eq!(round_robin_partitions(4, 5, 4), Vec::<i32>::new());
}

#[test]
fn range_rebalance_gives_members_in_name_order_consecutive_partitions() {
    let mut g = group(AssignmentStrategy::Range);
    g.add_member_at(member("c", &["orders"]), Timestamp::from_nanos(1)).unwrap();
    g.add_member_at(member("a", &["orders"]), Timestamp::from_nanos(2)).unwrap();
    g.add_member_at(member("b", &["payments"]), Timestamp::from_nanos(3)).unwrap();
    assert_eq!(g.state(), ConsumerGroupState::Stable);
    assert_eq!(g.generation_id(), 3);
    // Every member gets a share of every subscribed topic.
    assert_eq!(partitions_of(&g, "a", "orders"), Some(vec![0, 1]));
    assert_eq!(partitions_of(&g, "b", "orders"), Some(vec![2]));
    assert_eq!(partitions_of(&g, "c", "orders"), Some(vec![3]));
    assert_eq!(partitions_of(&g, "a", "payments"), Some(vec![0, 1]));
    assert_eq!(partitions_of(&g, "c", "payments"), Some(vec![3]));
    let stats = g.get_stats();
    assert_eq!(stats.total_members, 3);
    assert_eq!(stats.total_rebalances, 3);
    assert_eq!(stats.last_rebalance_time, Some(Timestamp::from_nanos(3)));
}

#[test]
fn names_are_ordered_by_their_bytes() {
    let mut g = group(AssignmentStrategy::Range);
    g.add_member_at(member("a", &["t"]), Timestamp::from_nanos(1)).unwrap();
    g.add_member_at(member("B", &["t"]), Timestamp::from_nanos(2)).unwrap();
    g.add_member_at(member("é", &["t"]), Timestamp::from_nanos(3)).unwrap();
    g.add_member_at(member("ab", &["t"]), Timestamp::from_nanos(4)).unwrap();
    // "B" < "a" < "ab" < "é" byte by byte.
    assert_eq!(partitions_of(&g, "B", "t"), Some(vec![0]));
    assert_eq!(partitions_of(&g, "a", "t"), Some(vec![1]));
    assert_eq!(partitions_of(&g, "ab", "t"), Some(vec![2]));
    assert_eq!(partitions_of(&g, "é", "t"), Some(vec![3]));
}

#[test]
fn round_robin_rebalance_appends_to_what_members_had() {
    let mut g = group(AssignmentStrategy::RoundRobin);
    g.add_member_at(member("x", &["t"]), Timestamp::from_nanos(1)).unwrap();
    assert_eq!(partitions_of(&g, "x", "t"), Some(vec![0, 1, 2, 3]));
    g.add_member_at(member("y", &["t"]), Timestamp::from_nanos(2)).unwrap();
    assert_eq!(partitions_of(&g, "x", "t"), Some(vec![0, 1, 2, 3, 0, 2]));
    assert_eq!(partitions_of(&g, "y", "t"), Some(vec![1, 3]));
}

#[test]
fn round_robin_leaves_members_past_the_partitions_without_the_topic() {
    let mut g = group(AssignmentStrategy::Sticky);
    for id in ["m1", "m2", "m3", "m4", "m5"] {
        g.add_member_at(member(id, &["t"]), Timestamp::from_nanos(1)).unwrap();
    }
    assert_eq!(partitions_of(&g, "m5", "t"), None);
    assert!(partitions_of(&g, "m1", "t").unwrap().contains(&0));
}

#[test]
fn custom_assignment_is_refused_and_leaves_the_group_preparing() {
    let mut g = group(AssignmentStrategy::Custom);
    match g.add_member_at(member("a", &["t"]), Timestamp::from_nanos(1)) {
        Err(e) => assert_eq!(storage_text(e), "Custom assignment strategy not implemented"),
        Ok(()) => panic!("custom assignment succeeded"),
    }
    assert_eq!(g.state(), ConsumerGroupState::PreparingRebalance);
    assert_eq!(g.generation_id(), 0);
    assert_eq!(g.total_members(), 1);
    let events = g.drain_rebalance_events();
    assert_eq!(events.len(), 1);
    assert!(matches!(events[0], RebalanceEvent::RebalanceStarted));
}

#[test]
fn events_tell_the_rebalance_in_order() {
    let mut g = group(AssignmentStrategy::Range);
    g.add_member_at(member("b", &["t"]), Timestamp::from_nanos(1)).unwrap();
    let _ = g.drain_rebalance_events();
    g.add_member_at(member("a", &["t"]), Timestamp::from_nanos(2)).unwrap();
    let events = g.drain_rebalance_events();
    assert_eq!(events.len(), 5);
    assert!(matches!(events[0], RebalanceEvent::RebalanceStarted));
    match &events[1] {
        RebalanceEvent::AssignmentChanged(id, a) => {
            assert_eq!(id, "a");
            assert_eq!(a.get("t"), Some(&vec![0, 1]));
        }
        other => panic!("unexpected event {:?}", other),
    }
    match &events[2] {
        RebalanceEvent::AssignmentChanged(id, a) => {
            assert_eq!(id, "b");
            assert_eq!(a.get("t"), Some(&vec![2, 3]));
        }
        other => panic!("unexpected event {:?}", other),
    }
    assert!(matches!(events[3], RebalanceEvent::RebalanceCompleted));
    match &events[4] {
        RebalanceEvent::MemberJoined(id) => assert_eq!(id, "a"),
        other => panic!("unexpected event {:?}", other),
    }
    assert!(g.drain_rebalance_events().is_empty());
}

#[test]
fn removing_a_member_rebalances_the_rest() {
    let mut g = group(AssignmentStrategy::Range);
    g.add_member_at(member("a", &["t"]), Timestamp::from_nanos(1)).unwrap();
    g.add_member_at(member("b", &["t"]), Timestamp::from_nanos(2)).unwrap();
    g.remove_member_at("a", Timestamp::from_nanos(3)).unwrap();
    assert_eq!(partitions_of(&g, "b", "t"), Some(vec![0, 1, 2, 3]));
    match g.get_member_assignments("a") {
        Err(e) => assert_eq!(storage_text(e), "Member not found: a"),
        Ok(_) => panic!("removed member still there"),
    }
    let stats = g.get_stats();
    assert_eq!(stats.total_members, 1);
    assert_eq!(stats.active_members, 1);
    assert_eq!(g.total_members(), 2);
    assert_eq!(g.generation_id(), 3);
}

#[test]
fn heartbeats_need_a_member() {
    let mut g = group(AssignmentStrategy::Range);
    match g.update_member_heartbeat_at("ghost", Timestamp::from_nanos(5)) {
        Err(e) => assert_eq!(storage_text(e), "Member not found: ghost"),
        Ok(()) => panic!("heartbeat of an unknown member"),
    }
    g.add_member_at(member("a", &[]), Timestamp::from_nanos(1)).unwrap();
    assert!(g.update_member_heartbeat_at("a", Timestamp::from_nanos(5)).is_ok());
}

#[test]
fn committed_offsets_are_recorded_per_partition() {
    let mut g = group(AssignmentStrategy::Range);
    g.commit_offsets("nobody", "t", 2, Offset::new(7)).unwrap();
    g.commit_offsets("nobody", "t", 2, Offset::new(9)).unwrap();
    g.commit_offsets("nobody", "t", 3, Offset::new(1)).unwrap();
    assert_eq!(g.committed_offset("t", 2), Some(Offset::new(9)));
    assert_eq!(g.committed_offset("t", 3), Some(Offset::new(1)));
    assert_eq!(g.committed_offset("t", 0), None);
    assert_eq!(g.committed_offset("u", 2), None);
}

#[test]
fn transactions_need_a_member() {
    let mut g = group(AssignmentStrategy::Range);
    match g.start_transaction("nobody", "tx".to_string()) {
        Err(e) => assert_eq!(storage_text(e), "Member not found: nobody"),
        Ok(()) => panic!("transaction of an unknown member"),
    }
    g.add_member_at(member("a", &[]), Timestamp::from_nanos(1)).unwrap();
    g.start_transaction_at("a", "tx".to_string(), Timestamp::from_nanos(2)).unwrap();
    g.commit_offsets("a", "t", 0, Offset::new(4)).unwrap();
    g.abort_transaction("a", "other").unwrap();
    g.commit_transaction("a", "tx").unwrap();
    assert_eq!(g.committed_offset("t", 0), Some(Offset::new(4)));
}

#[test]
fn committing_a_transaction_commits_its_pending_offsets() {
    let mut pending: NameMap<IdMap<Offset>> = NameMap::new();
    let mut parts: IdMap<Offset> = IdMap::new();
    parts.insert(1, Offset::new(40));
    pending.insert("t".to_string(), parts);
    let mut m = member("a", &[]);
    m.transaction_state = Some(TransactionState {
        transaction_id: "tx".to_string(),
        coordinator: "default-group".to_string(),
        timeout: Duration::from_secs(60),
        start_time: Timestamp::from_nanos(0),
        committed_offsets: NameMap::new(),
        pending_offsets: pending,
        state: TransactionStateType::InProgress,
    });
    let mut g = group(AssignmentStrategy::Range);
    g.add_member_at(m, Timestamp::from_nanos(1)).unwrap();
    g.commit_offsets("a", "t", 0, Offset::new(3)).unwrap();
    g.commit_transaction("a", "tx").unwrap();
    assert_eq!(g.committed_offset("t", 0), Some(Offset::new(3)));
    assert_eq!(g.committed_offset("t", 1), Some(Offset::new(40)));
}

#[test]
fn the_coordinator_marks_transactions() {
    let mut c = TransactionCoordinator::new();
    c.start_transaction_at("tx".to_string(), Timestamp::from_nanos(1)).unwrap();
    c.commit_transaction("tx").unwrap();
    c.abort_transaction("missing").unwrap();
}
