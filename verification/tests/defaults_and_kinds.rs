use std::time::Duration;

use messaging_kernel::broker::advanced_replication::{
    ConflictResolutionStatus, ConflictResolutionStrategy, ConflictType, RegionStatus, ReplicaStatus,
    ReplicationConfig as GeoReplicationConfig, ReplicationStats as GeoReplicationStats, ReplicationStatus,
    ReplicationStrategy,
};
use messaging_kernel::broker::cluster::{BrokerState, ClusterConfig};
use messaging_kernel::broker::consensus::{LogEntryType, NodeStatus, RaftConfig, RaftState, RaftStats};
use messaging_kernel::broker::consumer::{AutoOffsetReset, ConsumerConfig};
use messaging_kernel::broker::enhanced_broker::PerformanceLevel;
use messaging_kernel::broker::message::{BrokerConfig, ConsumerGroupState, Offset};
use messaging_kernel::broker::monitoring::{AlertSeverity, AlertStatus};
use messaging_kernel::broker::networking::{ConnectionStats, ServerStats};
use messaging_kernel::broker::producer::{AcksConfig, ProducerConfig};
use messaging_kernel::broker::queue::QueueConfig;
use messaging_kernel::broker::replication::{ReplicaState, ReplicationConfig};
use messaging_kernel::broker::security::{
    AccountStatus, Action, AuditResult, AuthenticationMethod, AuthorizationModel, EncryptionAlgorithm,
    SecurityConfig, TlsVersion,
};
use messaging_kernel::broker::storage::StorageConfig;
use messaging_kernel::broker::topic::{CleanupPolicy, TopicConfig};

#[test]
fn advanced_replication_test_replication_config_default() {
    let config = GeoReplicationConfig::default();
    assert_eq!(config.replication_factor, 3);
    assert_eq!(config.min_in_sync_replicas, 2);
    assert!(!config.enable_cross_region);
    assert_eq!(config.strategy, ReplicationStrategy::Synchronous);
    assert_eq!(config.conflict_resolution, ConflictResolutionStrategy::LastWriteWins);
    assert_eq!(config.replication_timeout, Duration::from_secs(30));
    assert_eq!(config.batch_size, 1000);
    assert!(config.enable_compression);
    assert!(config.enable_encryption);
    assert_eq!(config.lag_threshold, Duration::from_secs(60));
    assert!(config.enable_auto_failover);
    assert_eq!(config.failover_timeout, Duration::from_secs(10));
}

#[test]
fn test_region_status() {
    assert_eq!(RegionStatus::Active, RegionStatus::Active);
    assert_ne!(RegionStatus::Active, RegionStatus::Inactive);
    assert_ne!(RegionStatus::Inactive, RegionStatus::Degraded);
    assert_ne!(RegionStatus::Degraded, RegionStatus::Failed);
}

#[test]
fn test_replication_strategy() {
    assert_eq!(ReplicationStrategy::Synchronous, ReplicationStrategy::Synchronous);
    assert_ne!(ReplicationStrategy::Synchronous, ReplicationStrategy::Asynchronous);
    assert_ne!(ReplicationStrategy::Asynchronous, ReplicationStrategy::SemiSynchronous);
    assert_ne!(ReplicationStrategy::SemiSynchronous, ReplicationStrategy::Eventual);
}

#[test]
fn test_conflict_resolution_strategy() {
    assert_eq!(ConflictResolutionStrategy::LastWriteWins, ConflictResolutionStrategy::LastWriteWins);
    assert_ne!(ConflictResolutionStrategy::LastWriteWins, ConflictResolutionStrategy::FirstWriteWins);
    assert_ne!(ConflictResolutionStrategy::FirstWriteWins, ConflictResolutionStrategy::Custom);
    assert_ne!(ConflictResolutionStrategy::Custom, ConflictResolutionStrategy::Manual);
}

#[test]
fn test_replica_status() {
    assert_eq!(ReplicaStatus::InSync, ReplicaStatus::InSync);
    assert_ne!(ReplicaStatus::InSync, ReplicaStatus::OutOfSync);
    assert_ne!(ReplicaStatus::OutOfSync, ReplicaStatus::CatchingUp);
    assert_ne!(ReplicaStatus::CatchingUp, ReplicaStatus::Failed);
    assert_ne!(ReplicaStatus::Failed, ReplicaStatus::Offline);
}

#[test]
fn test_replication_status() {
    assert_eq!(ReplicationStatus::Pending, ReplicationStatus::Pending);
    assert_ne!(ReplicationStatus::Pending, ReplicationStatus::InProgress);
    assert_ne!(ReplicationStatus::InProgress, ReplicationStatus::Completed);
    assert_ne!(ReplicationStatus::Completed, ReplicationStatus::Failed);
    assert_ne!(ReplicationStatus::Failed, ReplicationStatus::Skipped);
}

#[test]
fn test_conflict_type() {
    assert_eq!(ConflictType::WriteConflict, ConflictType::WriteConflict);
    assert_ne!(ConflictType::WriteConflict, ConflictType::DeleteConflict);
    assert_ne!(ConflictType::DeleteConflict, ConflictType::UpdateConflict);
    assert_ne!(ConflictType::UpdateConflict, ConflictType::OrderConflict);
}

#[test]
fn test_conflict_resolution_status() {
    assert_eq!(ConflictResolutionStatus::Unresolved, ConflictResolutionStatus::Unresolved);
    assert_ne!(ConflictResolutionStatus::Unresolved, ConflictResolutionStatus::Resolved);
    assert_ne!(ConflictResolutionStatus::Resolved, ConflictResolutionStatus::InProgress);
    assert_ne!(ConflictResolutionStatus::InProgress, ConflictResolutionStatus::Failed);
}

#[test]
fn test_replication_stats_default() {
    let stats = GeoReplicationStats::default();
    assert_eq!(stats.total_replications, 0);
    assert_eq!(stats.successful_replications, 0);
    assert_eq!(stats.failed_replications, 0);
    assert_eq!(stats.total_conflicts, 0);
    assert_eq!(stats.resolved_conflicts, 0);
    assert_eq!(stats.avg_replication_latency, Duration::from_secs(0));
    assert_eq!(stats.avg_replication_lag, Duration::from_secs(0));
    assert_eq!(stats.active_replicas, 0);
    assert_eq!(stats.failed_replicas, 0);
    assert_eq!(stats.cross_region_replications, 0);
    assert_eq!(stats.bytes_replicated, 0);
}

#[test]
fn test_cluster_config_default() {
    let config = ClusterConfig::default();
    assert_eq!(config.cluster_id, "default-cluster");
    assert_eq!(config.broker_id, "broker-1");
    assert_eq!(config.broker_address, "localhost:9092");
    assert_eq!(config.heartbeat_interval, Duration::from_secs(3));
    assert_eq!(config.session_timeout, Duration::from_secs(30));
}

#[test]
fn test_broker_state() {
    assert_eq!(BrokerState::Offline, BrokerState::Offline);
    assert_ne!(BrokerState::Offline, BrokerState::Online);
}

#[test]
fn test_raft_config_default() {
    let config = RaftConfig::default();
    assert_eq!(config.node_id, "node-1");
    assert_eq!(config.election_timeout_ms, 150);
    assert_eq!(config.heartbeat_interval_ms, 50);
    assert!(config.enable_pre_vote);
    assert!(config.enable_single_node_optimization);
}

#[test]
fn test_raft_state() {
    assert_eq!(RaftState::Follower, RaftState::Follower);
    assert_ne!(RaftState::Follower, RaftState::Candidate);
    assert_ne!(RaftState::Candidate, RaftState::Leader);
}

#[test]
fn test_node_status() {
    assert_eq!(NodeStatus::Follower, NodeStatus::Follower);
    assert_ne!(NodeStatus::Follower, NodeStatus::Candidate);
    assert_ne!(NodeStatus::Candidate, NodeStatus::Leader);
    assert_ne!(NodeStatus::Leader, NodeStatus::Shutdown);
}

#[test]
fn test_log_entry_type() {
    assert_eq!(LogEntryType::Normal, LogEntryType::Normal);
    assert_ne!(LogEntryType::Normal, LogEntryType::ConfigChange);
    assert_ne!(LogEntryType::ConfigChange, LogEntryType::NoOp);
}

#[test]
fn test_raft_stats_default() {
    let stats = RaftStats::default();
    assert_eq!(stats.current_term, 0);
    assert_eq!(stats.current_state, RaftState::Follower);
    assert_eq!(stats.leader_id, None);
    assert_eq!(stats.log_size, 0);
    assert_eq!(stats.commit_index, 0);
    assert_eq!(stats.last_applied, 0);
    assert_eq!(stats.total_votes_received, 0);
    assert_eq!(stats.total_votes_sent, 0);
    assert_eq!(stats.total_append_entries_sent, 0);
    assert_eq!(stats.total_append_entries_received, 0);
    assert_eq!(stats.total_snapshots_sent, 0);
    assert_eq!(stats.total_snapshots_received, 0);
}

#[test]
fn test_consumer_config_default() {
    let config = ConsumerConfig::default();
    assert_eq!(config.consumer_id, "consumer-1");
    assert_eq!(config.consumer_group, "default-group");
    assert_eq!(config.session_timeout, Duration::from_secs(30));
    assert_eq!(config.auto_offset_reset, AutoOffsetReset::Latest);
    assert!(config.enable_auto_commit);
}

#[test]
fn test_performance_level() {
    assert_eq!(PerformanceLevel::Balanced, PerformanceLevel::Balanced);
    assert_ne!(PerformanceLevel::Balanced, PerformanceLevel::High);
    assert_ne!(PerformanceLevel::High, PerformanceLevel::Maximum);
    assert_ne!(PerformanceLevel::Maximum, PerformanceLevel::Custom);
}

#[test]
fn test_broker_config_default() {
    let config = BrokerConfig::default();
    assert_eq!(config.broker_id, "broker-1");
    assert_eq!(config.data_dir, "./data");
    assert!(config.enable_persistence);
    assert!(!config.enable_replication);
    assert_eq!(config.replication_factor, 1);
}

#[test]
fn lib_test_offset_operations() {
    let offset = Offset::new(100);
    assert_eq!(offset.value(), 100);

    let incremented = offset.increment();
    assert_eq!(incremented.value(), 101);

    let decremented = offset.decrement();
    assert_eq!(decremented.value(), 99);
}

#[test]
fn test_consumer_group_state() {
    assert_eq!(ConsumerGroupState::Empty, ConsumerGroupState::Empty);
    assert_ne!(ConsumerGroupState::Empty, ConsumerGroupState::Stable);
}

#[test]
fn test_alert_severity() {
    assert_eq!(AlertSeverity::Info, AlertSeverity::Info);
    assert_ne!(AlertSeverity::Info, AlertSeverity::Warning);
    assert_ne!(AlertSeverity::Warning, AlertSeverity::Critical);
    assert_ne!(AlertSeverity::Critical, AlertSeverity::Emergency);
}

#[test]
fn test_alert_status() {
    assert_eq!(AlertStatus::Firing, AlertStatus::Firing);
    assert_ne!(AlertStatus::Firing, AlertStatus::Resolved);
    assert_ne!(AlertStatus::Resolved, AlertStatus::Acknowledged);
}

#[test]
fn test_connection_stats() {
    let stats = ConnectionStats::default();
    assert_eq!(stats.bytes_received, 0);
    assert_eq!(stats.bytes_sent, 0);
    assert_eq!(stats.messages_received, 0);
    assert_eq!(stats.messages_sent, 0);
}

#[test]
fn test_server_stats() {
    let stats = ServerStats::default();
    assert_eq!(stats.total_connections, 0);
    assert_eq!(stats.active_connections, 0);
    assert_eq!(stats.total_bytes_received, 0);
    assert_eq!(stats.total_bytes_sent, 0);
}

#[test]
fn test_producer_config_default() {
    let config = ProducerConfig::default();
    assert_eq!(config.producer_id, "producer-1");
    assert_eq!(config.acks, AcksConfig::All);
    assert_eq!(config.retries, 3);
    assert_eq!(config.batch_size, 16384);
    assert_eq!(config.buffer_memory, 32 * 1024 * 1024);
}

#[test]
fn test_queue_config_default() {
    let config = QueueConfig::default();
    assert_eq!(config.name, "default");
    assert_eq!(config.max_size, 10000);
    assert!(config.enable_persistence);
    assert!(!config.enable_compression);
}

#[test]
fn replication_test_replication_config_default() {
    let config = ReplicationConfig::default();
    assert_eq!(config.replication_factor, 1);
    assert!(!config.sync_replication);
    assert_eq!(config.replication_timeout, Duration::from_secs(10));
    assert_eq!(config.min_in_sync_replicas, 1);
    assert!(!config.unclean_leader_election);
}

#[test]
fn test_replica_state() {
    assert_eq!(ReplicaState::Offline, ReplicaState::Offline);
    assert_ne!(ReplicaState::Offline, ReplicaState::Online);
}

#[test]
fn test_security_config_default() {
    let config = SecurityConfig::default();
    assert!(config.enable_tls);
    assert_eq!(config.tls_version, TlsVersion::Tls13);
    assert!(config.enable_authentication);
    assert!(config.enable_authorization);
    assert!(config.enable_audit_logging);
    assert!(config.enable_encryption_at_rest);
}

#[test]
fn test_authentication_method() {
    assert_eq!(AuthenticationMethod::UsernamePassword, AuthenticationMethod::UsernamePassword);
    assert_ne!(AuthenticationMethod::UsernamePassword, AuthenticationMethod::Jwt);
    assert_ne!(AuthenticationMethod::Jwt, AuthenticationMethod::OAuth2);
}

#[test]
fn test_authorization_model() {
    assert_eq!(AuthorizationModel::Rbac, AuthorizationModel::Rbac);
    assert_ne!(AuthorizationModel::Rbac, AuthorizationModel::Abac);
    assert_ne!(AuthorizationModel::Abac, AuthorizationModel::Dac);
}

#[test]
fn test_encryption_algorithm() {
    assert_eq!(EncryptionAlgorithm::Aes256Gcm, EncryptionAlgorithm::Aes256Gcm);
    assert_ne!(EncryptionAlgorithm::Aes256Gcm, EncryptionAlgorithm::Aes256Cbc);
    assert_ne!(EncryptionAlgorithm::Aes256Cbc, EncryptionAlgorithm::ChaCha20Poly1305);
}

#[test]
fn test_account_status() {
    assert_eq!(AccountStatus::Active, AccountStatus::Active);
    assert_ne!(AccountStatus::Active, AccountStatus::Inactive);
    assert_ne!(AccountStatus::Inactive, AccountStatus::Suspended);
    assert_ne!(AccountStatus::Suspended, AccountStatus::Locked);
}

#[test]
fn test_action() {
    assert_eq!(Action::Read, Action::Read);
    assert_ne!(Action::Read, Action::Write);
    assert_ne!(Action::Write, Action::Delete);
    assert_ne!(Action::Delete, Action::Admin);
    assert_ne!(Action::Admin, Action::Execute);
}

#[test]
fn test_audit_result() {
    assert_eq!(AuditResult::Success, AuditResult::Success);
    assert_ne!(AuditResult::Success, AuditResult::Failure);
    assert_ne!(AuditResult::Failure, AuditResult::Denied);
}

#[test]
fn test_storage_config_default() {
    let config = StorageConfig::default();
    assert_eq!(config.data_dir, "./data");
    assert!(!config.enable_compression);
    assert!(!config.sync_on_write);
    assert_eq!(config.segment_size, 1024 * 1024);
}

#[test]
fn test_topic_config_default() {
    let config = TopicConfig::default();
    assert_eq!(config.name, "default");
    assert_eq!(config.partition_count, 1);
    assert!(config.enable_persistence);
    assert!(!config.enable_compression);
    assert_eq!(config.cleanup_policy, CleanupPolicy::Delete);
}
