use std::time::Duration;

use bytes::Bytes;
use messaging_kernel::broker::cluster::{Broker, BrokerState, ClusterConfig, ClusterManager};
use messaging_kernel::broker::compression::{CompressionAlgorithm, CompressionConfig, CompressionEngine, DataProfile};
use messaging_kernel::broker::consumer::{Consumer, ConsumerConfig};
use messaging_kernel::broker::message::{BrokerConfig, Headers, Message, Offset};
use messaging_kernel::broker::precursor::PrecursorBroker;
use messaging_kernel::broker::producer::{Producer, ProducerConfig};
use messaging_kernel::broker::queue::{Queue, QueueConfig, QueueMessage};
use messaging_kernel::broker::replication::{ReplicaState, ReplicationManager};
use messaging_kernel::broker::topic::{Partition, Topic, TopicConfig};
use messaging_kernel::qiss::types::Timestamp;

fn text_message(text: &'static str) -> Message {
    Message::new(Bytes::from(text), Headers::new())
}

#[test]
fn test_broker_creation() {
    let config = BrokerConfig::default();
    let broker = PrecursorBroker::new(config);
    let stats = broker.get_stats();

    assert_eq!(stats.total_messages_produced, 0);
    assert_eq!(stats.total_messages_consumed, 0);
    assert_eq!(stats.active_producers, 0);
    assert_eq!(stats.active_consumers, 0);
    assert_eq!(stats.active_queues, 0);
    assert_eq!(stats.active_topics, 0);
}

#[test]
fn test_message_creation() {
    let payload = Bytes::from("test message");
    let message = Message::new(payload.clone(), Headers::new());

    assert_eq!(message.payload, payload);
    assert_eq!(message.size(), payload.len());
    assert!(message.timestamp() <= Timestamp::now());
}

#[test]
fn test_message_with_partition_key() {
    let payload = Bytes::from("test message");
    let partition_key = "key1".to_string();
    let message = Message::with_partition_key(payload, Headers::new(), partition_key.clone());

    assert_eq!(message.partition_key(), Some(&partition_key));
}

#[test]
fn test_cluster_manager_operations() {
    let config = ClusterConfig::default();
    let mut cluster_manager = ClusterManager::new(config);

    cluster_manager.start().unwrap();

    let brokers = cluster_manager.get_brokers();
    assert_eq!(brokers.len(), 1);
    assert_eq!(brokers[0].broker_id, "broker-1");

    let broker = Broker {
        broker_id: "broker-2".to_string(),
        address: "localhost:9093".to_string(),
        state: BrokerState::Online,
        last_heartbeat: Timestamp::now(),
        rack_id: None,
        version: "1.0.0".to_string(),
        capabilities: vec!["neo-protocol".to_string()],
    };

    cluster_manager.add_broker(broker).unwrap();

    let brokers = cluster_manager.get_brokers();
    assert_eq!(brokers.len(), 2);

    cluster_manager.update_broker_heartbeat("broker-2").unwrap();

    let broker = cluster_manager.get_broker("broker-2").unwrap();
    assert!(broker.is_some());
    assert_eq!(broker.unwrap().broker_id, "broker-2");

    let stats = cluster_manager.get_stats();
    assert_eq!(stats.total_brokers, 2);
    assert_eq!(stats.online_brokers, 2);
    assert_eq!(stats.offline_brokers, 0);

    cluster_manager.stop().unwrap();
}

#[test]
fn test_compression_engine_creation() {
    let config = CompressionConfig::default();
    let engine = CompressionEngine::new(config);
    let stats = engine.get_stats();

    assert_eq!(stats.total_bytes_compressed, 0);
    assert_eq!(stats.total_bytes_decompressed, 0);
}

#[test]
fn test_adaptive_compression() {
    let config = CompressionConfig { enable_adaptive: true, ..Default::default() };
    let mut engine = CompressionEngine::new(config);

    // Five thousand equal bytes: no entropy, every byte repeating the last.
    let repetitive_data = b"AAAAA".repeat(1000);
    let profile = DataProfile { low_entropy: true, high_entropy: false };
    let compressed = engine.compress(&repetitive_data, None, &profile).unwrap();

    let ratio = compressed.original_size as f64 / compressed.data.len() as f64;
    assert!(ratio > 2.0);
}

#[test]
fn test_message_compression() {
    let config = CompressionConfig::default();
    let mut engine = CompressionEngine::new(config);

    let message = text_message("test message payload");
    let profile = DataProfile { low_entropy: true, high_entropy: false };

    let compressed_message = engine.compress_message(&message, None, &profile).unwrap();
    let decompressed_message = engine.decompress_message(&compressed_message).unwrap();

    assert_eq!(decompressed_message.payload, message.payload);
}

#[test]
fn test_consumer_operations() {
    let config = ConsumerConfig::default();
    let mut consumer = Consumer::new(config);

    consumer.subscribe(vec!["test_topic".to_string()]).unwrap();

    let stats = consumer.get_stats();
    assert_eq!(stats.subscriptions.len(), 1);
    assert_eq!(stats.subscriptions[0], "test_topic");

    consumer.unsubscribe().unwrap();

    let stats = consumer.get_stats();
    assert!(stats.subscriptions.is_empty());
}

#[test]
fn test_consumer_lifecycle() {
    let config = ConsumerConfig::default();
    let mut consumer = Consumer::new(config);

    consumer.start().unwrap();
    consumer.stop().unwrap();
}

#[test]
fn test_producer_operations() {
    let config = ProducerConfig::default();
    let producer = Producer::new(config);

    let stats = producer.get_stats();
    assert_eq!(stats.total_messages, 0);
    assert_eq!(stats.total_bytes, 0);
    assert_eq!(stats.total_errors, 0);
    assert_eq!(stats.current_batch_size, 0);
}

#[test]
fn test_producer_lifecycle() {
    let config = ProducerConfig::default();
    let mut broker = PrecursorBroker::new(BrokerConfig::default());
    let mut producer = Producer::new(config);

    producer.start().unwrap();
    producer.stop(&mut broker).unwrap();
}

#[test]
fn test_queue_message_creation() {
    let message = text_message("test message");
    let offset = Offset::new(1);
    let queue_message = QueueMessage::new(message, offset);

    assert_eq!(queue_message.offset, offset);
    assert_eq!(queue_message.delivery_count, 0);
    assert!(queue_message.is_visible());
    assert!(!queue_message.has_exceeded_max_retries(3));
}

#[test]
fn test_queue_message_delivery() {
    let message = text_message("test message");
    let offset = Offset::new(1);
    let mut queue_message = QueueMessage::new(message, offset);

    queue_message.mark_delivered("consumer1".to_string(), Duration::from_secs(30));

    assert_eq!(queue_message.delivery_count, 1);
    assert_eq!(queue_message.consumer_id, Some("consumer1".to_string()));
    assert!(!queue_message.is_visible());
}

#[test]
fn queue_test_queue_operations() {
    let config = QueueConfig::default();
    let mut queue = Queue::new("test_queue".to_string(), config);

    queue.initialize().unwrap();

    let offset = queue.produce(text_message("test message")).unwrap();
    assert_eq!(offset.value(), 0);

    let consumed_message = queue.consume("consumer1").unwrap();
    assert!(consumed_message.is_some());

    queue.acknowledge("consumer1", offset).unwrap();

    let stats = queue.get_stats();
    assert_eq!(stats.total_produced, 1);
    assert_eq!(stats.total_consumed, 1);
}

#[test]
fn test_replication_manager_operations() {
    let broker_config = BrokerConfig::default();
    let mut replication_manager = ReplicationManager::new(&broker_config);

    replication_manager.start().unwrap();

    replication_manager
        .add_partition_replicas("test_topic".to_string(), 0, vec!["broker-1".to_string(), "broker-2".to_string()])
        .unwrap();

    let partition_replicas = replication_manager.get_partition_replicas("test_topic", 0).unwrap();
    assert!(partition_replicas.is_some());
    assert_eq!(partition_replicas.unwrap().replicas.len(), 2);

    replication_manager.update_replica_state("test_topic", 0, "broker-1", ReplicaState::InSync).unwrap();

    let is_under_replicated = replication_manager.is_partition_under_replicated("test_topic", 0).unwrap();
    assert!(!is_under_replicated);

    let stats = replication_manager.get_stats();
    assert_eq!(stats.total_partitions, 1);
    assert_eq!(stats.under_replicated_partitions, 0);

    replication_manager.stop().unwrap();
}

#[test]
fn topic_test_topic_operations() {
    let config = TopicConfig { name: "test_topic".to_string(), partition_count: 2, ..Default::default() };
    let mut topic = Topic::new("test_topic".to_string(), config);

    topic.initialize().unwrap();

    let offset = topic.produce(text_message("test message")).unwrap();
    assert_eq!(offset.value(), 0);

    let consumed_message = topic.consume(0, "test_group", "consumer1").unwrap();
    assert!(consumed_message.is_some());

    let stats = topic.get_stats();
    assert_eq!(stats.total_produced, 1);
    assert_eq!(stats.total_consumed, 1);
    assert_eq!(stats.partition_count, 2);
}

#[test]
fn test_partition_operations() {
    let mut partition = Partition::new(0, "test_topic".to_string());

    partition.initialize().unwrap();

    let offset = partition.produce(text_message("test message")).unwrap();
    assert_eq!(offset.value(), 0);

    let consumed_message = partition.consume("test_group", "consumer1").unwrap();
    assert!(consumed_message.is_some());

    let consumer_offset = partition.get_consumer_group_offset("test_group", "consumer1");
    assert_eq!(consumer_offset.value(), 1);
}
