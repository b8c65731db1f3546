use std::time::Duration;

use bytes::Bytes;
use messaging_kernel::broker::cluster::ClusterConfig;
use messaging_kernel::broker::consumer::ConsumerConfig;
use messaging_kernel::broker::message::{BrokerConfig, Headers, Message, Offset};
use messaging_kernel::broker::precursor::PrecursorBroker;
use messaging_kernel::broker::producer::ProducerConfig;
use messaging_kernel::broker::queue::QueueConfig;
use messaging_kernel::broker::topic::TopicConfig;
use messaging_kernel::qiss::types::Timestamp;

fn test_config() -> BrokerConfig {
    BrokerConfig {
        broker_id: "test-broker".to_string(),
        data_dir: "./test_data".to_string(),
        enable_persistence: false,
        ..Default::default()
    }
}

fn test_message() -> Message {
    Message::new(Bytes::from("test message"), Headers::new())
}

#[test]
fn test_broker_lifecycle() {
    let mut broker = PrecursorBroker::new(test_config());

    broker.start().unwrap();

    let stats = broker.get_stats();
    assert_eq!(stats.total_messages_produced, 0);
    assert_eq!(stats.total_messages_consumed, 0);
    assert_eq!(stats.active_producers, 0);
    assert_eq!(stats.active_consumers, 0);
    assert_eq!(stats.active_queues, 0);
    assert_eq!(stats.active_topics, 0);

    broker.stop().unwrap();
}

#[test]
fn integration_tests_test_queue_operations() {
    let mut broker = PrecursorBroker::new(test_config());
    broker.start().unwrap();

    let queue_config = QueueConfig {
        name: "test_queue".to_string(),
        max_size: 1000,
        retention: Duration::from_secs(3600),
        enable_persistence: false,
        ..Default::default()
    };

    broker.create_queue("test_queue".to_string(), queue_config).unwrap();

    let offset = broker.produce_to_queue("test_queue", test_message()).unwrap();
    assert_eq!(offset.value(), 0);

    let consumed_message = broker.consume_from_queue("test_queue", "consumer1").unwrap();
    assert!(consumed_message.is_some());
    assert_eq!(consumed_message.unwrap().payload, Bytes::from("test message"));

    let stats = broker.get_stats();
    assert_eq!(stats.total_messages_produced, 1);
    assert_eq!(stats.total_messages_consumed, 1);
    assert_eq!(stats.active_queues, 1);

    broker.delete_queue("test_queue").unwrap();

    let stats = broker.get_stats();
    assert_eq!(stats.active_queues, 0);

    broker.stop().unwrap();
}

#[test]
fn integration_tests_test_topic_operations() {
    let mut broker = PrecursorBroker::new(test_config());
    broker.start().unwrap();

    let topic_config = TopicConfig {
        name: "test_topic".to_string(),
        partition_count: 2,
        retention: Duration::from_secs(3600),
        enable_persistence: false,
        ..Default::default()
    };

    broker.create_topic("test_topic".to_string(), topic_config).unwrap();

    let offset = broker.produce_to_topic("test_topic", test_message()).unwrap();
    assert_eq!(offset.value(), 0);

    let consumed_message = broker.consume_from_topic("test_topic", 0, "test_group", "consumer1").unwrap();
    assert!(consumed_message.is_some());
    assert_eq!(consumed_message.unwrap().payload, Bytes::from("test message"));

    let stats = broker.get_stats();
    assert_eq!(stats.total_messages_produced, 1);
    assert_eq!(stats.total_messages_consumed, 1);
    assert_eq!(stats.active_topics, 1);

    broker.delete_topic("test_topic").unwrap();

    let stats = broker.get_stats();
    assert_eq!(stats.active_topics, 0);

    broker.stop().unwrap();
}

#[test]
fn test_producer_consumer() {
    let mut broker = PrecursorBroker::new(test_config());
    broker.start().unwrap();

    let topic_config = TopicConfig {
        name: "test_topic".to_string(),
        partition_count: 1,
        retention: Duration::from_secs(3600),
        enable_persistence: false,
        ..Default::default()
    };
    broker.create_topic("test_topic".to_string(), topic_config).unwrap();

    let producer_config = ProducerConfig {
        producer_id: "test_producer".to_string(),
        client_id: "test_client".to_string(),
        ..Default::default()
    };
    let mut producer = broker.create_producer(producer_config).unwrap();
    producer.start().unwrap();

    let consumer_config = ConsumerConfig {
        consumer_id: "test_consumer".to_string(),
        consumer_group: "test_group".to_string(),
        client_id: "test_client".to_string(),
        ..Default::default()
    };
    let mut consumer = broker.create_consumer(consumer_config).unwrap();
    consumer.start().unwrap();

    consumer.subscribe(vec!["test_topic".to_string()]).unwrap();

    let offset = producer.send_to_topic(&mut broker, "test_topic", test_message()).unwrap();
    assert_eq!(offset.value(), 0);

    let messages = consumer.poll(&mut broker, Some(Duration::from_secs(1))).unwrap();
    assert_eq!(messages.len(), 1);
    assert_eq!(messages[0].payload, Bytes::from("test message"));

    let producer_stats = producer.get_stats();
    assert_eq!(producer_stats.total_messages, 1);
    assert_eq!(producer_stats.total_bytes, 12);

    let consumer_stats = consumer.get_stats();
    assert_eq!(consumer_stats.total_messages, 1);
    assert_eq!(consumer_stats.total_bytes, 12);

    producer.stop(&mut broker).unwrap();
    consumer.stop().unwrap();
    broker.stop().unwrap();
}

#[test]
fn test_replication() {
    let config = BrokerConfig { enable_replication: true, replication_factor: 2, ..test_config() };

    let mut broker = PrecursorBroker::new(config);
    broker.start().unwrap();

    let stats = broker.get_stats();
    assert_eq!(stats.active_topics, 0);

    broker.stop().unwrap();
}

#[test]
fn test_cluster_management() {
    let config = BrokerConfig {
        cluster: ClusterConfig {
            cluster_id: "test-cluster".to_string(),
            broker_id: "test-broker".to_string(),
            broker_address: "localhost:9092".to_string(),
            ..Default::default()
        },
        ..test_config()
    };

    let mut broker = PrecursorBroker::new(config);
    broker.start().unwrap();

    let stats = broker.get_stats();
    assert_eq!(stats.active_topics, 0);

    broker.stop().unwrap();
}

#[test]
fn test_error_handling() {
    let mut broker = PrecursorBroker::new(test_config());
    broker.start().unwrap();

    let result = broker.consume_from_queue("non_existent_queue", "consumer1");
    assert!(result.is_err());

    let result = broker.produce_to_topic("non_existent_topic", test_message());
    assert!(result.is_err());

    broker.stop().unwrap();
}

#[test]
fn test_message_metadata() {
    let mut headers = Headers::new();
    headers.insert("key1".to_string(), "value1".to_string());
    headers.insert("key2".to_string(), "value2".to_string());

    let message = Message::new(Bytes::from("test message"), headers);

    assert_eq!(message.size(), 12);
    assert!(message.timestamp() <= Timestamp::now());
    assert_eq!(message.get_header("key1"), Some(&"value1".to_string()));
    assert_eq!(message.get_header("key2"), Some(&"value2".to_string()));
    assert_eq!(message.get_header("key3"), None);

    let message_with_key =
        Message::with_partition_key(Bytes::from("test message"), Headers::new(), "partition_key".to_string());

    assert_eq!(message_with_key.partition_key(), Some(&"partition_key".to_string()));
}

#[test]
fn integration_tests_test_offset_operations() {
    let offset = Offset::new(100);
    assert_eq!(offset.value(), 100);

    let incremented = offset.increment();
    assert_eq!(incremented.value(), 101);

    let decremented = offset.decrement();
    assert_eq!(decremented.value(), 99);

    let offset1 = Offset::new(100);
    let offset2 = Offset::new(200);
    assert!(offset1 < offset2);
    assert!(offset2 > offset1);
    assert_eq!(offset1, Offset::new(100));
}

#[test]
fn test_message_batching() {
    let mut broker = PrecursorBroker::new(test_config());
    broker.start().unwrap();

    let topic_config = TopicConfig {
        name: "test_topic".to_string(),
        partition_count: 1,
        retention: Duration::from_secs(3600),
        enable_persistence: false,
        ..Default::default()
    };
    broker.create_topic("test_topic".to_string(), topic_config).unwrap();

    let producer_config = ProducerConfig {
        producer_id: "test_producer".to_string(),
        client_id: "test_client".to_string(),
        batch_size: 3,
        linger: Duration::from_millis(100),
        ..Default::default()
    };
    let mut producer = broker.create_producer(producer_config).unwrap();
    producer.start().unwrap();

    let mut messages = Vec::new();
    for i in 0..5 {
        let payload = Bytes::from(format!("message {}", i));
        messages.push(Message::new(payload, Headers::new()));
    }

    let offsets = producer.send_batch(&mut broker, messages).unwrap();
    assert_eq!(offsets.len(), 5);

    let producer_stats = producer.get_stats();
    assert_eq!(producer_stats.total_messages, 5);

    producer.stop(&mut broker).unwrap();
    broker.stop().unwrap();
}
