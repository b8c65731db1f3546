use std::time::Duration;

use bytes::Bytes;
use messaging_kernel::broker::cluster::{Broker, BrokerState, ClusterConfig, ClusterManager};
use messaging_kernel::broker::compression::{
    CompressionAlgorithm, CompressionConfig, CompressionEngine, DataProfile,
};
use messaging_kernel::broker::consensus::{RaftConfig, RaftServer, RaftState, RequestVoteRequest, StateChangeEvent};
use messaging_kernel::broker::consumer::ConsumerConfig;
use messaging_kernel::broker::error::Error;
use messaging_kernel::broker::memory::MemoryError;
use messaging_kernel::broker::message::{BrokerConfig, Headers, Message};
use messaging_kernel::broker::precursor::PrecursorBroker;
use messaging_kernel::broker::producer::ProducerConfig;
use messaging_kernel::broker::queue::{Queue, QueueConfig};
use messaging_kernel::broker::security::{
    AuthenticationMethod, Credentials, SecurityConfig, SecurityManager,
};
use messaging_kernel::broker::monitoring::{expired_prefix, is_latency_metric, latency_percentiles, retention_cutoff, sort_ascending};
use messaging_kernel::broker::names::NameMap;
use messaging_kernel::broker::networking::{ConnectionState, ConnectionTable, TransportType};
use messaging_kernel::broker::topic::{Topic, TopicConfig};
use messaging_kernel::qiss::types::{timestamp_from_reading, Timestamp};
use messaging_kernel::runtime::Service;

fn message(text: &str) -> Message {
    Message::new(Bytes::from(text.to_string()), Headers::new())
}

fn storage_text(e: Error) -> String {
    match e {
        Error::Storage(s) => s,
        other => panic!("not a storage error: {:?}", other),
    }
}

#[test]
fn error_texts_carry_their_numbers() {
    assert_eq!(storage_text(Error::InsufficientReplicas(1, 2)), "Insufficient replicas: 1 confirmed, 2 required");
    assert_eq!(storage_text(Error::ConnectionNotFound(42)), "Connection not found: 42");
    assert_eq!(storage_text(Error::TooManyConnections(10000)), "Too many connections: 10000");
    assert_eq!(storage_text(Error::ReplicationFailed("timeout".to_string())), "Replication failed: timeout");
    assert_eq!(storage_text(Error::NotLeader()), "Not the leader");
}

#[test]
fn every_codec_reads_back_what_it_wrote() {
    let config = CompressionConfig { enable_adaptive: false, compression_threshold: 0, ..Default::default() };
    let mut engine = CompressionEngine::new(config);
    let data = b"the quick brown fox jumps over the lazy dog; ".repeat(40);
    let profile = DataProfile { low_entropy: true, high_entropy: false };
    for algorithm in [
        CompressionAlgorithm::Uncompressed,
        CompressionAlgorithm::Lz4,
        CompressionAlgorithm::Lz4Hc,
        CompressionAlgorithm::Zstd,
        CompressionAlgorithm::Brotli,
        CompressionAlgorithm::Snappy,
        CompressionAlgorithm::Lzma,
        CompressionAlgorithm::Deflate,
        CompressionAlgorithm::Gzip,
    ] {
        let compressed = engine.compress(&data, Some(algorithm), &profile).unwrap();
        assert_eq!(compressed.algorithm, algorithm);
        // lzma-rs writes literals only, so its output does not shrink.
        if algorithm != CompressionAlgorithm::Uncompressed && algorithm != CompressionAlgorithm::Lzma {
            assert!(compressed.data.len() < data.len(), "{:?} did not shrink repetitive text", algorithm);
        }
        let back = engine.decompress(&compressed).unwrap();
        assert_eq!(back, data);
    }
}

#[test]
fn small_payloads_stay_uncompressed() {
    let mut engine = CompressionEngine::new(CompressionConfig::default());
    let profile = DataProfile { low_entropy: false, high_entropy: false };
    let compressed = engine.compress(b"short", Some(CompressionAlgorithm::Zstd), &profile).unwrap();
    assert_eq!(compressed.algorithm, CompressionAlgorithm::Uncompressed);
    assert_eq!(compressed.data, b"short".to_vec());
    assert_eq!(compressed.space_saved(), 0);
}

#[test]
fn adaptive_choice_follows_the_profile() {
    let config = CompressionConfig { enable_adaptive: true, ..Default::default() };
    let engine = CompressionEngine::new(config);
    let low = DataProfile { low_entropy: true, high_entropy: false };
    let noisy = DataProfile { low_entropy: false, high_entropy: true };
    let plain = DataProfile { low_entropy: false, high_entropy: false };
    // 99 of 99 bytes after the first repeat the one before: repetitive.
    let runs = vec![7u8; 100];
    // 3 of 10 repeat: exactly 30%, which is not more.
    let some = [1u8, 1, 2, 2, 3, 3, 4, 5, 6, 7, 8];
    // 4 of 10 repeat: more than 30%.
    let more = [1u8, 1, 2, 2, 3, 3, 4, 4, 6, 7, 8];
    let varied: Vec<u8> = (0..5000u32).map(|i| (i % 251) as u8).collect();
    assert_eq!(engine.choose_optimal_algorithm(&runs, &low, CompressionAlgorithm::Gzip).unwrap(), CompressionAlgorithm::Brotli);
    assert_eq!(engine.choose_optimal_algorithm(&some, &low, CompressionAlgorithm::Gzip).unwrap(), CompressionAlgorithm::Lz4);
    assert_eq!(engine.choose_optimal_algorithm(&more, &low, CompressionAlgorithm::Gzip).unwrap(), CompressionAlgorithm::Brotli);
    assert_eq!(engine.choose_optimal_algorithm(&runs, &noisy, CompressionAlgorithm::Gzip).unwrap(), CompressionAlgorithm::Lz4);
    assert_eq!(engine.choose_optimal_algorithm(&varied, &noisy, CompressionAlgorithm::Gzip).unwrap(), CompressionAlgorithm::Zstd);
    assert_eq!(engine.choose_optimal_algorithm(&varied, &plain, CompressionAlgorithm::Gzip).unwrap(), CompressionAlgorithm::Gzip);
}

#[test]
fn garbage_fails_to_decompress() {
    let engine = CompressionEngine::new(CompressionConfig::default());
    assert!(engine.decompress_with(CompressionAlgorithm::Snappy, &[0xff, 0xff, 0xff, 0xff, 0xff]).is_err());
    assert!(engine.decompress_with(CompressionAlgorithm::Lz4, &[9, 0, 0, 0, 0xff]).is_err());
}

#[test]
fn unknown_queue_and_topic_are_named_in_errors() {
    let mut broker = PrecursorBroker::new(BrokerConfig::default());
    match broker.produce_to_queue("missing", message("x")) {
        Err(Error::QueueNotFound(name)) => assert_eq!(name, "missing"),
        other => panic!("unexpected {:?}", other),
    }
    match broker.consume_from_topic("absent", 0, "g", "c") {
        Err(Error::TopicNotFound(name)) => assert_eq!(name, "absent"),
        other => panic!("unexpected {:?}", other),
    }
}

#[test]
fn a_full_queue_refuses_messages() {
    let config = QueueConfig { name: "small".to_string(), max_size: 1, ..Default::default() };
    let mut queue = Queue::new("small".to_string(), config);
    assert_eq!(queue.produce(message("one")).unwrap().value(), 0);
    match queue.produce(message("two")) {
        Err(Error::QueueFull(name)) => assert_eq!(name, "small"),
        other => panic!("unexpected {:?}", other),
    }
}

#[test]
fn a_delivered_message_stays_hidden() {
    let mut queue = Queue::new("q".to_string(), QueueConfig::default());
    let t = Timestamp::from_nanos(1_000);
    queue.produce_at(message("only"), t).unwrap();
    let first = queue.consume_at("c1", t).unwrap();
    assert_eq!(first.unwrap().payload, Bytes::from("only"));
    // Within the thirty-second visibility timeout nobody gets it again.
    assert!(queue.consume_at("c2", Timestamp::from_nanos(2_000)).unwrap().is_none());
    // After it, the message is handed out again.
    let later = Timestamp::from_nanos(1_000 + 31 * 1_000_000_000);
    assert!(queue.consume_at("c2", later).unwrap().is_some());
}

#[test]
fn a_caught_up_consumer_reads_the_next_message() {
    let config = TopicConfig { name: "t".to_string(), partition_count: 3, ..Default::default() };
    let mut topic = Topic::new("t".to_string(), config);
    topic.initialize().unwrap();
    // Messages without a key go round the partitions: 0, 1, 2, then 0 again.
    assert_eq!(topic.select_partition(&message("a")), 0);
    topic.produce(message("a")).unwrap();
    assert_eq!(topic.select_partition(&message("b")), 1);
    topic.produce(message("b")).unwrap();
    topic.produce(message("c")).unwrap();
    assert_eq!(topic.select_partition(&message("d")), 0);
    assert_eq!(topic.consume(0, "g", "c").unwrap().unwrap().payload, Bytes::from("a"));
    assert!(topic.consume(0, "g", "c").unwrap().is_none());
    topic.produce(message("d")).unwrap();
    assert_eq!(topic.consume(0, "g", "c").unwrap().unwrap().payload, Bytes::from("d"));
    assert_eq!(topic.consume(1, "g", "c").unwrap().unwrap().payload, Bytes::from("b"));
    assert_eq!(topic.consume(2, "g", "c").unwrap().unwrap().payload, Bytes::from("c"));
    match topic.consume(7, "g", "c") {
        Err(Error::PartitionNotFound(_)) => {}
        other => panic!("unexpected {:?}", other),
    }
}

#[test]
fn keyed_messages_keep_to_one_partition() {
    let config = TopicConfig { name: "t".to_string(), partition_count: 4, ..Default::default() };
    let topic = Topic::new("t".to_string(), config);
    let first = Message::with_partition_key(Bytes::from("x"), Headers::new(), "user-7".to_string());
    let second = Message::with_partition_key(Bytes::from("y"), Headers::new(), "user-7".to_string());
    let p1 = topic.select_partition(&first);
    let p2 = topic.select_partition(&second);
    assert_eq!(p1, p2);
    assert!((0..4).contains(&p1));
}

#[test]
fn a_full_batch_is_flushed_to_the_default_topic() {
    let mut broker = PrecursorBroker::new(BrokerConfig::default());
    broker.create_topic("default".to_string(), TopicConfig::default()).unwrap();
    let config = ProducerConfig { batch_size: 2, ..Default::default() };
    let mut producer = broker.create_producer(config).unwrap();
    producer.add_to_batch(&mut broker, message("m1")).unwrap();
    assert_eq!(producer.get_stats().current_batch_size, 1);
    assert_eq!(producer.get_stats().total_messages, 0);
    producer.add_to_batch(&mut broker, message("m2")).unwrap();
    assert_eq!(producer.get_stats().current_batch_size, 0);
    assert_eq!(producer.get_stats().total_messages, 2);
    assert_eq!(producer.get_stats().total_bytes, 4);
    assert_eq!(broker.get_stats().total_messages_produced, 2);
    assert_eq!(broker.get_stats().active_producers, 1);
}

#[test]
fn stopping_twice_fails() {
    let mut broker = PrecursorBroker::new(BrokerConfig::default());
    let mut producer = broker.create_producer(ProducerConfig::default()).unwrap();
    match producer.stop(&mut broker) {
        Err(Error::Internal(s)) => assert_eq!(s, "Producer is not running"),
        other => panic!("unexpected {:?}", other),
    }
    producer.start().unwrap();
    match producer.start() {
        Err(Error::Internal(s)) => assert_eq!(s, "Producer is already running"),
        other => panic!("unexpected {:?}", other),
    }
}

#[test]
fn a_poll_reads_each_subscribed_topic_once() {
    let mut broker = PrecursorBroker::new(BrokerConfig::default());
    broker.create_topic("a".to_string(), TopicConfig::default()).unwrap();
    broker.create_topic("b".to_string(), TopicConfig::default()).unwrap();
    broker.produce_to_topic("a", message("from-a")).unwrap();
    broker.produce_to_topic("b", message("from-b-1")).unwrap();
    broker.produce_to_topic("b", message("from-b-2")).unwrap();
    let mut consumer = broker.create_consumer(ConsumerConfig::default()).unwrap();
    consumer.subscribe(vec!["a".to_string(), "missing".to_string(), "b".to_string()]).unwrap();
    let first = consumer.poll(&mut broker, None).unwrap();
    let payloads: Vec<Bytes> = first.iter().map(|m| m.payload.clone()).collect();
    assert_eq!(payloads, vec![Bytes::from("from-a"), Bytes::from("from-b-1")]);
    let second = consumer.poll(&mut broker, None).unwrap();
    assert_eq!(second.len(), 1);
    assert_eq!(second[0].payload, Bytes::from("from-b-2"));
    let stats = consumer.get_stats();
    assert_eq!(stats.total_messages, 3);
    assert_eq!(stats.total_bytes, 6 + 8 + 8);
    assert!(stats.last_poll_time.is_some());
}

#[test]
fn silent_brokers_go_offline() {
    let mut manager = ClusterManager::new_at(ClusterConfig::default(), Timestamp::from_nanos(0));
    manager.start_at(Timestamp::from_nanos(10)).unwrap();
    let old = Broker {
        broker_id: "broker-9".to_string(),
        address: "10.0.0.9:9092".to_string(),
        state: BrokerState::Online,
        last_heartbeat: Timestamp::from_nanos(0),
        rack_id: Some("r1".to_string()),
        version: "1.0.0".to_string(),
        capabilities: vec![],
    };
    manager.add_broker_at(old, Timestamp::from_nanos(10)).unwrap();
    // Forty seconds later: the session timeout is thirty seconds.
    let now = Timestamp::from_nanos(40 * 1_000_000_000);
    manager.update_broker_heartbeat_at("broker-1", now).unwrap();
    manager.check_broker_health_at(now);
    let stats = manager.get_stats();
    assert_eq!(stats.total_brokers, 2);
    assert_eq!(stats.online_brokers, 1);
    assert_eq!(stats.offline_brokers, 1);
    assert_eq!(manager.get_broker("broker-9").unwrap().unwrap().state, BrokerState::Offline);
    manager.update_broker_heartbeat_at("broker-9", now).unwrap();
    assert_eq!(manager.get_broker("broker-9").unwrap().unwrap().state, BrokerState::Online);
    match manager.start() {
        Err(Error::Internal(s)) => assert_eq!(s, "Cluster manager is already running"),
        other => panic!("unexpected {:?}", other),
    }
}

#[test]
fn an_election_raises_the_term_and_votes_once_per_term() {
    let mut server = RaftServer::new(RaftConfig::default());
    assert_eq!(server.get_state(), RaftState::Follower);
    let (event, requests) = server.start_election();
    assert!(matches!(event, StateChangeEvent::StateChanged(RaftState::Follower, RaftState::Candidate)));
    assert_eq!(server.get_current_term(), 1);
    assert_eq!(server.get_state(), RaftState::Candidate);
    assert!(requests.is_empty());

    let request = |term: u64, candidate: &str| RequestVoteRequest {
        term,
        candidate_id: candidate.to_string(),
        last_log_index: 0,
        last_log_term: 0,
    };
    let (response, _) = server.handle_request_vote(request(5, "node-2"));
    assert!(response.vote_granted);
    assert_eq!(response.term, 5);
    assert_eq!(server.get_current_term(), 5);
    let (again, _) = server.handle_request_vote(request(5, "node-3"));
    assert!(!again.vote_granted);
    let (stale, _) = server.handle_request_vote(request(3, "node-4"));
    assert!(!stale.vote_granted);
    assert_eq!(stale.term, 5);
}

#[test]
fn encryption_reads_back_with_the_default_key() {
    let mut manager = SecurityManager::new(SecurityConfig::default());
    manager.initialize_at(Timestamp::from_nanos(0), None).unwrap();
    let sealed = manager.encrypt_data(b"secret payload", None).unwrap();
    assert_eq!(sealed.key_id, "default");
    assert_eq!(manager.decrypt_data(&sealed).unwrap(), b"secret payload".to_vec());
    match manager.encrypt_data(b"x", Some("nope")) {
        Err(e) => assert_eq!(storage_text(e), "Encryption key not found: nope"),
        Ok(_) => panic!("an unknown key encrypted"),
    }
}

#[test]
fn authentication_outcomes_by_method() {
    let mut manager = SecurityManager::new(SecurityConfig::default());
    manager.initialize_at(Timestamp::from_nanos(0), None).unwrap();
    let credentials = |method: AuthenticationMethod, token: Option<&str>| Credentials {
        method,
        username: Some("alice".to_string()),
        password: None,
        token: token.map(|t| t.to_string()),
        certificate: None,
        additional_data: NameMap::new(),
    };
    let now = Timestamp::from_nanos(1);
    let jwt = manager.authenticate_at(&credentials(AuthenticationMethod::Jwt, Some("t")), now).unwrap();
    assert!(jwt.success);
    assert_eq!(jwt.user_id, Some("user123".to_string()));
    match manager.authenticate_at(&credentials(AuthenticationMethod::UsernamePassword, None), now) {
        Err(e) => assert_eq!(storage_text(e), "Invalid credentials"),
        Ok(_) => panic!("no password, yet authenticated"),
    }
    match manager.authenticate_at(&credentials(AuthenticationMethod::OAuth2, None), now) {
        Err(e) => assert_eq!(storage_text(e), "Authentication method not implemented"),
        Ok(_) => panic!("an unimplemented method authenticated"),
    }
}

#[test]
fn memory_blocks_and_services() {
    assert_eq!(MemoryError::PoolExhausted.message(), "Memory pool exhausted");
    let service = Service::new("svc".to_string(), "1.0".to_string(), "ns".to_string());
    assert!(service.start().is_ok());
    assert!(service.stop().is_ok());
}

#[test]
fn cleanup_drops_expired_messages_only() {
    let mut broker = PrecursorBroker::new(BrokerConfig::default());
    let config = QueueConfig { retention: Duration::from_secs(10), ..Default::default() };
    broker.create_queue("q".to_string(), config).unwrap();
    let old = Message::with_timestamp(Bytes::from("old"), Headers::new(), Timestamp::from_nanos(0));
    let fresh = Message::with_timestamp(Bytes::from("fresh"), Headers::new(), Timestamp::from_nanos(20 * 1_000_000_000));
    broker.produce_to_queue_at("q", old, Timestamp::from_nanos(0)).unwrap();
    broker.produce_to_queue_at("q", fresh, Timestamp::from_nanos(20 * 1_000_000_000)).unwrap();
    broker.cleanup_expired_at(Timestamp::from_nanos(25 * 1_000_000_000));
    let got = broker.consume_from_queue_at("q", "c", Timestamp::from_nanos(25 * 1_000_000_000)).unwrap();
    assert_eq!(got.unwrap().payload, Bytes::from("fresh"));
}

#[test]
fn percentiles_come_from_the_sorted_latencies() {
    let latencies: Vec<u64> = (1..=200u64).rev().collect();
    let p = latency_percentiles(latencies.clone());
    // Sorted: 1..=200; positions 100, 180, 190, 198 and 199.
    assert_eq!(p.p50, 101);
    assert_eq!(p.p90, 181);
    assert_eq!(p.p95, 191);
    assert_eq!(p.p99, 199);
    assert_eq!(p.p999, 200);
    let none = latency_percentiles(Vec::new());
    assert_eq!(none.p50, 0);
    assert_eq!(none.p999, 0);
    assert_eq!(sort_ascending(vec![3, 1, 2, 1]), vec![1, 1, 2, 3]);
}

#[test]
fn the_connection_table_admits_up_to_its_limit() {
    let mut table = ConnectionTable::new(2);
    let now = Timestamp::from_nanos(5);
    let a = table.admit_at(TransportType::Tcp, now).unwrap();
    let b = table.admit_at(TransportType::Tcp, now).unwrap();
    assert_eq!((a, b), (1, 2));
    match table.admit_at(TransportType::Tcp, now) {
        Err(e) => assert_eq!(storage_text(e), "Too many connections: 2"),
        Ok(_) => panic!("admitted past the limit"),
    }
    table.record_sent_at(a, 10, Timestamp::from_nanos(6)).unwrap();
    table.record_received_at(a, 3, Timestamp::from_nanos(7)).unwrap();
    let s = table.get_connection_stats(a).unwrap();
    assert_eq!((s.bytes_sent, s.messages_sent, s.bytes_received, s.messages_received), (10, 1, 3, 1));
    assert_eq!(s.last_message_time, Some(Timestamp::from_nanos(7)));
    table.close(a).unwrap();
    table.remove(a);
    match table.get_connection_stats(a) {
        Err(e) => assert_eq!(storage_text(e), "Connection not found: 1"),
        Ok(_) => panic!("a removed connection is still there"),
    }
    let c = table.admit_at(TransportType::Udp, now).unwrap();
    assert_eq!(c, 3);
    let stats = table.get_stats();
    assert_eq!(stats.total_connections, 3);
    assert_eq!(stats.active_connections, 2);
    assert_eq!(stats.peak_connections, 2);
    assert_eq!(table.connection_ids(), vec![2, 3]);
    let _ = ConnectionState::Disconnected;
}

#[test]
fn retention_drops_only_the_expired_front() {
    let now = Timestamp::from_nanos(10_000_000_000);
    let cutoff = retention_cutoff(now, &Duration::from_secs(3)).unwrap();
    assert_eq!(cutoff, Timestamp::from_nanos(7_000_000_000));
    let stamps = vec![
        Timestamp::from_nanos(1),
        Timestamp::from_nanos(6_999_999_999),
        Timestamp::from_nanos(7_000_000_000),
        Timestamp::from_nanos(2),
    ];
    assert_eq!(expired_prefix(&stamps, cutoff), 2);
    assert_eq!(expired_prefix(&Vec::new(), cutoff), 0);
    assert_eq!(retention_cutoff(Timestamp::from_nanos(5), &Duration::from_secs(1)), None);
}

#[test]
fn high_levels_reach_deflate_and_gzip_as_their_highest() {
    let config = CompressionConfig { compression_level: 22, enable_adaptive: false, ..CompressionConfig::default() };
    let mut engine = CompressionEngine::new(config);
    let data = b"abcabcabcabcabcabcabcabcabcabc; ".repeat(64);
    let profile = DataProfile { low_entropy: false, high_entropy: false };
    for algorithm in [CompressionAlgorithm::Deflate, CompressionAlgorithm::Gzip] {
        let compressed = engine.compress(&data, Some(algorithm), &profile).unwrap();
        assert!(compressed.data.len() < data.len());
        assert_eq!(engine.decompress(&compressed).unwrap(), data);
    }
}

#[test]
fn latency_metrics_are_found_by_name() {
    assert!(is_latency_metric("latency"));
    assert!(is_latency_metric("produce_latency_us"));
    assert!(!is_latency_metric("system_cpu_usage"));
    assert!(!is_latency_metric("latenc"));
    assert!(!is_latency_metric(""));
}

#[test]
fn lz4_does_not_shorten_a_short_greeting() {
    // The greeting of the original LZ4 test: LZ4 finds no repeat in it, so
    // its block (with the four-byte length in front) is longer than the
    // text, whatever the threshold; it still reads back.
    let config = CompressionConfig {
        default_algorithm: CompressionAlgorithm::Lz4,
        compression_threshold: 0,
        enable_adaptive: false,
        ..Default::default()
    };
    let mut engine = CompressionEngine::new(config);
    let data = b"Hello, World! This is a test message for compression.";
    let profile = DataProfile { low_entropy: false, high_entropy: false };
    let compressed = engine.compress(data, None, &profile).unwrap();
    assert_eq!(compressed.algorithm, CompressionAlgorithm::Lz4);
    assert!(compressed.data.len() >= data.len());
    assert_eq!(engine.decompress(&compressed).unwrap(), data.to_vec());
}

#[test]
fn a_clock_before_the_epoch_reads_as_the_epoch() {
    assert_eq!(timestamp_from_reading(None), Timestamp::from_nanos(0));
    assert_eq!(timestamp_from_reading(Some(5)), Timestamp::from_nanos(5));
}
