use bytes::Bytes;

use messaging_kernel::broker::error::Error;
use messaging_kernel::broker::message::{Headers, Message, Offset};
use messaging_kernel::broker::parse::{parse_i32, parse_u64, IntErrorKind};
use messaging_kernel::broker::storage::{
    frame_record, join_path, partition_dir_id, record_length, segment_file_offset, sort_segments, Segment,
    StorageEngine,
};
use messaging_kernel::qiss::types::Timestamp;

fn storage_text(e: Error) -> String {
    match e {
        Error::Storage(s) => s,
        other => panic!("unexpected error {:?}", other),
    }
}

fn segment(path: &str, base: u64) -> Segment {
    Segment {
        file_path: path.to_string(),
        base_offset: Offset::new(base),
        next_offset: Offset::new(base),
        size: 0,
        created_at: Timestamp::from_nanos(0),
        last_modified: Timestamp::from_nanos(0),
    }
}

#[test]
fn test_storage_engine_creation() {
    let storage = StorageEngine::new("./test_data".to_string());
    let stats = storage.get_stats();

    assert_eq!(stats.total_segments, 0);
    assert_eq!(stats.total_size, 0);
    assert_eq!(stats.total_messages, 0);
}

#[test]
fn paths_are_joined_as_paths() {
    assert_eq!(join_path("./data", "topics"), "./data/topics");
    assert_eq!(join_path("./data/", "topics"), "./data/topics");
    assert_eq!(join_path("", "topics"), "topics");
    assert_eq!(join_path("./data", "/abs"), "/abs");
    let storage = StorageEngine::new("./data".to_string());
    assert_eq!(storage.partition_dir("orders", 3), "./data/topics/orders/partition-3");
    assert_eq!(storage.partition_dir("orders", -1), "./data/topics/orders/partition--1");
    assert_eq!(storage.queue_dir("jobs"), "./data/queues/jobs");
    assert_eq!(storage.topics_dir(), "./data/topics");
}

#[test]
fn writes_are_catalogued_and_found_again() {
    let mut storage = StorageEngine::new("./test_data".to_string());
    assert!(storage.current_segment("orders").is_none());
    let first = storage.new_segment_at("orders", 0, Offset::new(5), Timestamp::from_nanos(9));
    assert_eq!(first.file_path, "./test_data/topics/orders/partition-0/5.log");
    assert_eq!(first.base_offset, Offset::new(5));
    assert_eq!(first.created_at, Timestamp::from_nanos(9));
    // An empty segment is below the segment size, so writes go on to it.
    assert_eq!(storage.current_segment("orders").unwrap().file_path, first.file_path);

    let message = Message::with_timestamp(Bytes::from("test message"), Headers::new(), Timestamp::from_nanos(3));
    storage.update_index("orders", 0, Offset::new(5), 0, &message).unwrap();
    storage.update_index("orders", 0, Offset::new(6), 40, &message).unwrap();
    let entry = storage.get_index_entry("orders", 0, Offset::new(6)).unwrap().unwrap();
    assert_eq!(entry.position, 40);
    assert_eq!(entry.size, 12);
    assert_eq!(entry.timestamp, Timestamp::from_nanos(3));
    assert!(storage.get_index_entry("orders", 1, Offset::new(6)).unwrap().is_none());
    assert!(storage.get_index_entry("orders", 0, Offset::new(7)).unwrap().is_none());

    storage.new_segment_at("orders", 0, Offset::new(10), Timestamp::from_nanos(10));
    // The first segment beginning at or before the offset holds it.
    assert_eq!(storage.find_segment("orders", 0, Offset::new(12)).unwrap().unwrap().base_offset, Offset::new(5));
    assert!(storage.find_segment("orders", 0, Offset::new(4)).unwrap().is_none());
    assert!(storage.find_segment("payments", 0, Offset::new(12)).unwrap().is_none());

    let stats = storage.get_stats();
    assert_eq!(stats.total_segments, 2);
    assert_eq!(stats.total_size, 0);
    assert_eq!(stats.total_messages, 2);
    assert_eq!(stats.data_dir, "./test_data");
}

#[test]
fn loaded_segments_replace_a_topics_list_unless_empty() {
    let mut storage = StorageEngine::new("./d".to_string());
    storage.add_loaded_segments("t".to_string(), vec![segment("a", 0), segment("b", 7)]);
    storage.add_loaded_segments("t".to_string(), Vec::new());
    assert_eq!(storage.get_stats().total_segments, 2);
    let mut big = segment("c", 3);
    big.size = 100;
    storage.add_loaded_segments("t".to_string(), vec![big]);
    let stats = storage.get_stats();
    assert_eq!(stats.total_segments, 1);
    assert_eq!(stats.total_size, 100);
}

#[test]
fn records_are_length_prefixed() {
    assert_eq!(frame_record(&[1, 2, 3]), vec![3, 0, 0, 0, 1, 2, 3]);
    assert_eq!(frame_record(&[]), vec![0, 0, 0, 0]);
    assert_eq!(record_length(&[3, 1, 0, 0]), 259);
}

#[test]
fn partition_directories_name_their_number() {
    assert!(matches!(partition_dir_id("partition-7"), Some(Ok(7))));
    assert!(matches!(partition_dir_id("partition-+5"), Some(Ok(5))));
    assert!(matches!(partition_dir_id("partition--3"), Some(Ok(-3))));
    assert!(partition_dir_id("other").is_none());
    assert!(partition_dir_id("Partition-1").is_none());
    let err = |name: &str| storage_text(partition_dir_id(name).unwrap().unwrap_err());
    assert_eq!(err("partition-x"), "Invalid partition ID: invalid digit found in string");
    assert_eq!(err("partition-"), "Invalid partition ID: cannot parse integer from empty string");
    assert_eq!(err("partition--"), "Invalid partition ID: invalid digit found in string");
    assert_eq!(err("partition-99999999999"), "Invalid partition ID: number too large to fit in target type");
    assert_eq!(err("partition--99999999999"), "Invalid partition ID: number too small to fit in target type");
}

#[test]
fn segment_files_name_their_base_offset() {
    assert!(matches!(segment_file_offset("00012.log"), Some(Ok(12))));
    assert!(segment_file_offset("12.idx").is_none());
    let err = |name: &str| storage_text(segment_file_offset(name).unwrap().unwrap_err());
    assert_eq!(err("-1.log"), "Invalid segment file name: invalid digit found in string");
    assert_eq!(err(".log"), "Invalid segment file name: cannot parse integer from empty string");
    assert_eq!(err("18446744073709551616.log"), "Invalid segment file name: number too large to fit in target type");
}

#[test]
fn integers_are_read_as_the_standard_library_reads_them() {
    assert_eq!(parse_i32("2147483647"), Ok(2147483647));
    assert_eq!(parse_i32("-2147483648"), Ok(-2147483648));
    assert_eq!(parse_i32("2147483648"), Err(IntErrorKind::PosOverflow));
    assert_eq!(parse_i32("-2147483649"), Err(IntErrorKind::NegOverflow));
    assert_eq!(parse_i32("12a"), Err(IntErrorKind::InvalidDigit));
    assert_eq!(parse_i32("+"), Err(IntErrorKind::InvalidDigit));
    assert_eq!(parse_i32(""), Err(IntErrorKind::Empty));
    assert_eq!(parse_u64("18446744073709551615"), Ok(u64::MAX));
    assert_eq!(parse_u64("-0"), Err(IntErrorKind::InvalidDigit));
    assert_eq!(parse_u64("+0"), Ok(0));
    for text in ["0", "+17", "-17", "x", "", "-", "99999999999", "-99999999999", "1 2"] {
        assert_eq!(parse_i32(text).ok(), text.parse::<i32>().ok());
    }
}

#[test]
fn segments_sort_by_base_offset_keeping_ties_in_order() {
    let sorted = sort_segments(vec![segment("b", 10), segment("a", 5), segment("c", 10), segment("d", 1)]);
    let paths: Vec<&str> = sorted.iter().map(|s| s.file_path.as_str()).collect();
    assert_eq!(paths, vec!["d", "a", "b", "c"]);
}
