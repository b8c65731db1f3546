use bytes::Bytes;

use messaging_kernel::broker::error::Error;
use messaging_kernel::broker::memory::MemoryPoolConfig;
use messaging_kernel::broker::message::{Headers, Message, Offset};
use messaging_kernel::broker::segment_storage::{
    check_read_fits, check_write_fits, compress_record, counts_fit, decompress_record, read_size,
    CompressionAlgorithm, IndexEntry, SegmentStorage, SegmentStorageConfig,
};
use messaging_kernel::qiss::types::Timestamp;

fn storage_text(e: Error) -> String {
    match e {
        Error::Storage(s) => s,
        other => panic!("unexpected error {:?}", other),
    }
}

fn config() -> SegmentStorageConfig {
    SegmentStorageConfig {
        data_dir: "./test_data".to_string(),
        segment_size: 64,
        memory_pool_config: MemoryPoolConfig { prewarm: false, ..MemoryPoolConfig::default() },
        ..Default::default()
    }
}

#[test]
fn segment_storage_config_defaults() {
    let c = SegmentStorageConfig::default();
    assert_eq!(c.data_dir, "./data");
    assert_eq!(c.segment_size, 1024 * 1024 * 1024);
    assert_eq!(c.index_interval, 4096);
    assert!(c.enable_mmap && c.enable_compression && !c.sync_on_write);
    assert_eq!(c.compression_algorithm, CompressionAlgorithm::Lz4);
}

#[test]
fn segment_files_are_numbered_in_twenty_digits() {
    let s = SegmentStorage::new(config());
    assert_eq!(SegmentStorage::segment_key("orders", 3), "orders:3");
    assert_eq!(s.segment_dir("orders:3"), "./test_data/segments/orders:3");
    assert_eq!(s.segment_file("orders:3", 7), "./test_data/segments/orders:3/00000000000000000007.log");
    assert_eq!(s.segment_file("k", u64::MAX), "./test_data/segments/k/18446744073709551615.log");
}

#[test]
fn writes_advance_the_segment_and_are_indexed() {
    let mut s = SegmentStorage::new(config());
    assert!(s.current_segment("t:0").is_none());
    let id = s.take_segment_id();
    assert_eq!(id, 0);
    assert_eq!(s.take_segment_id(), 1);
    let h = s.add_segment_at("t:0", id, Offset::new(5), Timestamp::from_nanos(2));
    assert_eq!(h.write_position, 0);
    assert_eq!(h.metadata.base_offset, Offset::new(5));
    assert_eq!(h.metadata.compression, CompressionAlgorithm::Lz4);
    let message = Message::with_timestamp(Bytes::from("hello"), Headers::new(), Timestamp::from_nanos(4));
    s.record_write_at("t:0", Offset::new(5), 30, &message, Some(30), Timestamp::from_nanos(6));
    s.record_write_at("t:0", Offset::new(6), 40, &message, None, Timestamp::from_nanos(7));
    let after = s.find_segment("t:0").unwrap();
    assert_eq!(after.write_position, 70);
    assert_eq!(after.metadata.size, 70);
    assert_eq!(after.metadata.message_count, 2);
    assert_eq!(after.metadata.next_offset, Offset::new(7));
    assert_eq!(after.metadata.last_modified, Timestamp::from_nanos(7));
    // At 70 bytes the segment is full: writes need a new one.
    assert!(s.current_segment("t:0").is_none());
    let entry = s.get_index_entry("t:0", Offset::new(6)).unwrap();
    assert_eq!(entry.position, 30);
    assert_eq!(entry.size, 5);
    assert_eq!(entry.compressed_size, None);
    assert!(s.get_index_entry("t:0", Offset::new(9)).is_none());
    let stats = s.get_stats();
    assert_eq!(stats.total_segments, 1);
    assert_eq!(stats.active_segments, 1);
}

#[test]
fn latencies_are_averaged() {
    let mut s = SegmentStorage::new(config());
    s.update_write_stats(10, 100);
    s.update_write_stats(20, 201);
    let stats = s.get_stats();
    assert_eq!(stats.total_messages_written, 2);
    assert_eq!(stats.total_bytes_written, 30);
    assert_eq!(stats.avg_write_latency_us, 150);
    s.update_read_stats(5, 9);
    assert_eq!(s.get_stats().avg_read_latency_us, 9);
    assert!(counts_fit(0, 0, 0, 1, 1));
    assert!(!counts_fit(u64::MAX, 0, 0, 1, 1));
    assert!(!counts_fit(1, u64::MAX, 0, 1, 1));
    assert!(!counts_fit(2, 0, u64::MAX / 2, 1, 2));
}

#[test]
fn records_come_back_from_every_compression() {
    let data: Vec<u8> = b"segment record ".iter().cycle().take(3000).cloned().collect();
    for algorithm in [
        CompressionAlgorithm::Uncompressed,
        CompressionAlgorithm::Lz4,
        CompressionAlgorithm::Zstd,
        CompressionAlgorithm::Brotli,
        CompressionAlgorithm::Snappy,
    ] {
        let (stored, size) = compress_record(algorithm, &data).unwrap();
        if algorithm == CompressionAlgorithm::Uncompressed {
            assert_eq!(size, None);
            assert_eq!(stored, data);
        } else {
            assert_eq!(size, Some(stored.len() as u32));
            assert!(stored.len() < data.len());
        }
        assert_eq!(decompress_record(algorithm, &stored).unwrap(), data);
    }
}

#[test]
fn mapped_segments_bound_reads_and_writes() {
    assert!(check_write_fits(60, 4, 64).is_ok());
    assert_eq!(storage_text(check_write_fits(61, 4, 64).unwrap_err()), "Segment overflow");
    assert!(check_read_fits(0, 64, 64).is_ok());
    assert_eq!(storage_text(check_read_fits(1, 64, 64).unwrap_err()), "Read beyond segment");
    let entry = IndexEntry {
        offset: Offset::new(1),
        position: 0,
        size: 12,
        timestamp: Timestamp::from_nanos(0),
        compressed_size: Some(9),
    };
    assert_eq!(read_size(&entry), 9);
    assert_eq!(read_size(&IndexEntry { compressed_size: None, ..entry }), 12);
}
