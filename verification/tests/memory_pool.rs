use messaging_kernel::broker::memory::{MemoryError, MemoryPool, MemoryPoolConfig};
use messaging_kernel::qiss::types::Timestamp;

#[test]
fn test_memory_pool_creation() {
    let config = MemoryPoolConfig::default();
    let pool = MemoryPool::new(config);
    let stats = pool.get_stats();

    assert_eq!(stats.total_allocations, 0);
    assert_eq!(stats.current_allocated, 0);
}

#[test]
fn test_memory_allocation() {
    let config = MemoryPoolConfig {
        initial_size: 1024 * 1024, // 1MB
        max_size: 10 * 1024 * 1024, // 10MB
        ..Default::default()
    };
    let mut pool = MemoryPool::new(config);

    let block = pool.allocate(1024).unwrap();
    assert_eq!(block.size(), 1024);

    let stats = pool.get_stats();
    assert_eq!(stats.total_allocations, 1);
    assert_eq!(stats.current_allocated, 1024);
}

#[test]
fn test_memory_deallocation() {
    let config = MemoryPoolConfig {
        initial_size: 1024 * 1024, // 1MB
        max_size: 10 * 1024 * 1024, // 10MB
        ..Default::default()
    };
    let mut pool = MemoryPool::new(config);

    let block = pool.allocate(1024).unwrap();
    pool.deallocate(block);

    let stats = pool.get_stats();
    assert_eq!(stats.total_allocations, 1);
    assert_eq!(stats.total_deallocations, 1);
    assert_eq!(stats.current_allocated, 0);
}

#[test]
fn test_zero_copy_bytes() {
    let config = MemoryPoolConfig::default();
    let mut pool = MemoryPool::new(config);

    let mut block = pool.allocate(1024).unwrap();
    let data = b"Hello, World!";
    block.as_mut_slice()[..data.len()].copy_from_slice(data);

    let bytes = pool.create_bytes(&block);
    assert_eq!(&bytes[..data.len()], data);
}

fn small_pool() -> MemoryPool {
    MemoryPool::new(MemoryPoolConfig {
        initial_size: 4 * 4096 * 2,
        max_size: 1 << 20,
        chunk_size: 4096,
        numa_aware: false,
        simd_enabled: false,
        alignment: 64,
        prewarm: true,
    })
}

#[test]
fn sizes_are_rounded_up_to_the_alignment() {
    let mut pool = small_pool();
    assert_eq!(pool.allocate_at(1, Timestamp::from_nanos(0)).unwrap().size(), 64);
    assert_eq!(pool.allocate_at(64, Timestamp::from_nanos(0)).unwrap().size(), 64);
    assert_eq!(pool.allocate_at(65, Timestamp::from_nanos(0)).unwrap().size(), 128);
}

#[test]
fn prewarmed_chunks_are_hits_and_given_back_chunks_are_reused() {
    let mut pool = small_pool();
    // Two chunks of 4096 were prewarmed.
    let a = pool.allocate_at(4096, Timestamp::from_nanos(0)).unwrap();
    let b = pool.allocate_at(4096, Timestamp::from_nanos(0)).unwrap();
    let stats = pool.get_stats();
    assert_eq!((stats.cache_hits, stats.cache_misses, stats.total_allocations), (2, 0, 0));
    let c = pool.allocate_at(4096, Timestamp::from_nanos(0)).unwrap();
    let stats = pool.get_stats();
    assert_eq!((stats.cache_hits, stats.cache_misses, stats.total_allocations), (2, 1, 1));
    assert_eq!(pool.current_size(), 4096);

    let mut d = pool.allocate_at(100, Timestamp::from_nanos(0)).unwrap();
    d.as_mut_slice()[0] = 7;
    pool.deallocate(d);
    let again = pool.allocate_at(128, Timestamp::from_nanos(0)).unwrap();
    // The block given back comes out again, bytes and all.
    assert_eq!(again.as_slice()[0], 7);
    let stats = pool.get_stats();
    assert_eq!(stats.cache_hits, 3);
    assert_eq!(stats.peak_allocated, 4096 + 128);
    drop((a, b, c));
}

#[test]
fn giving_back_an_unallocated_chunk_wraps_the_size() {
    let mut pool = small_pool();
    let a = pool.allocate_at(4096, Timestamp::from_nanos(0)).unwrap();
    pool.deallocate(a);
    // A prewarmed chunk was never counted in, so the count wraps below zero.
    assert_eq!(pool.current_size(), usize::MAX - 4095);
    assert_eq!(pool.get_stats().current_allocated, 0);
}

#[test]
fn garbage_collection_drops_old_free_chunks() {
    let mut pool = small_pool();
    let a = pool.allocate_at(200, Timestamp::from_nanos(0)).unwrap();
    let _b = pool.allocate_at(300, Timestamp::from_nanos(0)).unwrap();
    pool.deallocate(a);
    pool.garbage_collect_at(Timestamp::from_nanos(301 * 1_000_000_000));
    assert_eq!(pool.get_stats().gc_runs, 1);
    // The free lists are empty: the next allocation of either size misses.
    let misses = pool.get_stats().cache_misses;
    let _c = pool.allocate_at(4096, Timestamp::from_nanos(0)).unwrap();
    assert_eq!(pool.get_stats().cache_misses, misses + 1);
}

#[test]
fn oversized_chunks_cannot_be_laid_out() {
    let mut pool = small_pool();
    match pool.allocate_at(isize::MAX as usize - 10, Timestamp::from_nanos(0)) {
        Err(e) => assert_eq!(e, MemoryError::AllocationFailed),
        Ok(_) => panic!("an oversized chunk was laid out"),
    }
    assert_eq!(pool.get_stats().cache_misses, 1);
}

#[test]
fn bytes_are_copied_out_of_blocks() {
    let mut pool = small_pool();
    let mut block = pool.allocate_at(64, Timestamp::from_nanos(0)).unwrap();
    block.as_mut_slice()[..3].copy_from_slice(b"abc");
    assert_eq!(&pool.create_bytes(&block)[..3], b"abc");
    assert_eq!(&pool.create_bytes_mut(&block)[..3], b"abc");
    assert_eq!(pool.create_bytes(&block).len(), 64);
}
