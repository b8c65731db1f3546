use messaging_kernel::broker::compression::CompressionConfig;
use messaging_kernel::broker::enhanced_broker::{
    apply_performance_optimizations, should_compress, PerformanceLevel, TunedSettings,
};
use messaging_kernel::broker::memory::MemoryPoolConfig;

fn settings() -> TunedSettings {
    TunedSettings {
        memory_pool: MemoryPoolConfig::default(),
        segment_size: 7,
        compression: CompressionConfig::default(),
        max_connections: 10000,
        enable_zero_copy: false,
        enable_scatter_gather: false,
        enable_kernel_bypass: false,
        enable_rdma: false,
    }
}

#[test]
fn balanced_tuning_keeps_the_network_flags() {
    let t = apply_performance_optimizations(PerformanceLevel::Balanced, settings());
    assert_eq!(t.memory_pool.initial_size, 32 * 1024 * 1024);
    assert_eq!(t.memory_pool.max_size, 512 * 1024 * 1024);
    assert_eq!(t.segment_size, 512 * 1024 * 1024);
    assert_eq!(t.compression.compression_level, 6);
    assert_eq!(t.max_connections, 5000);
    assert!(!t.enable_zero_copy && !t.enable_scatter_gather);
}

#[test]
fn high_and_maximum_tuning_turn_on_the_fast_paths() {
    let h = apply_performance_optimizations(PerformanceLevel::High, settings());
    assert_eq!(h.segment_size, 1024 * 1024 * 1024);
    assert_eq!(h.compression.compression_level, 3);
    assert_eq!(h.max_connections, 10000);
    assert!(h.enable_zero_copy && h.enable_scatter_gather && !h.enable_rdma);
    let mut base = settings();
    base.memory_pool.numa_aware = false;
    let m = apply_performance_optimizations(PerformanceLevel::Maximum, base);
    assert_eq!(m.memory_pool.initial_size, 128 * 1024 * 1024);
    assert_eq!(m.memory_pool.max_size, 2048 * 1024 * 1024);
    assert_eq!(m.compression.compression_level, 1);
    assert_eq!(m.max_connections, 20000);
    assert!(m.enable_kernel_bypass && m.enable_rdma && m.memory_pool.numa_aware);
}

#[test]
fn custom_tuning_changes_nothing() {
    let c = apply_performance_optimizations(PerformanceLevel::Custom, settings());
    assert_eq!(c.segment_size, 7);
    assert_eq!(c.compression.compression_level, 6);
    assert_eq!(c.max_connections, 10000);
}

#[test]
fn messages_above_the_threshold_are_compressed() {
    let config = CompressionConfig::default();
    assert!(!should_compress(1024, &config));
    assert!(should_compress(1025, &config));
}
