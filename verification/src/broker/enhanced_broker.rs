//! Settings of the enhanced broker: the performance levels and what each
//! tunes in the memory pool, the segment size, compression and the network.

use vstd::prelude::*;
use crate::broker::compression::CompressionConfig;
use crate::broker::memory::MemoryPoolConfig;

verus! {

/// Performance tuning level.
#[derive(Debug, Clone, Copy, PartialEq, Eq, Structural)]
pub enum PerformanceLevel {
    /// Balanced performance
    Balanced,
    /// High performance
    High,
    /// Maximum performance
    Maximum,
    /// Custom tuning
    Custom,
}

/// The settings a performance level tunes.
#[derive(Debug, Clone, Copy)]
pub struct TunedSettings {
    /// Memory pool configuration
    pub memory_pool: MemoryPoolConfig,
    /// Segment size of the segment storage
    pub segment_size: usize,
    /// Compression configuration
    pub compression: CompressionConfig,
    /// Maximum network connections
    pub max_connections: usize,
    /// Enable zero-copy network operations
    pub enable_zero_copy: bool,
    /// Enable scatter-gather network I/O
    pub enable_scatter_gather: bool,
    /// Enable kernel bypass
    pub enable_kernel_bypass: bool,
    /// Enable RDMA
    pub enable_rdma: bool,
}

/// `s` tuned for `level`: balanced sets a 32 MiB pool of at most 512 MiB,
/// 512 MiB segments, compression level 6 and 5000 connections; high sets a
/// 64 MiB pool of at most 1 GiB, 1 GiB segments, level 3, 10000 connections,
/// zero copy and scatter-gather; maximum sets a 128 MiB pool of at most
/// 2 GiB, 2 GiB segments, level 1, 20000 connections, zero copy,
/// scatter-gather, kernel bypass, RDMA, SIMD and NUMA awareness; custom
/// leaves everything as it is.
pub open spec fn tuned(level: PerformanceLevel, s: TunedSettings) -> TunedSettings {
    match level {
        PerformanceLevel::Balanced => TunedSettings {
            memory_pool: MemoryPoolConfig {
                initial_size: (32 * 1024 * 1024) as usize,
                max_size: (512 * 1024 * 1024) as usize,
                ..s.memory_pool
            },
            segment_size: (512 * 1024 * 1024) as usize,
            compression: CompressionConfig { compression_level: 6u8, ..s.compression },
            max_connections: 5000usize,
            ..s
        },
        PerformanceLevel::High => TunedSettings {
            memory_pool: MemoryPoolConfig {
                initial_size: (64 * 1024 * 1024) as usize,
                max_size: (1024 * 1024 * 1024) as usize,
                ..s.memory_pool
            },
            segment_size: (1024 * 1024 * 1024) as usize,
            compression: CompressionConfig { compression_level: 3u8, ..s.compression },
            max_connections: 10000usize,
            enable_zero_copy: true,
            enable_scatter_gather: true,
            ..s
        },
        PerformanceLevel::Maximum => TunedSettings {
            memory_pool: MemoryPoolConfig {
                initial_size: (128 * 1024 * 1024) as usize,
                max_size: (2048 * 1024 * 1024) as usize,
                simd_enabled: true,
                numa_aware: true,
                ..s.memory_pool
            },
            segment_size: (2048 * 1024 * 1024) as usize,
            compression: CompressionConfig { compression_level: 1u8, ..s.compression },
            max_connections: 20000usize,
            enable_zero_copy: true,
            enable_scatter_gather: true,
            enable_kernel_bypass: true,
            enable_rdma: true,
            ..s
        },
        PerformanceLevel::Custom => s,
    }
}

/// Apply the performance optimizations of `level` to `settings`.
pub fn apply_performance_optimizations(level: PerformanceLevel, settings: TunedSettings) -> (r: TunedSettings)
    ensures
        r == tuned(level, settings),
{
    let mut s = settings;
    match level {
        PerformanceLevel::Balanced => {
            s.memory_pool.initial_size = 32 * 1024 * 1024;
            s.memory_pool.max_size = 512 * 1024 * 1024;
            s.segment_size = 512 * 1024 * 1024;
            s.compression.compression_level = 6;
            s.max_connections = 5000;
        },
        PerformanceLevel::High => {
            s.memory_pool.initial_size = 64 * 1024 * 1024;
            s.memory_pool.max_size = 1024 * 1024 * 1024;
            s.segment_size = 1024 * 1024 * 1024;
            s.compression.compression_level = 3;
            s.max_connections = 10000;
            s.enable_zero_copy = true;
            s.enable_scatter_gather = true;
        },
        PerformanceLevel::Maximum => {
            s.memory_pool.initial_size = 128 * 1024 * 1024;
            s.memory_pool.max_size = 2048 * 1024 * 1024;
            s.segment_size = 2048 * 1024 * 1024;
            s.compression.compression_level = 1;
            s.max_connections = 20000;
            s.enable_zero_copy = true;
            s.enable_scatter_gather = true;
            s.enable_kernel_bypass = true;
            s.enable_rdma = true;
            s.memory_pool.simd_enabled = true;
            s.memory_pool.numa_aware = true;
        },
        PerformanceLevel::Custom => {},
    }
    s
}

/// Whether a message of `size` bytes is compressed: when it is larger than
/// the compression threshold.
pub fn should_compress(size: usize, compression: &CompressionConfig) -> (b: bool)
    ensures
        b == (size > compression.compression_threshold),
{
    size > compression.compression_threshold
}

/// Tuning twice for the same level is tuning once.
pub proof fn lemma_tuning_idempotent(level: PerformanceLevel, s: TunedSettings)
    ensures
        tuned(level, tuned(level, s)) == tuned(level, s),
{
}

} // verus!
