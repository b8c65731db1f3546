//! A pool of memory chunks: blocks are handed out from chunks of the same
//! aligned size that were given back, or from new chunks; statistics count
//! the allocations, and garbage collection drops the chunks unused for too
//! long. Each chunk's memory is a buffer that moves between the pool and
//! the block that holds it.

use vstd::prelude::*;
use bytes::{Bytes, BytesMut};
use crate::broker::time::age;
use crate::qiss::buffer::{bytes_from_vec, bytes_mut_put_slice, bytes_mut_view, bytes_mut_with_capacity, bytes_view};
use crate::qiss::types::Timestamp;

verus! {

/// Memory pool configuration (the garbage-collection threshold, a
/// fraction, is applied by the caller).
#[derive(Debug, Clone, Copy)]
pub struct MemoryPoolConfig {
    /// Initial pool size in bytes
    pub initial_size: usize,
    /// Maximum pool size in bytes
    pub max_size: usize,
    /// Chunk size for allocations
    pub chunk_size: usize,
    /// Enable NUMA awareness
    pub numa_aware: bool,
    /// Enable SIMD optimizations
    pub simd_enabled: bool,
    /// Memory alignment (must be power of 2)
    pub alignment: usize,
    /// Enable memory prewarming
    pub prewarm: bool,
}

impl Default for MemoryPoolConfig {
    fn default() -> (c: Self)
        ensures
            c.initial_size == 64 * 1024 * 1024,
            c.max_size == 1024 * 1024 * 1024,
            c.chunk_size == 4096,
            c.numa_aware,
            c.simd_enabled,
            c.alignment == 64,
            c.prewarm,
    {
        MemoryPoolConfig {
            initial_size: 64 * 1024 * 1024,
            max_size: 1024 * 1024 * 1024,
            chunk_size: 4096,
            numa_aware: true,
            simd_enabled: true,
            alignment: 64,
            prewarm: true,
        }
    }
}

/// Memory allocation statistics.
#[derive(Debug, Clone, Copy, PartialEq, Eq, Structural)]
pub struct MemoryStats {
    /// Total allocations
    pub total_allocations: u64,
    /// Total deallocations
    pub total_deallocations: u64,
    /// Current allocated size
    pub current_allocated: usize,
    /// Peak allocated size
    pub peak_allocated: usize,
    /// Allocation failures
    pub allocation_failures: u64,
    /// Cache hits
    pub cache_hits: u64,
    /// Cache misses
    pub cache_misses: u64,
    /// Garbage collection runs
    pub gc_runs: u64,
}

/// Statistics with every count at zero.
pub open spec fn no_stats() -> MemoryStats {
    MemoryStats {
        total_allocations: 0,
        total_deallocations: 0,
        current_allocated: 0,
        peak_allocated: 0,
        allocation_failures: 0,
        cache_hits: 0,
        cache_misses: 0,
        gc_runs: 0,
    }
}

impl Default for MemoryStats {
    fn default() -> (s: Self)
        ensures
            s == no_stats(),
    {
        MemoryStats {
            total_allocations: 0,
            total_deallocations: 0,
            current_allocated: 0,
            peak_allocated: 0,
            allocation_failures: 0,
            cache_hits: 0,
            cache_misses: 0,
            gc_runs: 0,
        }
    }
}

/// What the pool records of a chunk it allocated.
#[derive(Debug, Clone, Copy, PartialEq, Eq, Structural)]
pub struct ChunkInfo {
    /// The chunk's number
    pub id: u128,
    /// Size of the chunk
    pub size: usize,
    /// Whether the chunk is in use
    pub in_use: bool,
    /// Allocation time
    pub allocated_at: Timestamp,
    /// Last access time
    pub last_accessed: Timestamp,
    /// NUMA node ID
    pub numa_node: Option<u32>,
}

/// A chunk given back to the pool, with its memory.
#[derive(Debug)]
pub struct FreeChunk {
    id: u128,
    memory: Vec<u8>,
}

/// The number and memory of a free chunk.
pub open spec fn free_view(c: FreeChunk) -> (u128, Seq<u8>) {
    (c.spec_id(), c.spec_memory())
}

impl FreeChunk {
    /// The chunk's number.
    pub closed spec fn spec_id(&self) -> u128 {
        self.id
    }

    /// The chunk's memory.
    pub closed spec fn spec_memory(&self) -> Seq<u8> {
        self.memory@
    }
}

/// The free chunks of one size, the last given back last.
#[derive(Debug)]
struct SizeClass {
    size: usize,
    chunks: Vec<FreeChunk>,
}

/// NUMA topology information.
#[derive(Debug)]
struct NumaTopology {
    node_count: u32,
    current_node: u32,
    distances: Vec<Vec<u32>>,
}

/// A block of memory handed out by the pool.
#[derive(Debug)]
pub struct MemoryBlock {
    chunk: u128,
    memory: Vec<u8>,
    size: usize,
}

impl MemoryBlock {
    /// The number of the chunk the block's memory belongs to.
    pub closed spec fn chunk_id(&self) -> u128 {
        self.chunk
    }

    /// The block's bytes.
    pub closed spec fn spec_bytes(&self) -> Seq<u8> {
        self.memory@
    }

    /// The block's size.
    pub closed spec fn spec_size(&self) -> nat {
        self.size as nat
    }

    /// The size of the block.
    pub fn size(&self) -> (n: usize)
        ensures
            n == self.spec_size(),
    {
        self.size
    }

    /// The block's bytes.
    pub fn as_slice(&self) -> (s: &[u8])
        ensures
            s@ == self.spec_bytes(),
    {
        self.memory.as_slice()
    }

    /// The block's bytes, to write to.
    pub fn as_mut_slice(&mut self) -> (s: &mut [u8])
        ensures
            s@ == old(self).spec_bytes(),
            final(self).spec_bytes() == final(s)@,
            final(self).spec_size() == old(self).spec_size(),
            final(self).chunk_id() == old(self).chunk_id(),
    {
        self.memory.as_mut_slice()
    }
}

/// Memory error types.
#[derive(Debug, Clone, Copy, PartialEq, Eq, Structural)]
pub enum MemoryError {
    /// Memory allocation failed
    AllocationFailed,
    /// Invalid memory block
    InvalidBlock,
    /// Memory pool exhausted
    PoolExhausted,
    /// NUMA operation failed
    NumaError,
}

impl MemoryError {
    /// The error's message.
    pub fn message(&self) -> (s: String)
        ensures
            s@ == match *self {
                MemoryError::AllocationFailed => "Memory allocation failed"@,
                MemoryError::InvalidBlock => "Invalid memory block"@,
                MemoryError::PoolExhausted => "Memory pool exhausted"@,
                MemoryError::NumaError => "NUMA operation failed"@,
            },
    {
        match self {
            MemoryError::AllocationFailed => "Memory allocation failed".to_string(),
            MemoryError::InvalidBlock => "Invalid memory block".to_string(),
            MemoryError::PoolExhausted => "Memory pool exhausted".to_string(),
            MemoryError::NumaError => "NUMA operation failed".to_string(),
        }
    }
}

/// `size` rounded up by the alignment: `(size + alignment - 1)` with the
/// bits below the alignment cleared, which is the next multiple of the
/// alignment when it is a power of two.
pub open spec fn aligned_size(size: usize, alignment: usize) -> usize {
    ((size + alignment - 1) as usize) & !((alignment - 1) as usize)
}

/// The largest chunk the pool can lay out: one whose size, rounded up to a
/// cache line, still fits in an `isize`.
pub open spec fn chunk_fits(size: usize) -> bool {
    size <= isize::MAX - 63
}

/// Chunks unused for longer than this many nanoseconds are collected.
pub open spec fn max_chunk_age() -> u128 {
    300_000_000_000u128
}

/// A chunk is expired at `now` when it is not in use and was last
/// accessed more than five minutes before.
pub open spec fn expired(c: ChunkInfo, now: Timestamp) -> bool {
    !c.in_use && age(now, c.last_accessed) > max_chunk_age()
}

/// The chunks of `s` not expired at `now`, in order.
pub open spec fn unexpired(s: Seq<ChunkInfo>, now: Timestamp) -> Seq<ChunkInfo>
    decreases s.len(),
{
    if s.len() == 0 {
        s
    } else {
        let r = unexpired(s.drop_last(), now);
        if expired(s.last(), now) {
            r
        } else {
            r.push(s.last())
        }
    }
}

/// The chunks `s` with the first one numbered `id` marked free.
pub open spec fn marked_free(s: Seq<ChunkInfo>, id: u128) -> Seq<ChunkInfo>
    decreases s.len(),
{
    if s.len() == 0 {
        s
    } else if s[0].id == id {
        seq![ChunkInfo { in_use: false, ..s[0] }] + s.drop_first()
    } else {
        seq![s[0]] + marked_free(s.drop_first(), id)
    }
}

/// `n` zero bytes.
pub open spec fn zeros(n: nat) -> Seq<u8> {
    Seq::new(n, |i: int| 0u8)
}

/// High-performance memory pool.
#[derive(Debug)]
pub struct MemoryPool {
    config: MemoryPoolConfig,
    classes: Vec<SizeClass>,
    all_chunks: Vec<ChunkInfo>,
    current_size: usize,
    stats: MemoryStats,
    numa_topology: Option<NumaTopology>,
    next_id: u128,
}

impl MemoryPool {
    /// The configuration.
    pub closed spec fn spec_config(&self) -> MemoryPoolConfig {
        self.config
    }

    /// The free chunks of each size, with their memory, the last given back
    /// last.
    pub closed spec fn free(&self) -> Map<usize, Seq<(u128, Seq<u8>)>> {
        Map::new(
            |size: usize| exists|i: int| 0 <= i < self.classes@.len() && self.classes@[i].size == size,
            |size: usize|
                self.classes@[choose|i: int| 0 <= i < self.classes@.len() && self.classes@[i].size == size].chunks@.map_values(
                    |c: FreeChunk| free_view(c),
                ),
        )
    }

    /// The free chunks of `size`, the last given back last.
    pub open spec fn free_of(&self, size: usize) -> Seq<(u128, Seq<u8>)> {
        if self.free().contains_key(size) {
            self.free()[size]
        } else {
            Seq::empty()
        }
    }

    /// The chunks allocated and not collected, in order of allocation.
    pub closed spec fn chunks(&self) -> Seq<ChunkInfo> {
        self.all_chunks@
    }

    /// The number of bytes counted as allocated by the pool (wrapping).
    pub closed spec fn spec_current_size(&self) -> usize {
        self.current_size
    }

    /// The statistics.
    pub closed spec fn spec_stats(&self) -> MemoryStats {
        self.stats
    }

    /// The number the next new chunk gets.
    pub closed spec fn next_chunk(&self) -> u128 {
        self.next_id
    }

    /// The NUMA node new chunks are placed on.
    pub closed spec fn numa_node(&self) -> Option<u32> {
        match self.numa_topology {
            Some(t) => Some(t.current_node),
            None => None,
        }
    }

    /// No size occurs twice among the free lists, and chunk numbers stay
    /// within what 128 bits hold.
    pub closed spec fn wf(&self) -> bool {
        &&& forall|i: int, j: int| 0 <= i < j < self.classes@.len() ==> self.classes@[i].size != self.classes@[j].size
        &&& self.next_id <= usize::MAX + u64::MAX + self.stats.total_allocations
    }

    /// `self` and `other` have the same configuration and topology.
    pub closed spec fn same_setup(&self, other: &MemoryPool) -> bool {
        &&& self.config == other.config
        &&& self.numa_topology == other.numa_topology
    }

    /// Create a new memory pool; with prewarming, a quarter of the initial
    /// size is laid out in free chunks of the chunk size.
    pub fn new(config: MemoryPoolConfig) -> (p: Self)
        requires
            config.prewarm ==> config.chunk_size > 0,
        ensures
            p.wf(),
            p.spec_config() == config,
            p.numa_node() == if config.numa_aware {
                Some(0u32)
            } else {
                None
            },
            p.chunks() == Seq::<ChunkInfo>::empty(),
            p.spec_current_size() == 0,
            p.spec_stats() == no_stats(),
            config.prewarm && chunk_fits(config.chunk_size) ==> {
                let n = (config.initial_size / 4 / config.chunk_size) as nat;
                &&& p.free() == (if n == 0 {
                    Map::<usize, Seq<(u128, Seq<u8>)>>::empty()
                } else {
                    Map::empty().insert(
                        config.chunk_size,
                        Seq::new(n, |i: int| (i as u128, zeros(config.chunk_size as nat))),
                    )
                })
                &&& p.next_chunk() == n
            },
            !(config.prewarm && chunk_fits(config.chunk_size)) ==> p.free() == Map::<usize, Seq<(u128, Seq<u8>)>>::empty()
                && p.next_chunk() == 0,
    {
        let numa_topology = if config.numa_aware {
            Some(NumaTopology { node_count: 2, current_node: 0, distances: vec![vec![10, 20], vec![20, 10]] })
        } else {
            None
        };
        let mut pool = MemoryPool {
            config,
            classes: Vec::new(),
            all_chunks: Vec::new(),
            current_size: 0,
            stats: MemoryStats::default(),
            numa_topology,
            next_id: 0,
        };
        assert(pool.free() =~= Map::<usize, Seq<(u128, Seq<u8>)>>::empty());
        if pool.config.prewarm {
            pool.prewarm_memory();
        }
        pool
    }

    fn prewarm_memory(&mut self)
        requires
            old(self).config.chunk_size > 0,
            old(self).classes@.len() == 0,
            old(self).next_id == 0,
            old(self).stats == no_stats(),
        ensures
            final(self).wf(),
            final(self).config == old(self).config,
            final(self).numa_topology == old(self).numa_topology,
            final(self).all_chunks == old(self).all_chunks,
            final(self).current_size == old(self).current_size,
            final(self).stats == old(self).stats,
            chunk_fits(old(self).config.chunk_size) ==> {
                let n = (old(self).config.initial_size / 4 / old(self).config.chunk_size) as nat;
                &&& final(self).free() == (if n == 0 {
                    Map::<usize, Seq<(u128, Seq<u8>)>>::empty()
                } else {
                    Map::empty().insert(
                        old(self).config.chunk_size,
                        Seq::new(n, |i: int| (i as u128, zeros(old(self).config.chunk_size as nat))),
                    )
                })
                &&& final(self).next_id == n
            },
            !chunk_fits(old(self).config.chunk_size) ==> final(self).free() == Map::<usize, Seq<(u128, Seq<u8>)>>::empty()
                && final(self).next_id == 0,
    {
        let chunk_size = self.config.chunk_size;
        let chunk_count = self.config.initial_size / 4 / chunk_size;
        if chunk_size > (isize::MAX as usize) - 63 {
            assert(self.free() =~= Map::<usize, Seq<(u128, Seq<u8>)>>::empty());
            return;
        }
        if chunk_count == 0 {
            assert(self.free() =~= Map::<usize, Seq<(u128, Seq<u8>)>>::empty());
            return;
        }
        let mut chunks: Vec<FreeChunk> = Vec::new();
        let mut k: usize = 0;
        while k < chunk_count
            invariant
                k <= chunk_count,
                chunk_count <= usize::MAX,
                self.next_id == k,
                self.config == old(self).config,
                self.config.chunk_size == chunk_size,
                self.classes@.len() == 0,
                self.all_chunks == old(self).all_chunks,
                self.current_size == old(self).current_size,
                self.stats == old(self).stats,
                self.numa_topology == old(self).numa_topology,
                chunks@.map_values(|c: FreeChunk| free_view(c)) =~= Seq::new(k as nat, |i: int| (i as u128, zeros(chunk_size as nat))),
            decreases chunk_count - k,
        {
            let memory = zeroed_memory(chunk_size);
            let ghost before = chunks@;
            chunks.push(FreeChunk { id: self.next_id, memory });
            self.next_id = self.next_id + 1;
            assert(chunks@.map_values(|c: FreeChunk| free_view(c)) =~= before.map_values(|c: FreeChunk| free_view(c)).push(((k as u128), zeros(chunk_size as nat))));
            k = k + 1;
        }
        let ghost list = chunks@;
        self.classes.push(SizeClass { size: chunk_size, chunks });
        proof {
            let expected = Map::<usize, Seq<(u128, Seq<u8>)>>::empty().insert(
                chunk_size,
                Seq::new(chunk_count as nat, |i: int| (i as u128, zeros(chunk_size as nat))),
            );
            assert(self.classes@[0].size == chunk_size);
            assert(self.free().contains_key(chunk_size));
            assert(self.free() =~= expected);
        }
    }
}

impl MemoryPool {
    fn find_class(&self, size: usize) -> (r: Option<usize>)
        ensures
            match r {
                Some(i) => i < self.classes@.len() && self.classes@[i as int].size == size,
                None => forall|i: int| 0 <= i < self.classes@.len() ==> self.classes@[i].size != size,
            },
    {
        let mut i: usize = 0;
        while i < self.classes.len()
            invariant
                i <= self.classes@.len(),
                forall|j: int| 0 <= j < i ==> self.classes@[j].size != size,
            decreases self.classes.len() - i,
        {
            if self.classes[i].size == size {
                return Some(i);
            }
            i = i + 1;
        }
        None
    }

    /// Take the last free chunk of `size`, if there is one.
    fn pop_free(&mut self, size: usize) -> (r: Option<FreeChunk>)
        requires
            old(self).wf(),
        ensures
            final(self).wf(),
            final(self).config == old(self).config,
            final(self).numa_topology == old(self).numa_topology,
            final(self).all_chunks == old(self).all_chunks,
            final(self).current_size == old(self).current_size,
            final(self).stats == old(self).stats,
            final(self).next_id == old(self).next_id,
            match r {
                Some(c) => {
                    &&& old(self).free_of(size).len() > 0
                    &&& free_view(c) == old(self).free_of(size).last()
                    &&& final(self).free() == old(self).free().insert(size, old(self).free_of(size).drop_last())
                },
                None => old(self).free_of(size).len() == 0 && final(self).free() == old(self).free(),
            },
    {
        match self.find_class(size) {
            Some(i) => {
                let ghost c0 = choose|j: int| 0 <= j < self.classes@.len() && self.classes@[j].size == size;
                assert(self.free().contains_key(size));
                assert(c0 == i as int);
                if self.classes[i].chunks.len() == 0 {
                    return None;
                }
                let mut class = self.classes.remove(i);
                let ghost before = class.chunks@;
                let chunk = class.chunks.pop().unwrap();
                self.classes.insert(i, class);
                proof {
                    let f = |c: FreeChunk| free_view(c);
                    assert(before.map_values(f).drop_last() =~= self.classes@[i as int].chunks@.map_values(f));
                    assert forall|a: int, b: int| 0 <= a < b < self.classes@.len() implies self.classes@[a].size
                        != self.classes@[b].size by {
                        assert(self.classes@[a].size == old(self).classes@[a].size);
                        assert(self.classes@[b].size == old(self).classes@[b].size);
                    }
                    assert forall|sz: usize| #[trigger] self.free().contains_key(sz) == old(self).free().contains_key(sz) by {
                        if self.free().contains_key(sz) {
                            let w = choose|j: int| 0 <= j < self.classes@.len() && self.classes@[j].size == sz;
                            assert(old(self).classes@[w].size == sz);
                        }
                        if old(self).free().contains_key(sz) {
                            let w = choose|j: int| 0 <= j < old(self).classes@.len() && old(self).classes@[j].size == sz;
                            assert(self.classes@[w].size == sz);
                        }
                    }
                    assert forall|sz: usize| #[trigger] self.free().contains_key(sz) implies self.free()[sz]
                        == old(self).free().insert(size, old(self).free_of(size).drop_last())[sz] by {
                        let w = choose|j: int| 0 <= j < self.classes@.len() && self.classes@[j].size == sz;
                        let w0 = choose|j: int| 0 <= j < old(self).classes@.len() && old(self).classes@[j].size == sz;
                        assert(old(self).classes@[w].size == sz);
                        assert(w0 == w);
                    }
                    assert(self.free() =~= old(self).free().insert(size, old(self).free_of(size).drop_last()));
                }
                Some(chunk)
            },
            None => {
                assert(!self.free().contains_key(size));
                None
            },
        }
    }

    /// Give `chunk` back to the free chunks of `size`.
    fn push_free(&mut self, size: usize, chunk: FreeChunk)
        requires
            old(self).wf(),
        ensures
            final(self).wf(),
            final(self).config == old(self).config,
            final(self).numa_topology == old(self).numa_topology,
            final(self).all_chunks == old(self).all_chunks,
            final(self).current_size == old(self).current_size,
            final(self).stats == old(self).stats,
            final(self).next_id == old(self).next_id,
            final(self).free() == old(self).free().insert(size, old(self).free_of(size).push(free_view(chunk))),
    {
        let ghost cv = free_view(chunk);
        let ghost f = |c: FreeChunk| free_view(c);
        match self.find_class(size) {
            Some(i) => {
                let ghost c0 = choose|j: int| 0 <= j < self.classes@.len() && self.classes@[j].size == size;
                assert(self.free().contains_key(size));
                assert(c0 == i as int);
                let mut class = self.classes.remove(i);
                let ghost before = class.chunks@;
                class.chunks.push(chunk);
                self.classes.insert(i, class);
                proof {
                    assert(before.map_values(f).push(cv) =~= self.classes@[i as int].chunks@.map_values(f));
                    assert forall|a: int, b: int| 0 <= a < b < self.classes@.len() implies self.classes@[a].size
                        != self.classes@[b].size by {
                        assert(self.classes@[a].size == old(self).classes@[a].size);
                        assert(self.classes@[b].size == old(self).classes@[b].size);
                    }
                    assert forall|sz: usize| #[trigger] self.free().contains_key(sz) == old(self).free().contains_key(sz) by {
                        if self.free().contains_key(sz) {
                            let w = choose|j: int| 0 <= j < self.classes@.len() && self.classes@[j].size == sz;
                            assert(old(self).classes@[w].size == sz);
                        }
                        if old(self).free().contains_key(sz) {
                            let w = choose|j: int| 0 <= j < old(self).classes@.len() && old(self).classes@[j].size == sz;
                            assert(self.classes@[w].size == sz);
                        }
                    }
                    assert forall|sz: usize| #[trigger] self.free().contains_key(sz) implies self.free()[sz]
                        == old(self).free().insert(size, old(self).free_of(size).push(cv))[sz] by {
                        let w = choose|j: int| 0 <= j < self.classes@.len() && self.classes@[j].size == sz;
                        let w0 = choose|j: int| 0 <= j < old(self).classes@.len() && old(self).classes@[j].size == sz;
                        assert(old(self).classes@[w].size == sz);
                        assert(w0 == w);
                    }
                    assert(self.free() =~= old(self).free().insert(size, old(self).free_of(size).push(cv)));
                }
            },
            None => {
                assert(!self.free().contains_key(size));
                let mut chunks: Vec<FreeChunk> = Vec::new();
                chunks.push(chunk);
                let ghost n = self.classes@.len();
                self.classes.push(SizeClass { size, chunks });
                proof {
                    assert(self.classes@[n as int].chunks@.map_values(f) =~= Seq::<(u128, Seq<u8>)>::empty().push(cv));
                    assert forall|a: int, b: int| 0 <= a < b < self.classes@.len() implies self.classes@[a].size
                        != self.classes@[b].size by {
                        if b < n {
                            assert(old(self).classes@[a].size != old(self).classes@[b].size);
                        }
                    }
                    assert forall|sz: usize| #[trigger] self.free().contains_key(sz) == old(self).free().insert(size, Seq::empty().push(cv)).contains_key(sz) by {
                        if self.free().contains_key(sz) && sz != size {
                            let w = choose|j: int| 0 <= j < self.classes@.len() && self.classes@[j].size == sz;
                            assert(old(self).classes@[w].size == sz);
                        }
                        if old(self).free().contains_key(sz) {
                            let w = choose|j: int| 0 <= j < old(self).classes@.len() && old(self).classes@[j].size == sz;
                            assert(self.classes@[w].size == sz);
                        }
                        if sz == size {
                            assert(self.classes@[n as int].size == sz);
                        }
                    }
                    assert forall|sz: usize| #[trigger] self.free().contains_key(sz) implies self.free()[sz]
                        == old(self).free().insert(size, Seq::empty().push(cv))[sz] by {
                        let w = choose|j: int| 0 <= j < self.classes@.len() && self.classes@[j].size == sz;
                        if sz == size {
                            assert(w == n);
                        } else {
                            let w0 = choose|j: int| 0 <= j < old(self).classes@.len() && old(self).classes@[j].size == sz;
                            assert(self.classes@[w0].size == sz);
                            assert(w0 == w);
                        }
                    }
                    assert(self.free() =~= old(self).free().insert(size, old(self).free_of(size).push(cv)));
                }
            },
        }
    }
}

/// `a + b`, wrapping around past `usize::MAX`.
pub open spec fn wrapped_add(a: usize, b: usize) -> usize {
    if a + b > usize::MAX {
        (a + b - usize::MAX - 1) as usize
    } else {
        (a + b) as usize
    }
}

/// `a - b`, wrapping around below zero.
pub open spec fn wrapped_sub(a: usize, b: usize) -> usize {
    if a >= b {
        (a - b) as usize
    } else {
        (a - b + usize::MAX + 1) as usize
    }
}

impl MemoryPool {
    /// `after` is this pool after a block of `size` bytes was asked for at
    /// `now`, with result `r` (see `allocate_at`).
    pub open spec fn allocated(&self, after: &MemoryPool, size: usize, now: Timestamp, r: Result<MemoryBlock, MemoryError>) -> bool {
        &&& after.wf()
        &&& after.same_setup(self)
        &&& {
            let a = aligned_size(size, self.spec_config().alignment);
            let st = self.spec_stats();
            if self.free_of(a).len() > 0 {
                let c = self.free_of(a).last();
                &&& r matches Ok(b) && b.chunk_id() == c.0 && b.spec_bytes() == c.1 && b.spec_size() == a
                &&& after.free() == self.free().insert(a, self.free_of(a).drop_last())
                &&& after.chunks() == self.chunks()
                &&& after.spec_current_size() == self.spec_current_size()
                &&& after.spec_stats() == (MemoryStats { cache_hits: (st.cache_hits + 1) as u64, ..st })
                &&& after.next_chunk() == self.next_chunk()
            } else if !chunk_fits(a) {
                &&& r == Err::<MemoryBlock, MemoryError>(MemoryError::AllocationFailed)
                &&& after.free() == self.free()
                &&& after.chunks() == self.chunks()
                &&& after.spec_current_size() == self.spec_current_size()
                &&& after.spec_stats() == (MemoryStats { cache_misses: (st.cache_misses + 1) as u64, ..st })
                &&& after.next_chunk() == self.next_chunk()
            } else {
                let allocated = (st.current_allocated + a) as usize;
                &&& r matches Ok(b) && b.chunk_id() == self.next_chunk() && b.spec_bytes() == zeros(a as nat)
                    && b.spec_size() == a
                &&& after.free() == self.free()
                &&& after.chunks() == self.chunks().push(
                    ChunkInfo {
                        id: self.next_chunk(),
                        size: a,
                        in_use: true,
                        allocated_at: now,
                        last_accessed: now,
                        numa_node: self.numa_node(),
                    },
                )
                &&& after.spec_current_size() == wrapped_add(self.spec_current_size(), a)
                &&& after.spec_stats() == (MemoryStats {
                    cache_misses: (st.cache_misses + 1) as u64,
                    total_allocations: (st.total_allocations + 1) as u64,
                    current_allocated: allocated,
                    peak_allocated: if st.peak_allocated >= allocated {
                        st.peak_allocated
                    } else {
                        allocated
                    },
                    ..st
                })
                &&& after.next_chunk() == self.next_chunk() + 1
            }
        }
    }

    /// Allocate a block of `size` bytes, rounded up by the alignment, at
    /// `now`: the last free chunk of that size if there is one (a cache
    /// hit), else a new zeroed chunk (a cache miss), which is recorded as in
    /// use and counted as allocated. A chunk too large to lay out is an
    /// allocation failure.
    pub fn allocate_at(&mut self, size: usize, now: Timestamp) -> (r: Result<MemoryBlock, MemoryError>)
        requires
            old(self).wf(),
            old(self).spec_config().alignment >= 1,
            size + old(self).spec_config().alignment - 1 <= usize::MAX,
            aligned_size(size, old(self).spec_config().alignment) > 0,
            ({
                let a = aligned_size(size, old(self).spec_config().alignment);
                let st = old(self).spec_stats();
                &&& old(self).free_of(a).len() > 0 ==> st.cache_hits < u64::MAX
                &&& old(self).free_of(a).len() == 0 ==> st.cache_misses < u64::MAX
                &&& old(self).free_of(a).len() == 0 && chunk_fits(a) ==> st.total_allocations < u64::MAX
                    && st.current_allocated + a <= usize::MAX
            }),
        ensures
            old(self).allocated(final(self), size, now, r),
    {
        let a = self.align_size(size);
        match self.pop_free(a) {
            Some(chunk) => {
                self.stats.cache_hits = self.stats.cache_hits + 1;
                let FreeChunk { id, memory } = chunk;
                return Ok(MemoryBlock { chunk: id, memory, size: a });
            },
            None => {},
        }
        self.stats.cache_misses = self.stats.cache_misses + 1;
        if a > (isize::MAX as usize) - 63 {
            return Err(MemoryError::AllocationFailed);
        }
        let numa_node = match &self.numa_topology {
            Some(t) => Some(t.current_node),
            None => None,
        };
        let id = self.next_id;
        let memory = zeroed_memory(a);
        self.all_chunks.push(ChunkInfo {
            id,
            size: a,
            in_use: true,
            allocated_at: now,
            last_accessed: now,
            numa_node,
        });
        self.next_id = self.next_id + 1;
        self.stats.total_allocations = self.stats.total_allocations + 1;
        self.stats.current_allocated = self.stats.current_allocated + a;
        if self.stats.current_allocated > self.stats.peak_allocated {
            self.stats.peak_allocated = self.stats.current_allocated;
        }
        self.current_size = self.current_size.wrapping_add(a);
        Ok(MemoryBlock { chunk: id, memory, size: a })
    }

    /// Allocate a block of `size` bytes now (see `allocate_at`).
    pub fn allocate(&mut self, size: usize) -> (r: Result<MemoryBlock, MemoryError>)
        requires
            old(self).wf(),
            old(self).spec_config().alignment >= 1,
            size + old(self).spec_config().alignment - 1 <= usize::MAX,
            aligned_size(size, old(self).spec_config().alignment) > 0,
            ({
                let a = aligned_size(size, old(self).spec_config().alignment);
                let st = old(self).spec_stats();
                &&& old(self).free_of(a).len() > 0 ==> st.cache_hits < u64::MAX
                &&& old(self).free_of(a).len() == 0 ==> st.cache_misses < u64::MAX
                &&& old(self).free_of(a).len() == 0 && chunk_fits(a) ==> st.total_allocations < u64::MAX
                    && st.current_allocated + a <= usize::MAX
            }),
        ensures
            final(self).wf(),
            final(self).same_setup(old(self)),
            ({
                let a = aligned_size(size, old(self).spec_config().alignment);
                &&& r is Ok <==> (old(self).free_of(a).len() > 0 || chunk_fits(a))
                &&& r matches Ok(b) ==> b.spec_size() == a
                &&& r matches Err(e) ==> e == MemoryError::AllocationFailed
            }),
            exists|now: Timestamp| #[trigger] old(self).allocated(final(self), size, now, r),
    {
        self.allocate_at(size, Timestamp::now())
    }

    /// Give `block` back: its chunk's record is marked free, its memory goes
    /// to the free chunks of its size, and the deallocation is counted.
    pub fn deallocate(&mut self, block: MemoryBlock)
        requires
            old(self).wf(),
            old(self).spec_stats().total_deallocations < u64::MAX,
        ensures
            final(self).wf(),
            final(self).same_setup(old(self)),
            final(self).chunks() == marked_free(old(self).chunks(), block.chunk_id()),
            final(self).free() == old(self).free().insert(
                block.spec_size() as usize,
                old(self).free_of(block.spec_size() as usize).push((block.chunk_id(), block.spec_bytes())),
            ),
            final(self).spec_current_size() == wrapped_sub(old(self).spec_current_size(), block.spec_size() as usize),
            final(self).spec_stats() == (MemoryStats {
                total_deallocations: (old(self).spec_stats().total_deallocations + 1) as u64,
                current_allocated: if old(self).spec_stats().current_allocated >= block.spec_size() {
                    (old(self).spec_stats().current_allocated - block.spec_size()) as usize
                } else {
                    0
                },
                ..old(self).spec_stats()
            }),
            final(self).next_chunk() == old(self).next_chunk(),
    {
        let MemoryBlock { chunk, memory, size } = block;
        self.mark_free(chunk);
        self.push_free(size, FreeChunk { id: chunk, memory });
        self.stats.total_deallocations = self.stats.total_deallocations + 1;
        self.stats.current_allocated = self.stats.current_allocated.saturating_sub(size);
        self.current_size = self.current_size.wrapping_sub(size);
    }

    fn mark_free(&mut self, id: u128)
        requires
            old(self).wf(),
        ensures
            final(self).wf(),
            final(self).config == old(self).config,
            final(self).numa_topology == old(self).numa_topology,
            final(self).classes == old(self).classes,
            final(self).current_size == old(self).current_size,
            final(self).stats == old(self).stats,
            final(self).next_id == old(self).next_id,
            final(self).all_chunks@ == marked_free(old(self).all_chunks@, id),
    {
        let mut i: usize = 0;
        let ghost all = self.all_chunks@;
        assert(all.skip(0) =~= all);
        assert(all.take(0) + marked_free(all.skip(0), id) =~= marked_free(all, id));
        while i < self.all_chunks.len()
            invariant
                self.all_chunks@ == all,
                all == old(self).all_chunks@,
                self.config == old(self).config,
                self.numa_topology == old(self).numa_topology,
                self.classes == old(self).classes,
                self.current_size == old(self).current_size,
                self.stats == old(self).stats,
                self.next_id == old(self).next_id,
                old(self).wf(),
                i <= all.len(),
                marked_free(all, id) == all.take(i as int) + marked_free(all.skip(i as int), id),
            decreases all.len() - i,
        {
            if self.all_chunks[i].id == id {
                let c = self.all_chunks[i];
                self.all_chunks.set(i, ChunkInfo { in_use: false, ..c });
                proof {
                    let rest = all.skip(i as int);
                    assert(rest[0] == c);
                    assert(self.all_chunks@ =~= all.take(i as int) + marked_free(rest, id));
                }
                return;
            }
            proof {
                let rest = all.skip(i as int);
                assert(rest[0] == all[i as int]);
                assert(rest.drop_first() =~= all.skip(i + 1));
                assert(all.take(i + 1) =~= all.take(i as int) + seq![all[i as int]]);
            }
            i = i + 1;
        }
        proof {
            assert(all.skip(i as int) =~= Seq::<ChunkInfo>::empty());
            assert(all.take(i as int) =~= all);
        }
    }

    /// Collect garbage at `now`: drop the records of the chunks unused for
    /// more than five minutes and every free chunk, and count the run.
    pub fn garbage_collect_at(&mut self, now: Timestamp)
        requires
            old(self).wf(),
            old(self).spec_stats().gc_runs < u64::MAX,
        ensures
            final(self).wf(),
            final(self).same_setup(old(self)),
            final(self).chunks() == unexpired(old(self).chunks(), now),
            final(self).free() == Map::<usize, Seq<(u128, Seq<u8>)>>::empty(),
            final(self).spec_current_size() == old(self).spec_current_size(),
            final(self).spec_stats() == (MemoryStats { gc_runs: (old(self).spec_stats().gc_runs + 1) as u64, ..old(self).spec_stats() }),
            final(self).next_chunk() == old(self).next_chunk(),
    {
        let ghost all = self.all_chunks@;
        let mut kept: Vec<ChunkInfo> = Vec::new();
        let mut i: usize = 0;
        while i < self.all_chunks.len()
            invariant
                self.all_chunks@ == all,
                i <= all.len(),
                kept@ == unexpired(all.take(i as int), now),
            decreases all.len() - i,
        {
            let c = self.all_chunks[i];
            proof {
                assert(all.take(i + 1).drop_last() =~= all.take(i as int));
                assert(all.take(i + 1).last() == c);
            }
            if !(!c.in_use && now_age(now, c.last_accessed) > 300_000_000_000u128) {
                kept.push(c);
            }
            i = i + 1;
        }
        proof {
            assert(all.take(all.len() as int) =~= all);
        }
        self.all_chunks = kept;
        self.classes = Vec::new();
        assert(self.free() =~= Map::<usize, Seq<(u128, Seq<u8>)>>::empty());
        self.stats.gc_runs = self.stats.gc_runs + 1;
    }

    /// Collect garbage now (see `garbage_collect_at`).
    pub fn garbage_collect(&mut self)
        requires
            old(self).wf(),
            old(self).spec_stats().gc_runs < u64::MAX,
        ensures
            final(self).wf(),
            final(self).same_setup(old(self)),
            exists|now: Timestamp| final(self).chunks() == #[trigger] unexpired(old(self).chunks(), now),
            final(self).free() == Map::<usize, Seq<(u128, Seq<u8>)>>::empty(),
            final(self).spec_stats() == (MemoryStats { gc_runs: (old(self).spec_stats().gc_runs + 1) as u64, ..old(self).spec_stats() }),
    {
        self.garbage_collect_at(Timestamp::now())
    }

    /// The statistics.
    pub fn get_stats(&self) -> (s: MemoryStats)
        ensures
            s == self.spec_stats(),
    {
        self.stats
    }

    /// The number of bytes counted as allocated by the pool.
    pub fn current_size(&self) -> (n: usize)
        ensures
            n == self.spec_current_size(),
    {
        self.current_size
    }

    /// A copy of the block's bytes as `Bytes`.
    pub fn create_bytes(&self, block: &MemoryBlock) -> (b: Bytes)
        ensures
            bytes_view(b) == block.spec_bytes(),
    {
        let mut copy: Vec<u8> = Vec::new();
        let s = block.as_slice();
        let mut i: usize = 0;
        while i < s.len()
            invariant
                i <= s@.len(),
                copy@ == s@.take(i as int),
            decreases s.len() - i,
        {
            copy.push(s[i]);
            assert(copy@ =~= s@.take(i + 1));
            i = i + 1;
        }
        assert(s@.take(s@.len() as int) =~= s@);
        bytes_from_vec(copy)
    }

    /// A copy of the block's bytes as `BytesMut`.
    pub fn create_bytes_mut(&self, block: &MemoryBlock) -> (b: BytesMut)
        requires
            block.spec_bytes().len() <= isize::MAX,
        ensures
            bytes_mut_view(b) == block.spec_bytes(),
    {
        let s = block.as_slice();
        let mut b = bytes_mut_with_capacity(s.len());
        bytes_mut_put_slice(&mut b, s);
        assert(bytes_mut_view(b) =~= block.spec_bytes());
        b
    }

    fn align_size(&self, size: usize) -> (a: usize)
        requires
            self.config.alignment >= 1,
            size + self.config.alignment - 1 <= usize::MAX,
        ensures
            a == aligned_size(size, self.config.alignment),
    {
        (size + (self.config.alignment - 1)) & !(self.config.alignment - 1)
    }
}

/// How long before `now` the point `t` lies (see `age`).
fn now_age(now: Timestamp, t: Timestamp) -> (n: u128)
    ensures
        n == age(now, t),
{
    if now.0 >= t.0 {
        (now.0 - t.0) as u128
    } else {
        0
    }
}

/// With an alignment that is a power of two, the aligned size is the
/// smallest multiple of the alignment (its bits below the alignment are
/// clear) that is not below the size.
pub proof fn lemma_aligned_size(size: usize, alignment: usize)
    requires
        alignment > 0,
        alignment & (alignment - 1) as usize == 0,
        size + alignment - 1 <= usize::MAX,
    ensures
        size <= aligned_size(size, alignment) < size + alignment,
        aligned_size(size, alignment) & (alignment - 1) as usize == 0,
{
    let s = size;
    let a = alignment;
    assert(s <= ((s + a - 1) as usize) & !((a - 1) as usize) && (((s + a - 1) as usize) & !((a - 1) as usize)) < s + a
        && (((s + a - 1) as usize) & !((a - 1) as usize)) & (a - 1) as usize == 0) by (bit_vector)
        requires
            a > 0,
            a & (a - 1) as usize == 0,
            s + a - 1 == ((s + a - 1) as usize),
    ;
}

/// What is given back is handed out again: after a block is given back, the
/// next allocation of its size (a cache hit) hands out the same chunk with
/// the same bytes.
pub proof fn lemma_reused_after_free(
    free: Map<usize, Seq<(u128, Seq<u8>)>>,
    size: usize,
    id: u128,
    bytes: Seq<u8>,
)
    ensures
        ({
            let before = if free.contains_key(size) {
                free[size]
            } else {
                Seq::empty()
            };
            let after = free.insert(size, before.push((id, bytes)));
            &&& after.contains_key(size)
            &&& after[size].len() > 0
            &&& after[size].last() == (id, bytes)
            &&& after[size].drop_last() == before
        }),
{
    let before = if free.contains_key(size) {
        free[size]
    } else {
        Seq::empty()
    };
    assert(before.push((id, bytes)).drop_last() =~= before);
}

/// `size` zero bytes.
fn zeroed_memory(size: usize) -> (v: Vec<u8>)
    ensures
        v@ == zeros(size as nat),
{
    let mut v: Vec<u8> = Vec::new();
    let mut i: usize = 0;
    while i < size
        invariant
            i <= size,
            v@ == zeros(i as nat),
        decreases size - i,
    {
        v.push(0u8);
        i = i + 1;
        assert(v@ =~= zeros(i as nat));
    }
    v
}

} // verus!
