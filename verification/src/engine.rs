//! The process-wide storage tuning profile.
use vstd::prelude::*;

verus! {

/// RocksDB memory and tuning profile: `prod` favours throughput, `dev`
/// bounds memory on instances with many idle column families.
#[derive(Clone, Copy, Debug)]
pub struct EngineProfile {
    /// Shared LRU block cache size (bytes).
    pub block_cache_bytes: usize,
    /// Per-CF memtable size (bytes).
    pub write_buffer_size: usize,
    /// Max memtables kept in memory per CF before flush.
    pub max_write_buffer_number: i32,
    /// Global cap on memtable memory across all CFs (bytes); `None` leaves
    /// it unbounded.
    pub db_write_buffer_size: Option<usize>,
    /// Background compaction/flush threads.
    pub max_background_jobs: i32,
    /// Open-file limit; `-1` = unlimited.
    pub max_open_files: i32,
    /// Keep index/filter blocks in the bounded block cache.
    pub cache_index_and_filter_blocks: bool,
    /// Total WAL budget across all column families (bytes).
    pub max_total_wal_size: usize,
    /// Initial memtable arena block (bytes).
    pub arena_block_size: usize,
}

pub open spec fn is_prod(p: EngineProfile) -> bool {
    &&& p.block_cache_bytes == 512 * 1024 * 1024
    &&& p.write_buffer_size == 64 * 1024 * 1024
    &&& p.max_write_buffer_number == 3
    &&& p.db_write_buffer_size == Some(536_870_912usize)
    &&& p.max_background_jobs == 6
    &&& p.max_open_files == -1
    &&& !p.cache_index_and_filter_blocks
    &&& p.max_total_wal_size == 2 * 1024 * 1024 * 1024
    &&& p.arena_block_size == 64 * 1024
}

pub open spec fn is_dev(p: EngineProfile) -> bool {
    &&& p.block_cache_bytes == 128 * 1024 * 1024
    &&& p.write_buffer_size == 8 * 1024 * 1024
    &&& p.max_write_buffer_number == 2
    &&& p.db_write_buffer_size == Some(134_217_728usize)
    &&& p.max_background_jobs == 2
    &&& p.max_open_files == 512
    &&& p.cache_index_and_filter_blocks
    &&& p.max_total_wal_size == 256 * 1024 * 1024
    &&& p.arena_block_size == 64 * 1024
}

impl EngineProfile {
    /// Throughput-oriented defaults (production).
    pub fn prod() -> (r: Self)
        ensures
            is_prod(r),
    {
        EngineProfile {
            block_cache_bytes: 536_870_912,
            write_buffer_size: 67_108_864,
            max_write_buffer_number: 3,
            db_write_buffer_size: Some(536_870_912),
            max_background_jobs: 6,
            max_open_files: -1,
            cache_index_and_filter_blocks: false,
            max_total_wal_size: 2_147_483_648,
            arena_block_size: 65_536,
        }
    }

    /// Low-memory profile for dev boxes with many idle column families.
    pub fn dev() -> (r: Self)
        ensures
            is_dev(r),
    {
        EngineProfile {
            block_cache_bytes: 134_217_728,
            write_buffer_size: 8_388_608,
            max_write_buffer_number: 2,
            db_write_buffer_size: Some(134_217_728),
            max_background_jobs: 2,
            max_open_files: 512,
            cache_index_and_filter_blocks: true,
            max_total_wal_size: 268_435_456,
            arena_block_size: 65_536,
        }
    }
}

/// The process-wide profile: set at most once, `prod` when never set.
pub struct EngineProfileSlot {
    pub chosen: Option<EngineProfile>,
}

impl EngineProfileSlot {
    /// A slot with no profile chosen yet.
    pub fn new() -> (r: Self)
        ensures
            r.chosen is None,
    {
        EngineProfileSlot { chosen: None }
    }

    /// Select the profile. Only the first selection counts; later calls,
    /// and calls after the profile was first read, are ignored.
    pub fn set_engine_profile(&mut self, profile: EngineProfile)
        ensures
            final(self).chosen == if old(self).chosen is Some {
                old(self).chosen
            } else {
                Some(profile)
            },
    {
        if self.chosen.is_none() {
            self.chosen = Some(profile);
        }
    }

    /// The active profile; fixes it to `prod` if none was chosen.
    pub fn profile(&mut self) -> (r: EngineProfile)
        ensures
            old(self).chosen matches Some(p) ==> r == p && final(self).chosen == old(self).chosen,
            old(self).chosen is None ==> is_prod(r) && final(self).chosen == Some(r),
    {
        match self.chosen {
            Some(p) => p,
            None => {
                let p = EngineProfile::prod();
                self.chosen = Some(p);
                p
            },
        }
    }
}

/// Once a profile is read, it never changes: later selections are ignored.
pub proof fn profile_is_fixed_once_chosen(chosen: EngineProfile, later: EngineProfile)
    ensures
        ({
            let s = EngineProfileSlot { chosen: Some(chosen) };
            if s.chosen is Some { s.chosen } else { Some(later) }
        }) == Some(chosen),
{
}

/// Where the storage engine's memory is, one field per consumer.
#[derive(Debug, Clone, Copy)]
pub struct MemoryBreakdown {
    pub memtable_bytes: u64,
    pub memtable_total_bytes: u64,
    pub table_readers_bytes: u64,
    pub block_cache_bytes: u64,
    pub block_cache_pinned_bytes: u64,
    pub sst_files: u64,
    pub column_families: u64,
    pub cached_collection_handles: u64,
}

impl Default for MemoryBreakdown {
    fn default() -> (r: Self)
        ensures
            r.memtable_bytes == 0 && r.memtable_total_bytes == 0 && r.table_readers_bytes == 0
                && r.block_cache_bytes == 0 && r.block_cache_pinned_bytes == 0 && r.sst_files == 0
                && r.column_families == 0 && r.cached_collection_handles == 0,
    {
        MemoryBreakdown {
            memtable_bytes: 0,
            memtable_total_bytes: 0,
            table_readers_bytes: 0,
            block_cache_bytes: 0,
            block_cache_pinned_bytes: 0,
            sst_files: 0,
            column_families: 0,
            cached_collection_handles: 0,
        }
    }
}

} // verus!
