use solidb_storage::auto_index::{auto_index_enabled, disabled_flag, enabled_flag, env_auto_index, AUTO_INDEX_META_KEY};
use solidb_storage::cf_ops::{auto_create_enabled, timed, CfOpCounters, CfOpSnapshot, PendingEmbedGauge};
use solidb_storage::collection_types::{default_min_length, ChangeType, CollectionStats, DiskUsage};
use solidb_storage::document_cache::{DocumentCache, DocumentCacheConfig};
use solidb_storage::engine::{EngineProfile, EngineProfileSlot, MemoryBreakdown};
use solidb_storage::geo::GeoIndex;
use solidb_storage::hybrid::FusionMethod;
use solidb_storage::locks::{key_stripes, unique_token_stripes, STRIPES};
use solidb_storage::versioning::{max_versions, VersionClock, DEFAULT_MAX_VERSIONS};

#[test]
fn test_collection_stats() {
    let stats = CollectionStats {
        name: "users".to_string(),
        document_count: 1000,
        chunk_count: 50,
        disk_usage: DiskUsage {
            sst_files_size: 1024 * 1024,
            live_data_size: 512 * 1024,
            num_sst_files: 5,
            memtable_size: 64 * 1024,
        },
    };

    assert_eq!(stats.name, "users");
    assert_eq!(stats.document_count, 1000);
    assert_eq!(stats.disk_usage.num_sst_files, 5);
}

#[test]
fn test_default_min_length() {
    assert_eq!(default_min_length(), 3);
}

#[test]
fn test_change_type_serialization() {
    assert_eq!(format!("\"{}\"", ChangeType::Insert.as_str()), "\"insert\"");
    assert_eq!(format!("\"{}\"", ChangeType::Update.as_str()), "\"update\"");
    assert_eq!(format!("\"{}\"", ChangeType::Delete.as_str()), "\"delete\"");
}

#[test]
fn test_geo_index_new() {
    let index = GeoIndex::new("location_idx".to_string(), "location".to_string());

    assert_eq!(index.name, "location_idx");
    assert_eq!(index.field, "location");
    assert_eq!(index.precision, 6);
}

#[test]
fn test_geo_index_stats() {
    let index = GeoIndex::new("idx".to_string(), "field".to_string());
    let stats = index.stats();

    assert_eq!(stats.name, "idx");
    assert_eq!(stats.field, "field");
    assert_eq!(stats.precision, 6);
    assert_eq!(stats.indexed_documents, 0);
}

#[test]
fn cf_op_counters_count_between_snapshots() {
    let mut counters = CfOpCounters::new();
    let before = counters.snapshot();
    counters.record_op(5_000_000);
    counters.record_op(0);
    let after = counters.snapshot();
    assert_eq!(before.ops_since(&after), 2);
    assert_eq!(before.nanos_since(&after), 5_000_000);
    assert_eq!(after.ops_since(&before), 0);
    counters.record_reuse();
    counters.record_autocreate();
    counters.record_autocreate();
    assert_eq!(counters.reuses(), 1);
    assert_eq!(counters.autocreates(), 2);
    let wrapped = CfOpSnapshot { ops: u64::MAX, nanos: 0 };
    let mut c = CfOpCounters { op_count: u64::MAX, op_nanos: 0, reuse_count: 0, autocreate_count: 0 };
    c.record_op(1);
    assert_eq!(c.snapshot().ops, 0);
    assert_eq!(wrapped.ops_since(&c.snapshot()), 0);
}

#[test]
fn auto_create_setting() {
    assert!(auto_create_enabled(None));
    assert!(auto_create_enabled(Some("")));
    assert!(auto_create_enabled(Some("yes")));
    assert!(!auto_create_enabled(Some("0")));
    assert!(!auto_create_enabled(Some("FALSE")));
    assert!(!auto_create_enabled(Some("Off")));
    assert!(!auto_create_enabled(Some("no")));
    assert!(auto_create_enabled(Some(" no")));
}

#[test]
fn pending_embed_gauge() {
    let mut g = PendingEmbedGauge::new();
    g.mark();
    g.mark();
    g.clear();
    assert_eq!(g.pending_embed_count(), 1);
}

#[test]
fn engine_profiles_and_slot() {
    let prod = EngineProfile::prod();
    assert_eq!(prod.block_cache_bytes, 512 * 1024 * 1024);
    assert_eq!(prod.max_open_files, -1);
    assert_eq!(prod.db_write_buffer_size, Some(512 * 1024 * 1024));
    let dev = EngineProfile::dev();
    assert_eq!(dev.max_open_files, 512);
    assert!(dev.cache_index_and_filter_blocks);

    let mut slot = EngineProfileSlot::new();
    slot.set_engine_profile(EngineProfile::dev());
    slot.set_engine_profile(EngineProfile::prod());
    assert_eq!(slot.profile().max_open_files, 512);

    let mut unset = EngineProfileSlot::new();
    assert_eq!(unset.profile().max_open_files, -1);
    unset.set_engine_profile(EngineProfile::dev());
    assert_eq!(unset.profile().max_open_files, -1);
    assert_eq!(MemoryBreakdown::default().sst_files, 0);
}

#[test]
fn fusion_method_parse() {
    assert_eq!(FusionMethod::parse("weighted"), Some(FusionMethod::Weighted));
    assert_eq!(FusionMethod::parse("rrf"), Some(FusionMethod::Rrf));
    assert_eq!(FusionMethod::parse("RRF"), None);
    assert_eq!(FusionMethod::default(), FusionMethod::Weighted);
}

#[test]
fn document_cache_evicts_least_recently_used() {
    let mut cache: DocumentCache<u32> = DocumentCache::new(2);
    cache.put("a".to_string(), 1);
    cache.put("b".to_string(), 2);
    assert_eq!(cache.get("a").map(|v| *v), Some(1));
    cache.put("c".to_string(), 3);
    assert_eq!(cache.get("b"), None);
    assert_eq!(cache.get("a").map(|v| *v), Some(1));
    assert_eq!(cache.get("c").map(|v| *v), Some(3));
    assert_eq!(cache.stats().entries, 2);
    assert_eq!(cache.stats().max_entries, 2);
    cache.put("a".to_string(), 10);
    assert_eq!(cache.get("a").map(|v| *v), Some(10));
    assert_eq!(cache.stats().entries, 2);
}

#[test]
fn document_cache_invalidation() {
    let mut cache: DocumentCache<u32> =
        DocumentCache::with_config(&DocumentCacheConfig::default());
    assert_eq!(cache.stats().max_entries, 10_000);
    cache.put("users/1".to_string(), 1);
    cache.put("users/2".to_string(), 2);
    cache.put("orders/1".to_string(), 3);
    cache.invalidate("users/1");
    assert_eq!(cache.get("users/1"), None);
    cache.invalidate_collection("users/");
    assert_eq!(cache.get("users/2"), None);
    assert_eq!(cache.get("orders/1").map(|v| *v), Some(3));
    cache.clear();
    assert_eq!(cache.stats().entries, 0);

    let mut none: DocumentCache<u32> = DocumentCache::new(0);
    none.put("a".to_string(), 1);
    assert_eq!(none.get("a"), None);
}

#[test]
fn version_clock_is_strictly_monotonic() {
    let mut clock = VersionClock::new();
    assert_eq!(clock.next_version_micros(100), 100);
    assert_eq!(clock.next_version_micros(100), 101);
    assert_eq!(clock.next_version_micros(50), 102);
    assert_eq!(clock.next_version_micros(500), 500);
}

#[test]
fn max_versions_setting() {
    assert_eq!(max_versions(None), DEFAULT_MAX_VERSIONS);
    assert_eq!(max_versions(Some(" 25 ")), 25);
    assert_eq!(max_versions(Some("+7")), 7);
    assert_eq!(max_versions(Some("0")), DEFAULT_MAX_VERSIONS);
    assert_eq!(max_versions(Some("-3")), DEFAULT_MAX_VERSIONS);
    assert_eq!(max_versions(Some("many")), DEFAULT_MAX_VERSIONS);
}

#[test]
fn lock_stripes_are_ascending_and_unique() {
    let keys = vec!["a".to_string(), "b".to_string(), "a".to_string(), "zz".to_string()];
    let s = key_stripes(&keys);
    assert!(s.windows(2).all(|w| w[0] < w[1]));
    assert!(s.len() <= 3 && !s.is_empty());
    assert!(s.iter().all(|x| *x < STRIPES));
    assert!(unique_token_stripes(&Vec::new()).is_empty());
    assert_eq!(key_stripes(&vec!["a".to_string()]).len(), 1);
}

#[test]
fn timed_accumulates_count_and_duration() {
    let mut counters = CfOpCounters::new();
    let before = counters.snapshot();
    timed(&mut counters, || {
        let start = std::time::Instant::now();
        while start.elapsed() < std::time::Duration::from_millis(5) {}
    });
    let value = timed(&mut counters, || 41 + 1);
    assert_eq!(value, 42);
    let after = counters.snapshot();
    assert!(before.ops_since(&after) >= 2);
    assert!(before.nanos_since(&after) >= 5_000_000);
}

#[test]
fn auto_index_follows_the_flag_then_the_setting() {
    assert_eq!(AUTO_INDEX_META_KEY, "_stats:auto_index");
    assert!(env_auto_index(Some("1")));
    assert!(env_auto_index(Some(" TRUE \n")));
    assert!(!env_auto_index(Some("yes")));
    assert!(!env_auto_index(Some("0")));
    assert!(!env_auto_index(None));
    let off = disabled_flag();
    let on = enabled_flag();
    assert_eq!(off, b"0".to_vec());
    assert_eq!(on, b"1".to_vec());
    assert!(!auto_index_enabled(Some(&off), Some("true")));
    assert!(auto_index_enabled(Some(&on), None));
    assert!(auto_index_enabled(Some(b"x"), None));
    assert!(auto_index_enabled(None, Some("true")));
    assert!(!auto_index_enabled(None, None));
}

#[test]
fn cf_op_counters_never_decrease_across_calls() {
    let mut counters = CfOpCounters::new();
    let mut last = counters.snapshot();
    for step in 0..20u64 {
        match step % 3 {
            0 => counters.record_op(step * 7),
            1 => counters.record_reuse(),
            _ => {
                timed(&mut counters, || step);
            }
        }
        let now = counters.snapshot();
        assert!(now.ops >= last.ops);
        assert!(now.nanos >= last.nanos);
        last = now;
    }
    assert_eq!(CfOpCounters::new().snapshot().ops_since(&last), 13);
}
