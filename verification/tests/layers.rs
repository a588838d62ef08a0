use layered_cache::cache::layers::{
    wildcard_match, DatabaseCache, LocalCache, RedisCache, SharedLayer,
};
use layered_cache::cache::policies::{EvictionPolicy, EvictionStrategy};
use layered_cache::clock::{Span, TIMEDELTA_MAX_SECS, TIMEDELTA_MAX_SUBSEC_NANOS};

const MS: i128 = 1_000_000;
const SEC: i128 = 1_000_000_000;

#[test]
fn pattern_deletes_matching_keys() {
    let mut layer = LocalCache::default();
    layer.set_with_ttl("creator:alice", "{\"ok\":true}".to_string(), Span::from_secs(60));
    layer.set_with_ttl("creator:bob", "{\"ok\":true}".to_string(), Span::from_secs(60));
    layer.set_with_ttl("tip:alice", "{\"ok\":true}".to_string(), Span::from_secs(60));

    let removed = layer.delete_pattern("creator:*");
    assert_eq!(removed, 2);
    assert!(layer.get("tip:alice").is_some());
    assert!(layer.get("creator:alice").is_none());
}

#[test]
fn wildcard_match_cases() {
    assert!(wildcard_match("*", ""));
    assert!(wildcard_match("*", "anything"));
    assert!(wildcard_match("creator:*", "creator:alice"));
    assert!(wildcard_match("creator:*", "creator:"));
    assert!(!wildcard_match("creator:*", "tip:alice"));
    assert!(wildcard_match("*:alice", "tip:alice"));
    assert!(!wildcard_match("*:alice", "tip:bob"));
    assert!(wildcard_match("a*z", "abcz"));
    // the prefix and the suffix may overlap
    assert!(wildcard_match("ab*ba", "aba"));
    assert!(!wildcard_match("ab*ba", "ab"));
    // only the first star splits; a later one is literal
    assert!(wildcard_match("a*b*", "axxb*"));
    assert!(!wildcard_match("a*b*", "axxbc"));
    assert!(wildcard_match("exact", "exact"));
    assert!(!wildcard_match("exact", "exactly"));
    assert!(wildcard_match("é*", "éclair"));
}

#[test]
fn defaults_of_the_three_tiers() {
    assert_eq!(LocalCache::default().default_ttl(), Span::from_secs(60));
    assert_eq!(RedisCache::default().default_ttl(), Span::from_secs(300));
    assert_eq!(DatabaseCache::default().default_ttl(), Span::from_secs(1_800));
}

#[test]
fn read_after_write_until_expiry() {
    let mut layer = RedisCache::default();
    layer.set_with_ttl_at("k", "v".to_string(), Span::from_secs(1), 5 * SEC);
    assert_eq!(layer.get_at("k", 5 * SEC), Some("v".to_string()));
    assert_eq!(layer.get_at("k", 6 * SEC), Some("v".to_string()));
    // expired one nanosecond later: dropped
    assert_eq!(layer.get_at("k", 6 * SEC + 1), None);
    assert!(!layer.holds_live("k", 0));
}

#[test]
fn sub_millisecond_time_to_live_is_kept_exactly() {
    let mut layer = LocalCache::default();
    layer.set_with_ttl_at("k", "v".to_string(), Span::new(0, 1_500_000), 0);
    assert_eq!(layer.metadata_snapshot()[0].ttl, 1_500_000);
    assert_eq!(layer.get_at("k", 1_500_000), Some("v".to_string()));
    assert_eq!(layer.get_at("k", 1_500_001), None);
}

#[test]
fn read_within_the_expiring_millisecond_finds_nothing() {
    let mut layer = LocalCache::default();
    layer.set_with_ttl_at("k", "v".to_string(), Span::from_secs(1), 0);
    assert_eq!(layer.get_at("k", SEC + 500), None);
}

#[test]
fn missing_key_reads_nothing() {
    let mut layer = DatabaseCache::default();
    assert_eq!(layer.get_at("nope", 0), None);
}

#[test]
fn reads_count_accesses_and_touch() {
    let mut layer = LocalCache::default();
    layer.set_with_ttl_at("k", "hello".to_string(), Span::from_secs(10), 100);
    assert_eq!(layer.get_at("k", 200), Some("hello".to_string()));
    assert_eq!(layer.get_at("k", 300), Some("hello".to_string()));
    let snapshot = layer.metadata_snapshot();
    assert_eq!(snapshot.len(), 1);
    assert_eq!(snapshot[0].key, "k");
    assert_eq!(snapshot[0].created_at, 100);
    assert_eq!(snapshot[0].last_accessed, 300);
    assert_eq!(snapshot[0].access_count, 3);
    assert_eq!(snapshot[0].ttl, 10 * SEC);
    assert_eq!(snapshot[0].size_bytes, 5);
}

#[test]
fn size_is_counted_in_utf8_bytes() {
    let mut layer = LocalCache::default();
    layer.set_with_ttl_at("k", "héé".to_string(), Span::from_secs(10), 0);
    assert_eq!(layer.metadata_snapshot()[0].size_bytes, 5);
}

#[test]
fn rewrite_replaces_value_and_resets_bookkeeping() {
    let mut layer = LocalCache::default();
    layer.set_with_ttl_at("k", "one".to_string(), Span::from_secs(10), 0);
    assert!(layer.get_at("k", 1).is_some());
    layer.set_with_ttl_at("k", "two".to_string(), Span::from_secs(20), 50);
    let snapshot = layer.metadata_snapshot();
    assert_eq!(snapshot.len(), 1);
    assert_eq!(snapshot[0].access_count, 1);
    assert_eq!(snapshot[0].created_at, 50);
    assert_eq!(layer.get_at("k", 20 * SEC + 50), Some("two".to_string()));
}

#[test]
fn too_long_ttl_falls_back_to_default_whole_seconds() {
    let mut layer = LocalCache::new(Span::new(2, 500_000_000), EvictionPolicy::default());
    layer.set_with_ttl_at("k", "v".to_string(), Span::from_secs(u64::MAX), 0);
    assert_eq!(layer.metadata_snapshot()[0].ttl, 2 * SEC);
    // the longest span chrono takes is kept as it is
    let mut exact = LocalCache::new(Span::new(2, 500_000_000), EvictionPolicy::default());
    let longest = Span::new(TIMEDELTA_MAX_SECS, TIMEDELTA_MAX_SUBSEC_NANOS);
    exact.set_with_ttl_at("k", "v".to_string(), longest, 0);
    assert_eq!(exact.metadata_snapshot()[0].ttl, i64::MAX as i128 * MS);
    // one nanosecond more falls back
    let mut over = LocalCache::new(Span::new(2, 500_000_000), EvictionPolicy::default());
    let too_long = Span::new(TIMEDELTA_MAX_SECS, TIMEDELTA_MAX_SUBSEC_NANOS + 1);
    over.set_with_ttl_at("k", "v".to_string(), too_long, 0);
    assert_eq!(over.metadata_snapshot()[0].ttl, 2 * SEC);
}

#[test]
fn default_whole_seconds_wrap_as_signed() {
    // u64::MAX seconds cast to i64 is -1: the fallback is minus one second
    let mut layer = LocalCache::new(Span::from_secs(u64::MAX), EvictionPolicy::default());
    layer.set_with_ttl_at("k", "v".to_string(), Span::from_secs(u64::MAX), 0);
    assert_eq!(layer.metadata_snapshot()[0].ttl, -SEC);
    // already expired when written
    assert_eq!(layer.get_at("k", 0), None);
}

#[test]
fn full_layer_evicts_least_frequently_used() {
    let policy = EvictionPolicy {
        strategy: EvictionStrategy::LFU,
        max_entries: 2,
        ..EvictionPolicy::default()
    };
    let mut layer = LocalCache::new(Span::from_secs(60), policy);
    layer.set_with_ttl_at("a", "1".to_string(), Span::from_secs(60), 0);
    layer.set_with_ttl_at("b", "2".to_string(), Span::from_secs(60), 0);
    assert!(layer.get_at("a", 1).is_some());
    layer.set_with_ttl_at("c", "3".to_string(), Span::from_secs(60), 2);
    assert_eq!(layer.metadata_snapshot().len(), 2);
    assert!(layer.get_at("b", 3).is_none());
    assert!(layer.get_at("a", 3).is_some());
    assert!(layer.get_at("c", 3).is_some());
}

#[test]
fn full_layer_evicts_even_when_key_exists() {
    let policy = EvictionPolicy {
        strategy: EvictionStrategy::LRU,
        max_entries: 2,
        ..EvictionPolicy::default()
    };
    let mut layer = LocalCache::new(Span::from_secs(60), policy);
    layer.set_with_ttl_at("a", "1".to_string(), Span::from_secs(60), 0);
    layer.set_with_ttl_at("b", "2".to_string(), Span::from_secs(60), 10);
    // the layer is full, so the least recently used value goes first
    layer.set_with_ttl_at("b", "3".to_string(), Span::from_secs(60), 20);
    assert_eq!(layer.metadata_snapshot().len(), 1);
    assert_eq!(layer.get_at("b", 21), Some("3".to_string()));
    assert_eq!(layer.get_at("a", 21), None);
}

#[test]
fn zero_capacity_keeps_only_the_latest() {
    let policy = EvictionPolicy {
        max_entries: 0,
        ..EvictionPolicy::default()
    };
    let mut layer = LocalCache::new(Span::from_secs(60), policy);
    layer.set_with_ttl_at("a", "1".to_string(), Span::from_secs(60), 0);
    layer.set_with_ttl_at("b", "2".to_string(), Span::from_secs(60), 0);
    assert_eq!(layer.metadata_snapshot().len(), 1);
    assert!(layer.get_at("b", 1).is_some());
}

#[test]
fn writes_never_exceed_capacity() {
    let policy = EvictionPolicy {
        strategy: EvictionStrategy::LRU,
        max_entries: 3,
        ..EvictionPolicy::default()
    };
    let mut layer = LocalCache::new(Span::from_secs(60), policy);
    for (i, key) in ["a", "b", "c", "d", "e", "a", "f"].iter().enumerate() {
        layer.set_with_ttl_at(key, "v".to_string(), Span::from_secs(60), i as i128);
        assert!(layer.metadata_snapshot().len() <= 3);
    }
}

#[test]
fn read_survives_unrelated_calls_in_between() {
    let mut layer = LocalCache::default();
    layer.set_with_ttl_at("k", "v".to_string(), Span::from_secs(10), 0);
    layer.set_with_ttl_at("other", "w".to_string(), Span::from_secs(1), 1);
    assert_eq!(layer.get_at("other", 2), Some("w".to_string()));
    assert_eq!(layer.get_at("k", 3), Some("v".to_string()));
    assert_eq!(layer.delete_pattern("oth*"), 1);
    assert_eq!(layer.get_at("k", 10 * SEC), Some("v".to_string()));
}

#[test]
fn delete_pattern_counts_and_keeps_others() {
    let mut layer = DatabaseCache::default();
    layer.set_with_ttl_at("list:tip:1", "x".to_string(), Span::from_secs(60), 0);
    layer.set_with_ttl_at("tip:1", "y".to_string(), Span::from_secs(60), 0);
    layer.set_with_ttl_at("tip:2", "z".to_string(), Span::from_secs(60), 0);
    assert_eq!(layer.delete_pattern("nothing"), 0);
    assert_eq!(layer.delete_pattern("tip:1"), 1);
    assert_eq!(layer.delete_pattern("*"), 2);
    assert_eq!(layer.get_at("tip:2", 1), None);
}

#[test]
fn range_checks_report_chrono_limits() {
    let policy = EvictionPolicy {
        strategy: EvictionStrategy::TTL,
        max_entries: 2,
        ..EvictionPolicy::default()
    };
    let longest = Span::new(TIMEDELTA_MAX_SECS, TIMEDELTA_MAX_SUBSEC_NANOS);
    let mut layer = LocalCache::new(Span::from_secs(60), policy);
    layer.set_with_ttl_at("a", "1".to_string(), Span::from_secs(60), 0);
    // an expiry past the year 262142 cannot be computed by chrono
    layer.set_with_ttl_at("far", "2".to_string(), longest, 0);
    assert!(layer.layer().read_defined("a"));
    assert!(!layer.layer().read_defined("far"));
    assert!(layer.layer().read_defined("missing"));
    // the layer is full and ordering by expiry would compute the bad one
    assert!(!layer.layer().write_defined(Span::from_secs(1)));
    let huge_default = LocalCache::new(
        Span::from_secs(TIMEDELTA_MAX_SECS + 1),
        EvictionPolicy::default(),
    );
    assert!(!huge_default.layer().write_defined(Span::from_secs(u64::MAX)));
    assert!(huge_default.layer().write_defined(longest));
}

#[test]
fn shared_layer_reads_and_writes() {
    let mut layer = SharedLayer::new(Span::from_secs(1), EvictionPolicy::default());
    assert_eq!(layer.default_ttl(), Span::from_secs(1));
    layer.set_with_ttl("k", "v".to_string(), Span::from_secs(60));
    assert_eq!(layer.get("k"), Some("v".to_string()));
    assert_eq!(layer.delete_pattern("k"), 1);
    assert_eq!(layer.get("k"), None);
}

#[test]
fn spans_of_whole_seconds() {
    let s = Span::from_secs(7);
    assert_eq!(s.secs, 7);
    assert_eq!(s.nanos, 0);
    assert_eq!(Span::new(2, 5), Span { secs: 2, nanos: 5 });
}
