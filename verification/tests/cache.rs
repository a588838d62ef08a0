use layered_cache::cache::layers::{DatabaseCache, LocalCache, RedisCache};
use layered_cache::cache::policies::{EvictionPolicy, EvictionStrategy};
use layered_cache::cache::MultiLayerCache;
use layered_cache::clock::Span;

const MS: i128 = 1_000_000;
const SEC: i128 = 1_000_000_000;

#[test]
fn reads_from_lower_tier_and_backfills_upper_layers() {
    let mut cache = MultiLayerCache::with_defaults();
    let payload: serde_json::Value = serde_json::from_str("{\"v\":7}").unwrap();

    cache
        .l3
        .set_with_ttl("creator:alice", payload.to_string(), Span::from_secs(30));

    let value: Option<serde_json::Value> = cache
        .get("creator:alice")
        .and_then(|raw| serde_json::from_str(&raw).ok());
    assert_eq!(value, Some(payload));

    let l2 = cache.l2.get("creator:alice");
    let l1 = cache.l1.get("creator:alice");
    assert!(l2.is_some());
    assert!(l1.is_some());
}

#[test]
fn second_tier_hit_fills_only_the_first() {
    let mut cache = MultiLayerCache::with_defaults();
    cache.l2.set_with_ttl_at("k", "v".to_string(), Span::from_secs(10), 0);
    assert_eq!(cache.get_at("k", 5), Some("v".to_string()));
    assert_eq!(cache.l1.get_at("k", 6), Some("v".to_string()));
    assert_eq!(cache.l3.get_at("k", 6), None);
    // the first tier keeps its own default time-to-live of sixty seconds
    assert_eq!(cache.l1.metadata_snapshot()[0].ttl, 60 * SEC);
}

#[test]
fn miss_everywhere_reads_nothing() {
    let mut cache = MultiLayerCache::with_defaults();
    assert_eq!(cache.get_at("absent", 0), None);
}

#[test]
fn set_writes_every_tier_and_reads_back() {
    let mut cache = MultiLayerCache::with_defaults();
    cache.set_at("creator:alice", "{\"rank\":1}".to_string(), Span::from_secs(30), 1_000 * MS);
    assert_eq!(cache.get_at("creator:alice", 31_000 * MS), Some("{\"rank\":1}".to_string()));
    assert_eq!(cache.l2.get_at("creator:alice", 1_000 * MS), Some("{\"rank\":1}".to_string()));
    assert_eq!(cache.l3.get_at("creator:alice", 1_000 * MS), Some("{\"rank\":1}".to_string()));
    // after expiry in every tier nothing is found
    assert_eq!(cache.get_at("creator:alice", 31_000 * MS + 1), None);
}

#[test]
fn invalidate_pattern_clears_every_tier() {
    let mut cache = MultiLayerCache::with_defaults();
    cache.set_at("creator:alice", "1".to_string(), Span::from_secs(30), 0);
    cache.set_at("tip:alice", "2".to_string(), Span::from_secs(30), 0);
    cache.invalidate_pattern("creator:*");
    assert_eq!(cache.get_at("creator:alice", 1), None);
    assert_eq!(cache.get_at("tip:alice", 1), Some("2".to_string()));
}

#[test]
fn invalidate_l1_pattern_keeps_lower_tiers() {
    let mut cache = MultiLayerCache::with_defaults();
    cache.set_at("creator:alice", "1".to_string(), Span::from_secs(30), 0);
    cache.invalidate_l1_pattern("creator:*");
    assert_eq!(cache.l1.get_at("creator:alice", 1), None);
    assert_eq!(cache.l2.get_at("creator:alice", 1), Some("1".to_string()));
    // a read refills the first tier from the second
    assert_eq!(cache.get_at("creator:alice", 2), Some("1".to_string()));
    assert_eq!(cache.l1.get_at("creator:alice", 3), Some("1".to_string()));
}

#[test]
fn read_through_tiers_survives_evictions_above() {
    let tiny = EvictionPolicy {
        strategy: EvictionStrategy::LRU,
        max_entries: 1,
        ..EvictionPolicy::default()
    };
    let mut cache = MultiLayerCache::new(
        LocalCache::new(Span::from_secs(60), tiny.clone()),
        RedisCache::new(Span::from_secs(300), tiny),
        DatabaseCache::default(),
    );
    cache.set_at("k", "v".to_string(), Span::from_secs(30), 0);
    // another key pushes "k" out of the first two tiers
    cache.set_at("other", "w".to_string(), Span::from_secs(30), 1);
    cache.invalidate_l1_pattern("*");
    cache.unique_keys();
    assert_eq!(cache.get_at("k", 30 * SEC), Some("v".to_string()));
}

#[test]
fn new_uses_the_given_tiers() {
    let mut cache = MultiLayerCache::new(
        LocalCache::new(Span::from_secs(1), EvictionPolicy::default()),
        RedisCache::new(Span::from_secs(2), EvictionPolicy::default()),
        DatabaseCache::new(Span::from_secs(3), EvictionPolicy::default()),
    );
    assert_eq!(cache.l1.default_ttl(), Span::from_secs(1));
    assert_eq!(cache.l2.default_ttl(), Span::from_secs(2));
    assert_eq!(cache.l3.default_ttl(), Span::from_secs(3));
    assert!(cache.read_defined("k", 0));
    assert!(cache.write_defined(Span::from_secs(u64::MAX)));
    cache.l3.set_with_ttl_at("k", "v".to_string(), Span::from_secs(10), 0);
    assert_eq!(cache.get_at("k", 0), Some("v".to_string()));
}
