use layered_cache::cache::invalidation::CacheInvalidator;
use layered_cache::cache::MultiLayerCache;
use layered_cache::clock::Span;

#[test]
fn invalidator_removes_matching_keys() {
    let mut cache = MultiLayerCache::with_defaults();
    cache.set("creator:alice", "{\"id\":1}".to_string(), Span::from_secs(60));

    let invalidator = CacheInvalidator::new(false);
    let event = invalidator.invalidate_pattern(&mut cache, "creator:*");
    assert!(event.is_none());

    let value: Option<serde_json::Value> = cache
        .get("creator:alice")
        .and_then(|raw| serde_json::from_str(&raw).ok());
    assert!(value.is_none());
}

#[test]
fn publishing_invalidator_reports_the_pattern() {
    let mut cache = MultiLayerCache::with_defaults();
    let invalidator = CacheInvalidator::new(true);
    let event = invalidator.invalidate_pattern_at(&mut cache, "tip:*", 42).unwrap();
    assert_eq!(event.pattern, "tip:*");
    assert_eq!(event.timestamp, 42);
}

#[test]
fn update_patterns_name_the_entity_its_kind_and_its_lists() {
    let id = 0xa1a2a3a4b1b2c1c2d1d2d3d4d5d6d7d8u128;
    let patterns = CacheInvalidator::update_patterns("creator", id);
    assert_eq!(
        patterns,
        vec![
            "creator:a1a2a3a4-b1b2-c1c2-d1d2-d3d4d5d6d7d8".to_string(),
            "creator:*".to_string(),
            "list:creator:*".to_string(),
        ]
    );
    let zero = CacheInvalidator::update_patterns("tip", 0);
    assert_eq!(zero[0], "tip:00000000-0000-0000-0000-000000000000");
}

#[test]
fn update_invalidates_entity_and_lists() {
    let id = 7u128;
    let mut cache = MultiLayerCache::with_defaults();
    cache.set_at("creator:00000000-0000-0000-0000-000000000007", "a".to_string(), Span::from_secs(60), 0);
    cache.set_at("creator:other", "b".to_string(), Span::from_secs(60), 0);
    cache.set_at("list:creator:page1", "c".to_string(), Span::from_secs(60), 0);
    cache.set_at("tip:1", "d".to_string(), Span::from_secs(60), 0);
    let invalidator = CacheInvalidator::new(true);
    let events = invalidator.invalidate_on_update_at(&mut cache, "creator", id, 9);
    assert_eq!(events.len(), 3);
    assert_eq!(events[1].pattern, "creator:*");
    assert!(events.iter().all(|e| e.timestamp == 9));
    assert_eq!(cache.get_at("creator:00000000-0000-0000-0000-000000000007", 1), None);
    assert_eq!(cache.get_at("creator:other", 1), None);
    assert_eq!(cache.get_at("list:creator:page1", 1), None);
    assert_eq!(cache.get_at("tip:1", 1), Some("d".to_string()));
    let quiet = CacheInvalidator::new(false);
    assert!(quiet.invalidate_on_update_at(&mut cache, "tip", id, 9).is_empty());
    assert_eq!(cache.get_at("tip:1", 1), None);
}

#[test]
fn update_by_wall_clock_reports_three_events() {
    let mut cache = MultiLayerCache::with_defaults();
    cache.set("list:creator:recent", "x".to_string(), Span::from_secs(60));
    let invalidator = CacheInvalidator::new(true);
    let events = invalidator.invalidate_on_update(&mut cache, "creator", 1);
    assert_eq!(events.len(), 3);
    assert_eq!(events[0].pattern, "creator:00000000-0000-0000-0000-000000000001");
    assert_eq!(events[2].pattern, "list:creator:*");
    assert!(events.iter().all(|e| e.timestamp >= 0));
    assert_eq!(cache.get("list:creator:recent"), None);
}
