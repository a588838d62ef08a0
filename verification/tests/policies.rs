use chrono::Utc;
use layered_cache::cache::policies::{CacheEntry, EvictionPolicy, EvictionStrategy};

const MINUTE_NS: i128 = 60_000_000_000;

fn entry(access_count: u64, last_minutes_ago: i128, ttl_minutes: i128) -> CacheEntry {
    let clock = Utc::now();
    let now = clock.timestamp() as i128 * 1_000_000_000 + clock.timestamp_subsec_nanos() as i128;
    CacheEntry {
        key: "k".to_string(),
        created_at: now - 90 * MINUTE_NS,
        last_accessed: now - last_minutes_ago * MINUTE_NS,
        access_count,
        ttl: ttl_minutes * MINUTE_NS,
        size_bytes: 64,
    }
}

fn entry_at(key: &str, created_at: i128, last_accessed: i128, access_count: u64, ttl: i128, size_bytes: usize) -> CacheEntry {
    CacheEntry {
        key: key.to_string(),
        created_at,
        last_accessed,
        access_count,
        ttl,
        size_bytes,
    }
}

fn policy(strategy: EvictionStrategy) -> EvictionPolicy {
    EvictionPolicy {
        strategy,
        ..EvictionPolicy::default()
    }
}

#[test]
fn ttl_policy_evicts_expired_entries() {
    let policy = EvictionPolicy {
        strategy: EvictionStrategy::TTL,
        ..EvictionPolicy::default()
    };
    assert!(policy.should_evict(&entry(10, 2, 30)));
}

#[test]
fn lfu_policy_evicts_low_frequency_entries() {
    let policy = EvictionPolicy {
        strategy: EvictionStrategy::LFU,
        min_access_count: 5,
        ..EvictionPolicy::default()
    };
    assert!(policy.should_evict(&entry(2, 2, 300)));
}

#[test]
fn default_policy_values() {
    let p = EvictionPolicy::default();
    assert!(matches!(p.strategy, EvictionStrategy::Adaptive));
    assert_eq!(p.max_entries, 10_000);
    assert_eq!(p.lru_max_idle, 3_600_000_000_000);
    assert_eq!(p.min_access_count, 5);
}

#[test]
fn lru_evicts_only_after_the_idle_limit() {
    let p = policy(EvictionStrategy::LRU);
    let e = entry_at("k", 0, 1_000, 1, 10, 1);
    // idle limit is one hour: evicted once last_accessed < now - 3_600_000_000_000
    assert!(!p.should_evict_at(&e, 3_600_000_001_000));
    assert!(p.should_evict_at(&e, 3_600_000_001_001));
}

#[test]
fn ttl_evicts_strictly_after_expiry() {
    let p = policy(EvictionStrategy::TTL);
    let e = entry_at("k", 1_000, 1_000, 1, 500, 1);
    assert!(!p.should_evict_at(&e, 1_500));
    assert!(p.should_evict_at(&e, 1_501));
}

#[test]
fn lfu_ignores_time() {
    let p = policy(EvictionStrategy::LFU);
    let e = entry_at("k", 0, 0, 5, 0, 1);
    assert!(!p.should_evict_at(&e, 0));
    assert!(!p.should_evict_at(&e, i128::MAX));
    let low = entry_at("k", 0, 0, 4, 0, 1);
    assert!(low.access_count < 5);
    assert!(p.should_evict_at(&low, 0));
}

#[test]
fn adaptive_evicts_expired_or_stale_and_unpopular() {
    let p = policy(EvictionStrategy::Adaptive);
    let now: i128 = 10_000_000_000_000;
    let day: i128 = 86_400_000_000_000;
    // expired
    assert!(p.should_evict_at(&entry_at("a", 0, now, 100, 1_000, 1), now));
    // stale (over thirty minutes unread) and low value
    assert!(p.should_evict_at(&entry_at("b", now, now - 1_800_000_000_001, 4, day, 1), now));
    // stale but popular
    assert!(!p.should_evict_at(&entry_at("c", now, now - 1_800_000_000_001, 5, day, 1), now));
    // unpopular but recently read
    assert!(!p.should_evict_at(&entry_at("d", now, now - 1_800_000_000_000, 1, day, 1), now));
}

#[test]
fn eviction_stays_true_as_time_passes() {
    let p = policy(EvictionStrategy::TTL);
    let e = entry_at("k", 0, 0, 1, 100, 1);
    assert!(p.should_evict_at(&e, 101));
    assert!(p.should_evict_at(&e, 1_000_000));
}

#[test]
fn lru_victims_are_least_recently_used_first() {
    let p = policy(EvictionStrategy::LRU);
    let entries = vec![
        entry_at("a", 0, 30, 1, 0, 1),
        entry_at("b", 0, 10, 1, 0, 1),
        entry_at("c", 0, 20, 1, 0, 1),
    ];
    assert_eq!(p.select_victims(&entries, 2), vec!["b".to_string(), "c".to_string()]);
    assert_eq!(p.select_victims(&entries, 10), vec!["b".to_string(), "c".to_string(), "a".to_string()]);
    assert!(p.select_victims(&entries, 0).is_empty());
    assert!(p.select_victims(&[], 3).is_empty());
}

#[test]
fn lfu_victims_keep_order_among_ties() {
    let p = policy(EvictionStrategy::LFU);
    let entries = vec![
        entry_at("x", 0, 0, 3, 0, 1),
        entry_at("y", 0, 0, 1, 0, 1),
        entry_at("z", 0, 0, 3, 0, 1),
        entry_at("w", 0, 0, 1, 0, 1),
    ];
    assert_eq!(
        p.select_victims(&entries, 4),
        vec!["y".to_string(), "w".to_string(), "x".to_string(), "z".to_string()]
    );
}

#[test]
fn ttl_victims_expire_soonest_first() {
    let p = policy(EvictionStrategy::TTL);
    let entries = vec![
        entry_at("late", 100, 0, 1, 1_000, 1),
        entry_at("early", 500, 0, 1, 100, 1),
    ];
    assert_eq!(p.select_victims(&entries, 1), vec!["early".to_string()]);
}

#[test]
fn adaptive_victims_prefer_rare_then_old_then_large() {
    let p = policy(EvictionStrategy::Adaptive);
    let entries = vec![
        entry_at("popular", 0, 0, 9, 0, 1),
        entry_at("small", 0, 5, 1, 0, 10),
        entry_at("large", 0, 5, 1, 0, 1_000),
        entry_at("older", 0, 1, 1, 0, 1),
    ];
    assert_eq!(
        p.select_victims(&entries, 4),
        vec![
            "older".to_string(),
            "large".to_string(),
            "small".to_string(),
            "popular".to_string()
        ]
    );
}
