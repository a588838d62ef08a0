use layered_cache::cache::coordination::{CacheCoordinator, ListenerStep};
use layered_cache::cache::MultiLayerCache;
use layered_cache::clock::Span;

#[test]
fn peer_invalidation_clears_l1() {
    let sender = CacheCoordinator::new("node-a".to_string());
    let receiver = CacheCoordinator::new("node-b".to_string());

    let mut cache = MultiLayerCache::with_defaults();
    cache.set("creator:alice", "{\"rank\":1}".to_string(), Span::from_secs(30));

    let message = sender.coordinate_invalidation("creator:*");
    let step = receiver.handle_invalidation(&mut cache, Some(message));
    assert_eq!(step, ListenerStep::Applied);

    assert!(cache.l1.get("creator:alice").is_none());
}

#[test]
fn own_invalidation_is_ignored() {
    let node = CacheCoordinator::new("node-a".to_string());
    let mut cache = MultiLayerCache::with_defaults();
    cache.set_at("creator:alice", "1".to_string(), Span::from_secs(30), 0);
    let message = node.invalidation_message("creator:*", 0);
    assert_eq!(message.pattern, "creator:*");
    assert_eq!(message.node_id, "node-a");
    assert_eq!(message.timestamp, 0);
    assert_eq!(node.handle_invalidation(&mut cache, Some(message)), ListenerStep::OwnMessage);
    assert_eq!(cache.l1.get_at("creator:alice", 1), Some("1".to_string()));
}

#[test]
fn malformed_payload_is_skipped() {
    let node = CacheCoordinator::new("node-b".to_string());
    let mut cache = MultiLayerCache::with_defaults();
    cache.set_at("k", "1".to_string(), Span::from_secs(30), 0);
    assert_eq!(node.handle_invalidation(&mut cache, None), ListenerStep::Malformed);
    assert_eq!(cache.l1.get_at("k", 1), Some("1".to_string()));
}

#[test]
fn peer_invalidation_leaves_lower_tiers() {
    let receiver = CacheCoordinator::new("node-b".to_string());
    let sender = CacheCoordinator::new("node-a".to_string());
    let mut cache = MultiLayerCache::with_defaults();
    cache.set_at("creator:alice", "1".to_string(), Span::from_secs(30), 0);
    let message = sender.invalidation_message("creator:*", 5);
    receiver.handle_invalidation(&mut cache, Some(message));
    assert_eq!(cache.l1.get_at("creator:alice", 1), None);
    assert_eq!(cache.l2.get_at("creator:alice", 1), Some("1".to_string()));
    assert_eq!(cache.l3.get_at("creator:alice", 1), Some("1".to_string()));
}
