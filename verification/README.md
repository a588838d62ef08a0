# layered_cache

A three-tier key/value cache (in-process, shared, durable) with
time-to-live expiry, four eviction strategies (LRU, LFU, TTL, adaptive),
wildcard invalidation and invalidation across nodes, plus the reading of the
API's rate-limit settings. The library under `src/` is verified with Verus;
`app/` is the asynchronous service around it (locks, JSON, the invalidation
bus and listener, the environment and the HTTP layer of the rate limiter).

Instants are nanoseconds since the Unix epoch (`i128`); spans are whole
seconds and nanoseconds (`clock::Span`), as `std::time::Duration` holds them.

- `src/cache/layers.rs`: one tier (`SharedLayer`, wrapped as `LocalCache`,
  `RedisCache`, `DatabaseCache`), key patterns, and the laws of reads,
  writes, eviction and deletion.
- `src/cache/layer_model.rs`: the model of one tier's contents and its
  laws.
- `src/cache/history.rs`: read-after-write across any calls in between,
  for one tier and through the three tiers.
- `src/cache/policies.rs`: eviction policies and victim selection.
- `src/cache/mod.rs`: the tiers together (`MultiLayerCache`).
- `src/cache/coordination.rs`, `src/cache/invalidation.rs`: invalidation
  messages between nodes and invalidation on updates.
- `src/middleware/rate_limiter.rs`: rate-limit settings and the per-IP
  governor configuration built from them.
- `src/middleware/limiter_config.rs`: the tower_governor configuration,
  made only through its trusted builder.
- `src/clock.rs`: the wall clock and chrono's range of instants.
