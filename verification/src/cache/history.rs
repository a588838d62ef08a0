use vstd::prelude::*;

use crate::cache::layer_model::{
    default_ttl_fits, effective_ttl, evicted_key, fresh_value, has_key, holds_key_at, index_of_key,
    is_expired, keys_unique, layer_get, layer_set, lemma_delete_drops_key, lemma_delete_keeps_other,
    lemma_effective_ttl_fits, lemma_filter_keeps_unique, lemma_get_expired, lemma_get_live,
    lemma_get_others, lemma_layer_set, lookup, not_matching,
};
use crate::cache::{
    l1_invalidate, tiered_get, tiered_invalidate, tiered_set, tiers_unique, TiersConfig, TiersView,
};
use crate::cache::layers::{wildcard_matches, StoredView};
use crate::cache::policies::EvictionPolicy;
use crate::clock::{fits_timedelta, Span};

verus! {

/// One call on a layer, by what it does to the layer's contents.
pub enum LayerCall {
    /// A read of `key` at `now`.
    Read { key: Seq<char>, now: i128 },
    /// A write of `payload` under `key` at `now`, asking for `ttl`.
    Write { key: Seq<char>, payload: Seq<char>, ttl: Span, now: i128 },
    /// A deletion of every value whose key `pattern` matches.
    Delete { pattern: Seq<char> },
}

/// The layer `s` after `call`.
pub open spec fn apply_call(
    s: Seq<StoredView>,
    policy: EvictionPolicy,
    default_ttl: Span,
    call: LayerCall,
) -> Seq<StoredView> {
    match call {
        LayerCall::Read { key, now } => layer_get(s, key, now).0,
        LayerCall::Write { key, payload, ttl, now } => layer_set(
            s,
            policy,
            default_ttl,
            key,
            payload,
            ttl,
            now,
        ),
        LayerCall::Delete { pattern } => not_matching(s, pattern),
    }
}

/// The layer `s` after `calls`, made in order.
pub open spec fn run_calls(
    s: Seq<StoredView>,
    policy: EvictionPolicy,
    default_ttl: Span,
    calls: Seq<LayerCall>,
) -> Seq<StoredView>
    decreases calls.len(),
{
    if calls.len() == 0 {
        s
    } else {
        apply_call(run_calls(s, policy, default_ttl, calls.drop_last()), policy, default_ttl, calls.last())
    }
}

/// `call`, made on the layer `s`, leaves the value under `key` in place:
/// it reads `key` no later than `expiry`, reads another key, writes
/// another key without evicting `key`, or deletes by a pattern that does
/// not match `key`.
pub open spec fn spares(
    s: Seq<StoredView>,
    policy: EvictionPolicy,
    call: LayerCall,
    key: Seq<char>,
    expiry: int,
) -> bool {
    match call {
        LayerCall::Read { key: k, now } => k == key ==> now <= expiry,
        LayerCall::Write { key: k, .. } => k != key && evicted_key(s, policy) != Some(key),
        LayerCall::Delete { pattern } => !wildcard_matches(pattern, key),
    }
}

/// Each of `calls` spares `key`, made on the layer as the calls before it
/// left it.
pub open spec fn calls_spare(
    s: Seq<StoredView>,
    policy: EvictionPolicy,
    default_ttl: Span,
    calls: Seq<LayerCall>,
    key: Seq<char>,
    expiry: int,
) -> bool {
    forall|i: int|
        0 <= i < calls.len() ==> #[trigger] spares(
            run_calls(s, policy, default_ttl, calls.take(i)),
            policy,
            calls[i],
            key,
            expiry,
        )
}

/// The layer holds `payload` under `key`, created at `created_at` with a
/// time-to-live of `ttl`.
pub open spec fn holds_written(
    s: Seq<StoredView>,
    key: Seq<char>,
    payload: Seq<char>,
    created_at: int,
    ttl: int,
) -> bool {
    &&& lookup(s, key) is Some
    &&& lookup(s, key)->0.payload == payload
    &&& lookup(s, key)->0.created_at == created_at
    &&& lookup(s, key)->0.ttl == ttl
}

/// A call that spares `key` keeps the value written under it.
proof fn lemma_call_spares(
    s: Seq<StoredView>,
    policy: EvictionPolicy,
    default_ttl: Span,
    call: LayerCall,
    key: Seq<char>,
    payload: Seq<char>,
    created_at: int,
    ttl: int,
)
    requires
        keys_unique(s),
        holds_written(s, key, payload, created_at, ttl),
        spares(s, policy, call, key, created_at + ttl),
    ensures
        keys_unique(apply_call(s, policy, default_ttl, call)),
        holds_written(apply_call(s, policy, default_ttl, call), key, payload, created_at, ttl),
{
    match call {
        LayerCall::Read { key: k, now } => {
            if k == key {
                lemma_get_live(s, key, now);
            } else {
                lemma_get_others(s, k, now, key);
            }
        },
        LayerCall::Write { key: k, payload: p, ttl: d, now } => {
            lemma_layer_set(s, policy, default_ttl, k, p, d, now, key);
        },
        LayerCall::Delete { pattern } => {
            lemma_delete_keeps_other(s, pattern, key);
        },
    }
}

/// Calls that each spare `key` keep the value written under it.
proof fn lemma_calls_spare(
    s: Seq<StoredView>,
    policy: EvictionPolicy,
    default_ttl: Span,
    calls: Seq<LayerCall>,
    key: Seq<char>,
    payload: Seq<char>,
    created_at: int,
    ttl: int,
)
    requires
        keys_unique(s),
        holds_written(s, key, payload, created_at, ttl),
        calls_spare(s, policy, default_ttl, calls, key, created_at + ttl),
    ensures
        keys_unique(run_calls(s, policy, default_ttl, calls)),
        holds_written(run_calls(s, policy, default_ttl, calls), key, payload, created_at, ttl),
    decreases calls.len(),
{
    if calls.len() > 0 {
        let init = calls.drop_last();
        let n = calls.len() - 1;
        assert forall|i: int| 0 <= i < init.len() implies #[trigger] spares(
            run_calls(s, policy, default_ttl, init.take(i)),
            policy,
            init[i],
            key,
            created_at + ttl,
        ) by {
            assert(init.take(i) =~= calls.take(i));
            assert(spares(
                run_calls(s, policy, default_ttl, calls.take(i)),
                policy,
                calls[i],
                key,
                created_at + ttl,
            ));
        }
        lemma_calls_spare(s, policy, default_ttl, init, key, payload, created_at, ttl);
        assert(calls.take(n) =~= init);
        assert(spares(
            run_calls(s, policy, default_ttl, calls.take(n)),
            policy,
            calls[n],
            key,
            created_at + ttl,
        ));
        lemma_call_spares(
            run_calls(s, policy, default_ttl, init),
            policy,
            default_ttl,
            calls.last(),
            key,
            payload,
            created_at,
            ttl,
        );
    }
}

/// A read returns what a write stored under its key, whatever calls came
/// in between, as long as none of them overwrote, evicted or deleted the
/// key or read it after it ran out, and the read comes no later than the
/// write's time-to-live allows.
pub proof fn lemma_read_after_write_between(
    s: Seq<StoredView>,
    policy: EvictionPolicy,
    default_ttl: Span,
    key: Seq<char>,
    payload: Seq<char>,
    ttl: Span,
    written_at: i128,
    calls: Seq<LayerCall>,
    read_at: i128,
)
    requires
        keys_unique(s),
        fits_timedelta(ttl) || default_ttl_fits(default_ttl),
        calls_spare(
            layer_set(s, policy, default_ttl, key, payload, ttl, written_at),
            policy,
            default_ttl,
            calls,
            key,
            written_at + effective_ttl(ttl, default_ttl),
        ),
        read_at <= written_at + effective_ttl(ttl, default_ttl),
    ensures
        layer_get(
            run_calls(
                layer_set(s, policy, default_ttl, key, payload, ttl, written_at),
                policy,
                default_ttl,
                calls,
            ),
            key,
            read_at,
        ).1 == Some(payload),
{
    let u = layer_set(s, policy, default_ttl, key, payload, ttl, written_at);
    let eff = effective_ttl(ttl, default_ttl);
    lemma_effective_ttl_fits(ttl, default_ttl);
    lemma_layer_set(s, policy, default_ttl, key, payload, ttl, written_at, key);
    assert(lookup(u, key) == Some(fresh_value(key, payload, ttl, default_ttl, written_at)));
    lemma_calls_spare(u, policy, default_ttl, calls, key, payload, written_at as int, eff);
    lemma_get_live(run_calls(u, policy, default_ttl, calls), key, read_at);
}

/// One call on the three tiers, by what it does to their contents.
pub enum TierCall {
    /// A read of `key` at `now` through the tiers.
    Read { key: Seq<char>, now: i128 },
    /// A write of `payload` under `key` at `now` into every tier, asking
    /// for `ttl`.
    Write { key: Seq<char>, payload: Seq<char>, ttl: Span, now: i128 },
    /// A deletion, from every tier, of the values whose keys `pattern`
    /// matches.
    Invalidate { pattern: Seq<char> },
    /// A deletion, from the first tier only, of the values whose keys
    /// `pattern` matches.
    InvalidateFirst { pattern: Seq<char> },
}

/// The tiers `v` after `call`.
pub open spec fn apply_tier_call(v: TiersView, c: TiersConfig, call: TierCall) -> TiersView {
    match call {
        TierCall::Read { key, now } => tiered_get(v, c, key, now).0,
        TierCall::Write { key, payload, ttl, now } => tiered_set(v, c, key, payload, ttl, now),
        TierCall::Invalidate { pattern } => tiered_invalidate(v, pattern),
        TierCall::InvalidateFirst { pattern } => l1_invalidate(v, pattern),
    }
}

/// The tiers `v` after `calls`, made in order.
pub open spec fn run_tier_calls(v: TiersView, c: TiersConfig, calls: Seq<TierCall>) -> TiersView
    decreases calls.len(),
{
    if calls.len() == 0 {
        v
    } else {
        apply_tier_call(run_tier_calls(v, c, calls.drop_last()), c, calls.last())
    }
}

/// `call`, made on the tiers `v`, leaves the durable tier's value under
/// `key` in place: it reads `key` no later than `expiry`, reads another
/// key, writes another key without evicting `key` from the third tier,
/// invalidates a pattern that does not match `key`, or invalidates the
/// first tier only.
pub open spec fn tier_spares(
    v: TiersView,
    c: TiersConfig,
    call: TierCall,
    key: Seq<char>,
    expiry: int,
) -> bool {
    match call {
        TierCall::Read { key: k, now } => k == key ==> now <= expiry,
        TierCall::Write { key: k, .. } => k != key && evicted_key(v.l3, c.p3) != Some(key),
        TierCall::Invalidate { pattern } => !wildcard_matches(pattern, key),
        TierCall::InvalidateFirst { .. } => true,
    }
}

/// Each of `calls` spares `key`, made on the tiers as the calls before it
/// left them.
pub open spec fn tier_calls_spare(
    v: TiersView,
    c: TiersConfig,
    calls: Seq<TierCall>,
    key: Seq<char>,
    expiry: int,
) -> bool {
    forall|i: int|
        0 <= i < calls.len() ==> #[trigger] tier_spares(
            run_tier_calls(v, c, calls.take(i)),
            c,
            calls[i],
            key,
            expiry,
        )
}

/// Whatever `s` holds under `key` is `payload`.
pub open spec fn holds_only(s: Seq<StoredView>, key: Seq<char>, payload: Seq<char>) -> bool {
    lookup(s, key) is Some ==> lookup(s, key)->0.payload == payload
}

/// The tiers have unique keys; the first two hold nothing but `payload`
/// under `key`, and the third holds `payload` under `key`, created at
/// `created_at` with a time-to-live of `ttl`.
pub open spec fn tiers_keep_written(
    v: TiersView,
    key: Seq<char>,
    payload: Seq<char>,
    created_at: int,
    ttl: int,
) -> bool {
    &&& tiers_unique(v)
    &&& holds_only(v.l1, key, payload)
    &&& holds_only(v.l2, key, payload)
    &&& holds_written(v.l3, key, payload, created_at, ttl)
}

/// A read of any key keeps a layer holding nothing but `payload` under
/// `key`.
proof fn lemma_get_holds_only(
    s: Seq<StoredView>,
    k: Seq<char>,
    now: i128,
    key: Seq<char>,
    payload: Seq<char>,
)
    requires
        keys_unique(s),
        holds_only(s, key, payload),
    ensures
        keys_unique(layer_get(s, k, now).0),
        holds_only(layer_get(s, k, now).0, key, payload),
        layer_get(s, k, now).1 is Some ==> lookup(s, k) is Some && layer_get(s, k, now).1->0
            == lookup(s, k)->0.payload,
{
    if k == key {
        if has_key(s, key) {
            let i = index_of_key(s, key);
            assert(holds_key_at(s, key, i));
            if is_expired(s[i], now as int) {
                lemma_get_expired(s, key, now);
            } else {
                lemma_get_live(s, key, now);
            }
        }
    } else {
        lemma_get_others(s, k, now, key);
        if has_key(s, k) {
            let i = index_of_key(s, k);
            assert(holds_key_at(s, k, i));
        }
    }
}

/// A write keeps a layer holding nothing but `payload` under `key`, when it
/// writes another key or writes `payload`.
proof fn lemma_set_holds_only(
    s: Seq<StoredView>,
    policy: EvictionPolicy,
    default_ttl: Span,
    k: Seq<char>,
    p: Seq<char>,
    ttl: Span,
    now: i128,
    key: Seq<char>,
    payload: Seq<char>,
)
    requires
        keys_unique(s),
        holds_only(s, key, payload),
        k != key || p == payload,
    ensures
        keys_unique(layer_set(s, policy, default_ttl, k, p, ttl, now)),
        holds_only(layer_set(s, policy, default_ttl, k, p, ttl, now), key, payload),
{
    lemma_layer_set(s, policy, default_ttl, k, p, ttl, now, key);
}

/// A deletion by any pattern keeps a layer holding nothing but `payload`
/// under `key`.
proof fn lemma_delete_holds_only(
    s: Seq<StoredView>,
    pattern: Seq<char>,
    key: Seq<char>,
    payload: Seq<char>,
)
    requires
        keys_unique(s),
        holds_only(s, key, payload),
    ensures
        keys_unique(not_matching(s, pattern)),
        holds_only(not_matching(s, pattern), key, payload),
{
    if wildcard_matches(pattern, key) {
        lemma_filter_keeps_unique(s, |v: StoredView| !wildcard_matches(pattern, v.key));
        lemma_delete_drops_key(s, pattern, key);
    } else {
        lemma_delete_keeps_other(s, pattern, key);
    }
}

/// A call on the tiers that spares `key` keeps what was written under it.
proof fn lemma_tier_call_spares(
    v: TiersView,
    c: TiersConfig,
    call: TierCall,
    key: Seq<char>,
    payload: Seq<char>,
    created_at: int,
    ttl: int,
)
    requires
        tiers_keep_written(v, key, payload, created_at, ttl),
        tier_spares(v, c, call, key, created_at + ttl),
    ensures
        tiers_keep_written(apply_tier_call(v, c, call), key, payload, created_at, ttl),
{
    match call {
        TierCall::Read { key: k, now } => {
            let (a1, r1) = layer_get(v.l1, k, now);
            let (a2, r2) = layer_get(v.l2, k, now);
            let (a3, r3) = layer_get(v.l3, k, now);
            lemma_get_holds_only(v.l1, k, now, key, payload);
            lemma_get_holds_only(v.l2, k, now, key, payload);
            if k == key {
                lemma_get_live(v.l3, key, now);
            } else {
                lemma_get_others(v.l3, k, now, key);
            }
            if r1 is None {
                if r2 is Some {
                    lemma_set_holds_only(a1, c.p1, c.d1, k, r2->0, c.d1, now, key, payload);
                } else if r3 is Some {
                    lemma_set_holds_only(a1, c.p1, c.d1, k, r3->0, c.d1, now, key, payload);
                    lemma_set_holds_only(a2, c.p2, c.d2, k, r3->0, c.d2, now, key, payload);
                }
            }
        },
        TierCall::Write { key: k, payload: p, ttl: d, now } => {
            lemma_set_holds_only(v.l1, c.p1, c.d1, k, p, d, now, key, payload);
            lemma_set_holds_only(v.l2, c.p2, c.d2, k, p, d, now, key, payload);
            lemma_layer_set(v.l3, c.p3, c.d3, k, p, d, now, key);
        },
        TierCall::Invalidate { pattern } => {
            lemma_delete_holds_only(v.l1, pattern, key, payload);
            lemma_delete_holds_only(v.l2, pattern, key, payload);
            lemma_delete_keeps_other(v.l3, pattern, key);
        },
        TierCall::InvalidateFirst { pattern } => {
            lemma_delete_holds_only(v.l1, pattern, key, payload);
        },
    }
}

/// Calls on the tiers that each spare `key` keep what was written under
/// it.
proof fn lemma_tier_calls_spare(
    v: TiersView,
    c: TiersConfig,
    calls: Seq<TierCall>,
    key: Seq<char>,
    payload: Seq<char>,
    created_at: int,
    ttl: int,
)
    requires
        tiers_keep_written(v, key, payload, created_at, ttl),
        tier_calls_spare(v, c, calls, key, created_at + ttl),
    ensures
        tiers_keep_written(run_tier_calls(v, c, calls), key, payload, created_at, ttl),
    decreases calls.len(),
{
    if calls.len() > 0 {
        let init = calls.drop_last();
        let n = calls.len() - 1;
        assert forall|i: int| 0 <= i < init.len() implies #[trigger] tier_spares(
            run_tier_calls(v, c, init.take(i)),
            c,
            init[i],
            key,
            created_at + ttl,
        ) by {
            assert(init.take(i) =~= calls.take(i));
            assert(tier_spares(
                run_tier_calls(v, c, calls.take(i)),
                c,
                calls[i],
                key,
                created_at + ttl,
            ));
        }
        lemma_tier_calls_spare(v, c, init, key, payload, created_at, ttl);
        assert(calls.take(n) =~= init);
        assert(tier_spares(run_tier_calls(v, c, calls.take(n)), c, calls[n], key, created_at + ttl));
        lemma_tier_call_spares(
            run_tier_calls(v, c, init),
            c,
            calls.last(),
            key,
            payload,
            created_at,
            ttl,
        );
    }
}

/// A read through the tiers returns what a write into every tier stored
/// under its key, whatever calls came in between, as long as none of them
/// overwrote the key, evicted it from the third tier, invalidated it in
/// every tier or read it after it ran out, and the read comes no later
/// than the third tier's time-to-live for the write allows.
pub proof fn lemma_tiered_read_after_write_between(
    v: TiersView,
    c: TiersConfig,
    key: Seq<char>,
    payload: Seq<char>,
    ttl: Span,
    written_at: i128,
    calls: Seq<TierCall>,
    read_at: i128,
)
    requires
        tiers_unique(v),
        fits_timedelta(ttl) || default_ttl_fits(c.d3),
        tier_calls_spare(
            tiered_set(v, c, key, payload, ttl, written_at),
            c,
            calls,
            key,
            written_at + effective_ttl(ttl, c.d3),
        ),
        read_at <= written_at + effective_ttl(ttl, c.d3),
    ensures
        tiered_get(
            run_tier_calls(tiered_set(v, c, key, payload, ttl, written_at), c, calls),
            c,
            key,
            read_at,
        ).1 == Some(payload),
{
    let u = tiered_set(v, c, key, payload, ttl, written_at);
    let eff = effective_ttl(ttl, c.d3);
    lemma_effective_ttl_fits(ttl, c.d3);
    lemma_layer_set(v.l1, c.p1, c.d1, key, payload, ttl, written_at, key);
    lemma_layer_set(v.l2, c.p2, c.d2, key, payload, ttl, written_at, key);
    lemma_layer_set(v.l3, c.p3, c.d3, key, payload, ttl, written_at, key);
    assert(lookup(u.l3, key) == Some(fresh_value(key, payload, ttl, c.d3, written_at)));
    lemma_tier_calls_spare(u, c, calls, key, payload, written_at as int, eff);
    let w = run_tier_calls(u, c, calls);
    lemma_get_holds_only(w.l1, key, read_at, key, payload);
    lemma_get_holds_only(w.l2, key, read_at, key, payload);
    lemma_get_live(w.l3, key, read_at);
}

} // verus!
