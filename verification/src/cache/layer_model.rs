use vstd::prelude::*;

use crate::cache::layers::{wildcard_matches, StoredView};
use crate::cache::policies::{
    expiries_defined, first_least, lemma_first_least_in_bounds, lemma_first_least_is_least,
    ranks_before, victim_order, victims_defined, EntryView, EvictionPolicy, EvictionStrategy,
};
use crate::clock::{
    fits_timedelta, is_instant, seconds_fit, span_nanos, wrapped_secs, Span, NANOS_PER_SEC,
    TIMEDELTA_MAX_SECS, TIMEDELTA_MAX_SUBSEC_NANOS,
};
use vstd::utf8::encode_utf8;

verus! {

/// No two stored values share a key.
pub open spec fn keys_unique(s: Seq<StoredView>) -> bool {
    forall|i: int, j: int| 0 <= i < j < s.len() ==> s[i].key != s[j].key
}

/// Position `i` of `s` holds `key`.
pub open spec fn holds_key_at(s: Seq<StoredView>, key: Seq<char>, i: int) -> bool {
    0 <= i < s.len() && s[i].key == key
}

/// `s` holds `key`.
pub open spec fn has_key(s: Seq<StoredView>, key: Seq<char>) -> bool {
    exists|i: int| holds_key_at(s, key, i)
}

/// The position of `key` in `s`, where `s` holds it.
pub open spec fn index_of_key(s: Seq<StoredView>, key: Seq<char>) -> int {
    choose|i: int| holds_key_at(s, key, i)
}

/// The value stored under `key`, if any.
pub open spec fn lookup(s: Seq<StoredView>, key: Seq<char>) -> Option<StoredView> {
    if has_key(s, key) {
        Some(s[index_of_key(s, key)])
    } else {
        None
    }
}

/// A value has expired at `now` once its creation plus its time-to-live
/// lies before `now`.
pub open spec fn is_expired(v: StoredView, now: int) -> bool {
    v.created_at + v.ttl < now
}

/// `v` after a read at `now`: its last access is `now` and its access count
/// grows by one, saturating.
pub open spec fn touched(v: StoredView, now: i128) -> StoredView {
    StoredView { last_accessed: now, access_count: v.access_count.saturating_add(1), ..v }
}

/// A read of `key` at `now`: the layer afterwards and the payload returned.
/// A missing key returns nothing; an expired one is dropped and returns
/// nothing; a live one is touched and returns its payload.
pub open spec fn layer_get(s: Seq<StoredView>, key: Seq<char>, now: i128) -> (Seq<StoredView>, Option<
    Seq<char>,
>) {
    if has_key(s, key) {
        let i = index_of_key(s, key);
        if is_expired(s[i], now as int) {
            (s.remove(i), None)
        } else {
            (s.update(i, touched(s[i], now)), Some(s[i].payload))
        }
    } else {
        (s, None)
    }
}

/// The eviction metadata of a stored value.
pub open spec fn metadata_of(v: StoredView) -> EntryView {
    EntryView {
        key: v.key,
        created_at: v.created_at,
        last_accessed: v.last_accessed,
        access_count: v.access_count,
        ttl: v.ttl,
        size_bytes: encode_utf8(v.payload).len() as usize,
    }
}

/// The eviction metadata of every stored value, in order.
pub open spec fn snapshot(s: Seq<StoredView>) -> Seq<EntryView> {
    s.map_values(|v: StoredView| metadata_of(v))
}

/// The time-to-live, in nanoseconds, a write keeps: the requested span
/// when it converts to a chrono `TimeDelta`, else `TimeDelta::seconds` of
/// the layer default's whole seconds cast to `i64`.
pub open spec fn effective_ttl(ttl: Span, default_ttl: Span) -> int {
    if fits_timedelta(ttl) {
        span_nanos(ttl)
    } else {
        wrapped_secs(default_ttl.secs) * NANOS_PER_SEC
    }
}

/// The default time-to-live can stand in for a requested one that does not
/// convert: `TimeDelta::seconds` accepts its whole seconds cast to `i64`.
pub open spec fn default_ttl_fits(default_ttl: Span) -> bool {
    seconds_fit(wrapped_secs(default_ttl.secs))
}

/// The position of the value a full layer evicts: the first least valuable
/// one under the policy.
pub open spec fn victim_index(s: Seq<StoredView>, policy: EvictionPolicy) -> int {
    first_least(policy.strategy, snapshot(s))
}

/// The layer before a write: when it holds `max_entries` values or more
/// (and holds any), the policy's victim is dropped.
pub open spec fn after_eviction(s: Seq<StoredView>, policy: EvictionPolicy) -> Seq<StoredView> {
    if s.len() >= policy.max_entries && s.len() > 0 {
        s.remove(victim_index(s, policy))
    } else {
        s
    }
}

/// `v` replaces the value under its key, or joins the layer at the end.
pub open spec fn upsert(s: Seq<StoredView>, v: StoredView) -> Seq<StoredView> {
    if has_key(s, v.key) {
        s.update(index_of_key(s, v.key), v)
    } else {
        s.push(v)
    }
}

/// The value a write of `payload` under `key` at `now` stores.
pub open spec fn fresh_value(
    key: Seq<char>,
    payload: Seq<char>,
    ttl: Span,
    default_ttl: Span,
    now: i128,
) -> StoredView {
    StoredView {
        key,
        payload,
        created_at: now,
        last_accessed: now,
        access_count: 1,
        ttl: effective_ttl(ttl, default_ttl) as i128,
    }
}

/// A write of `payload` under `key` at `now`: eviction first, then the
/// fresh value.
pub open spec fn layer_set(
    s: Seq<StoredView>,
    policy: EvictionPolicy,
    default_ttl: Span,
    key: Seq<char>,
    payload: Seq<char>,
    ttl: Span,
    now: i128,
) -> Seq<StoredView> {
    upsert(after_eviction(s, policy), fresh_value(key, payload, ttl, default_ttl, now))
}

/// A read of `key` stays within chrono's range: the value under it, if
/// any, has an expiry chrono can hold.
pub open spec fn get_defined(s: Seq<StoredView>, key: Seq<char>) -> bool {
    match lookup(s, key) {
        Some(v) => is_instant(v.created_at + v.ttl),
        None => true,
    }
}

/// A write with a requested time-to-live of `ttl` stays within
/// chrono's range: the time-to-live fits a `TimeDelta`, and a full layer's
/// policy can order its values.
pub open spec fn set_defined(
    s: Seq<StoredView>,
    policy: EvictionPolicy,
    default_ttl: Span,
    ttl: Span,
) -> bool {
    &&& fits_timedelta(ttl) || default_ttl_fits(default_ttl)
    &&& s.len() >= policy.max_entries ==> victims_defined(policy.strategy, snapshot(s))
}

/// Every stored value's expiry is an instant chrono can hold.
pub open spec fn stored_expiries_defined(s: Seq<StoredView>) -> bool {
    forall|i: int| 0 <= i < s.len() ==> is_instant(#[trigger] s[i].created_at + s[i].ttl)
}

/// The values whose keys `pattern` matches.
pub open spec fn matching(s: Seq<StoredView>, pattern: Seq<char>) -> Seq<StoredView> {
    s.filter(|v: StoredView| wildcard_matches(pattern, v.key))
}

/// The values whose keys `pattern` does not match.
pub open spec fn not_matching(s: Seq<StoredView>, pattern: Seq<char>) -> Seq<StoredView> {
    s.filter(|v: StoredView| !wildcard_matches(pattern, v.key))
}

/// The text of an optional string.
pub open spec fn opt_view(o: Option<String>) -> Option<Seq<char>> {
    match o {
        Some(s) => Some(s@),
        None => None,
    }
}

/// A position that holds a key is the one `index_of_key` names.
pub proof fn lemma_index_of_key(s: Seq<StoredView>, key: Seq<char>, i: int)
    requires
        keys_unique(s),
        holds_key_at(s, key, i),
    ensures
        has_key(s, key),
        index_of_key(s, key) == i,
{
    let j = index_of_key(s, key);
    assert(holds_key_at(s, key, j));
    if i < j {
        assert(s[i].key != s[j].key);
    } else if j < i {
        assert(s[j].key != s[i].key);
    }
}

/// Removing a value keeps keys unique.
pub proof fn lemma_remove_keeps_unique(s: Seq<StoredView>, i: int)
    requires
        keys_unique(s),
        0 <= i < s.len(),
    ensures
        keys_unique(s.remove(i)),
{
    let r = s.remove(i);
    assert forall|a: int, b: int| 0 <= a < b < r.len() implies r[a].key != r[b].key by {
        let a0 = if a < i { a } else { a + 1 };
        let b0 = if b < i { b } else { b + 1 };
        assert(r[a] == s[a0]);
        assert(r[b] == s[b0]);
    }
}

/// Filtering keeps keys unique.
pub proof fn lemma_filter_keeps_unique(s: Seq<StoredView>, pred: spec_fn(StoredView) -> bool)
    requires
        keys_unique(s),
    ensures
        keys_unique(s.filter(pred)),
    decreases s.len(),
{
    reveal(Seq::filter);
    if s.len() > 0 {
        let d = s.drop_last();
        assert(keys_unique(d));
        lemma_filter_keeps_unique(d, pred);
        let f = d.filter(pred);
        if pred(s.last()) {
            assert forall|a: int| 0 <= a < f.len() implies f[a].key != s.last().key by {
                d.lemma_filter_contains_rev(pred, f[a]);
                assert(d.contains(f[a]));
                let k = choose|k: int| 0 <= k < d.len() && d[k] == f[a];
                assert(s[k] == d[k]);
            }
            assert(keys_unique(f.push(s.last())));
        }
    }
}

/// Removing the value at `i` drops its key and leaves every other key's
/// value as it was.
pub proof fn lemma_lookup_remove(s: Seq<StoredView>, i: int, k: Seq<char>)
    requires
        keys_unique(s),
        0 <= i < s.len(),
    ensures
        keys_unique(s.remove(i)),
        k == s[i].key ==> lookup(s.remove(i), k) is None,
        k != s[i].key ==> lookup(s.remove(i), k) == lookup(s, k),
{
    let r = s.remove(i);
    lemma_remove_keeps_unique(s, i);
    if has_key(r, k) {
        let j = index_of_key(r, k);
        let j0 = if j < i { j } else { j + 1 };
        assert(r[j] == s[j0]);
        if k == s[i].key {
            assert(j0 != i);
            if j0 < i {
                assert(s[j0].key != s[i].key);
            } else {
                assert(s[i].key != s[j0].key);
            }
        } else {
            lemma_index_of_key(s, k, j0);
        }
    } else if k != s[i].key && has_key(s, k) {
        let j0 = index_of_key(s, k);
        let j = if j0 < i { j0 } else { j0 - 1 };
        assert(holds_key_at(r, k, j));
    }
}

/// Replacing the value at `i` by one with the same key changes only that
/// key's value.
pub proof fn lemma_lookup_update(s: Seq<StoredView>, i: int, v: StoredView, k: Seq<char>)
    requires
        keys_unique(s),
        0 <= i < s.len(),
        v.key == s[i].key,
    ensures
        keys_unique(s.update(i, v)),
        k == v.key ==> lookup(s.update(i, v), k) == Some(v),
        k != v.key ==> lookup(s.update(i, v), k) == lookup(s, k),
{
    let u = s.update(i, v);
    assert forall|a: int, b: int| 0 <= a < b < u.len() implies u[a].key != u[b].key by {
        assert(s[a].key != s[b].key);
    }
    if k == v.key {
        lemma_index_of_key(u, k, i);
    } else {
        if has_key(u, k) {
            let j = index_of_key(u, k);
            assert(j != i);
            lemma_index_of_key(s, k, j);
        } else if has_key(s, k) {
            let j = index_of_key(s, k);
            assert(holds_key_at(u, k, j));
        }
    }
}

/// Appending a value under a new key changes only that key's value.
pub proof fn lemma_lookup_push(s: Seq<StoredView>, v: StoredView, k: Seq<char>)
    requires
        keys_unique(s),
        !has_key(s, v.key),
    ensures
        keys_unique(s.push(v)),
        k == v.key ==> lookup(s.push(v), k) == Some(v),
        k != v.key ==> lookup(s.push(v), k) == lookup(s, k),
{
    let u = s.push(v);
    assert forall|a: int, b: int| 0 <= a < b < u.len() implies u[a].key != u[b].key by {
        if b == s.len() {
            assert(!holds_key_at(s, v.key, a));
        } else {
            assert(s[a].key != s[b].key);
        }
    }
    if k == v.key {
        lemma_index_of_key(u, k, s.len() as int);
    } else {
        if has_key(u, k) {
            let j = index_of_key(u, k);
            assert(j != s.len());
            lemma_index_of_key(s, k, j);
        } else if has_key(s, k) {
            let j = index_of_key(s, k);
            assert(holds_key_at(u, k, j));
        }
    }
}

/// Storing `v` makes it the value of its key and leaves every other key's
/// value as it was.
pub proof fn lemma_upsert(s: Seq<StoredView>, v: StoredView, k: Seq<char>)
    requires
        keys_unique(s),
    ensures
        keys_unique(upsert(s, v)),
        k == v.key ==> lookup(upsert(s, v), k) == Some(v),
        k != v.key ==> lookup(upsert(s, v), k) == lookup(s, k),
        upsert(s, v).len() == if has_key(s, v.key) {
            s.len()
        } else {
            s.len() + 1
        },
{
    if has_key(s, v.key) {
        let i = index_of_key(s, v.key);
        lemma_lookup_update(s, i, v, k);
    } else {
        lemma_lookup_push(s, v, k);
    }
}

/// The key a write evicts, if it evicts one.
pub open spec fn evicted_key(s: Seq<StoredView>, policy: EvictionPolicy) -> Option<Seq<char>> {
    if s.len() >= policy.max_entries && s.len() > 0 {
        Some(s[victim_index(s, policy)].key)
    } else {
        None
    }
}

/// Eviction keeps keys unique, drops at most the victim's key and leaves
/// every other key's value as it was.
pub proof fn lemma_after_eviction(s: Seq<StoredView>, policy: EvictionPolicy, k: Seq<char>)
    requires
        keys_unique(s),
    ensures
        keys_unique(after_eviction(s, policy)),
        evicted_key(s, policy) == Some(k) ==> lookup(after_eviction(s, policy), k) is None,
        evicted_key(s, policy) != Some(k) ==> lookup(after_eviction(s, policy), k) == lookup(s, k),
        after_eviction(s, policy).len() == if evicted_key(s, policy) is Some {
            s.len() - 1
        } else {
            s.len() as int
        },
{
    if s.len() >= policy.max_entries && s.len() > 0 {
        let m = victim_index(s, policy);
        lemma_first_least_in_bounds(policy.strategy, snapshot(s));
        lemma_lookup_remove(s, m, k);
    }
}

/// A full layer evicts a least valuable value: no value ranks before the
/// victim under the layer's policy.
pub proof fn lemma_eviction_takes_least(s: Seq<StoredView>, policy: EvictionPolicy)
    requires
        s.len() >= policy.max_entries,
        s.len() > 0,
    ensures
        0 <= victim_index(s, policy) < s.len(),
        after_eviction(s, policy) == s.remove(victim_index(s, policy)),
        forall|j: int|
            0 <= j < s.len() ==> !ranks_before(
                policy.strategy,
                #[trigger] snapshot(s)[j],
                snapshot(s)[victim_index(s, policy)],
            ),
{
    lemma_first_least_is_least(policy.strategy, snapshot(s));
}

/// The time-to-live a write keeps fits a chrono `TimeDelta`: at most
/// `i64::MAX` milliseconds either way.
pub proof fn lemma_effective_ttl_fits(ttl: Span, default_ttl: Span)
    requires
        fits_timedelta(ttl) || default_ttl_fits(default_ttl),
    ensures
        -(i64::MAX as int) * 1_000_000 <= effective_ttl(ttl, default_ttl) <= (i64::MAX as int)
            * 1_000_000,
{
    if !fits_timedelta(ttl) {
        let x = wrapped_secs(default_ttl.secs);
        assert(-(TIMEDELTA_MAX_SECS as int) * NANOS_PER_SEC <= x * NANOS_PER_SEC
            <= TIMEDELTA_MAX_SECS as int * NANOS_PER_SEC) by (nonlinear_arith)
            requires
                -(TIMEDELTA_MAX_SECS as int) <= x <= TIMEDELTA_MAX_SECS,
        ;
    } else {
        assert(span_nanos(ttl) <= TIMEDELTA_MAX_SECS as int * NANOS_PER_SEC
            + TIMEDELTA_MAX_SUBSEC_NANOS) by (nonlinear_arith)
            requires
                ttl.secs <= TIMEDELTA_MAX_SECS,
                ttl.secs == TIMEDELTA_MAX_SECS ==> ttl.nanos <= TIMEDELTA_MAX_SUBSEC_NANOS,
                ttl.secs < TIMEDELTA_MAX_SECS ==> ttl.nanos < NANOS_PER_SEC,
        ;
    }
}

/// A write keeps keys unique; it stores the fresh value under its key and
/// leaves every other key's value as it was, but for the key it evicts.
pub proof fn lemma_layer_set(
    s: Seq<StoredView>,
    policy: EvictionPolicy,
    default_ttl: Span,
    key: Seq<char>,
    payload: Seq<char>,
    ttl: Span,
    now: i128,
    k: Seq<char>,
)
    requires
        keys_unique(s),
    ensures
        keys_unique(layer_set(s, policy, default_ttl, key, payload, ttl, now)),
        k == key ==> lookup(layer_set(s, policy, default_ttl, key, payload, ttl, now), k)
            == Some(fresh_value(key, payload, ttl, default_ttl, now)),
        k != key && evicted_key(s, policy) != Some(k) ==> lookup(
            layer_set(s, policy, default_ttl, key, payload, ttl, now),
            k,
        ) == lookup(s, k),
        k != key && evicted_key(s, policy) == Some(k) ==> lookup(
            layer_set(s, policy, default_ttl, key, payload, ttl, now),
            k,
        ) is None,
{
    let e = after_eviction(s, policy);
    lemma_after_eviction(s, policy, k);
    lemma_upsert(e, fresh_value(key, payload, ttl, default_ttl, now), k);
}

/// The most values a layer under `policy` holds after a write: its
/// `max_entries`, or one when that is zero.
pub open spec fn capacity(policy: EvictionPolicy) -> int {
    if policy.max_entries == 0 {
        1
    } else {
        policy.max_entries as int
    }
}

/// Every write keeps a layer within its capacity: a layer that holds at
/// most `max_entries` values (or at most one, when `max_entries` is zero)
/// still does afterwards.
pub proof fn lemma_layer_set_bounded(
    s: Seq<StoredView>,
    policy: EvictionPolicy,
    default_ttl: Span,
    key: Seq<char>,
    payload: Seq<char>,
    ttl: Span,
    now: i128,
)
    requires
        keys_unique(s),
        s.len() <= capacity(policy),
    ensures
        layer_set(s, policy, default_ttl, key, payload, ttl, now).len() <= capacity(policy),
{
    lemma_after_eviction(s, policy, key);
    lemma_upsert(
        after_eviction(s, policy),
        fresh_value(key, payload, ttl, default_ttl, now),
        key,
    );
}

/// A read returns what the last write of the key stored, until that
/// value's time-to-live runs out.
pub proof fn lemma_read_after_write(
    s: Seq<StoredView>,
    policy: EvictionPolicy,
    default_ttl: Span,
    key: Seq<char>,
    payload: Seq<char>,
    ttl: Span,
    now: i128,
    t: i128,
)
    requires
        keys_unique(s),
        fits_timedelta(ttl) || default_ttl_fits(default_ttl),
        now <= t <= now + effective_ttl(ttl, default_ttl),
    ensures
        layer_get(layer_set(s, policy, default_ttl, key, payload, ttl, now), key, t).1
            == Some(payload),
{
    let u = layer_set(s, policy, default_ttl, key, payload, ttl, now);
    lemma_layer_set(s, policy, default_ttl, key, payload, ttl, now, key);
    lemma_effective_ttl_fits(ttl, default_ttl);
    assert(has_key(u, key));
}

/// A read finds nothing once the stored value's creation plus its
/// time-to-live lies before the read, and leaves the key absent.
pub proof fn lemma_read_after_expiry(s: Seq<StoredView>, key: Seq<char>, now: i128)
    requires
        keys_unique(s),
        lookup(s, key) is Some,
        lookup(s, key)->0.created_at + lookup(s, key)->0.ttl < now,
    ensures
        layer_get(s, key, now).1 is None,
        lookup(layer_get(s, key, now).0, key) is None,
        layer_get(s, key, now).0.len() == s.len() - 1,
{
    let i = index_of_key(s, key);
    assert(holds_key_at(s, key, i));
    lemma_lookup_remove(s, i, key);
}

/// A read of a value that has not run out (creation plus time-to-live at
/// or after the read) returns its payload and records the read: last access
/// at the read's instant, one more access (saturating at the maximum), the
/// rest unchanged.
pub proof fn lemma_read_before_expiry(s: Seq<StoredView>, key: Seq<char>, now: i128)
    requires
        keys_unique(s),
        lookup(s, key) is Some,
        now <= lookup(s, key)->0.created_at + lookup(s, key)->0.ttl,
    ensures
        layer_get(s, key, now).1 == Some(lookup(s, key)->0.payload),
        lookup(layer_get(s, key, now).0, key) is Some,
        lookup(layer_get(s, key, now).0, key)->0.last_accessed == now,
        lookup(layer_get(s, key, now).0, key)->0.access_count == if lookup(s, key)->0.access_count
            == u64::MAX {
            u64::MAX as int
        } else {
            lookup(s, key)->0.access_count + 1
        },
        lookup(layer_get(s, key, now).0, key)->0.payload == lookup(s, key)->0.payload,
        lookup(layer_get(s, key, now).0, key)->0.created_at == lookup(s, key)->0.created_at,
        lookup(layer_get(s, key, now).0, key)->0.ttl == lookup(s, key)->0.ttl,
        layer_get(s, key, now).0.len() == s.len(),
{
    lemma_get_live(s, key, now);
}

/// A write stores its payload under its key, created and last read at the
/// write's instant, read once, living for the requested span in
/// nanoseconds when it converts to a chrono `TimeDelta`, else for the
/// default's whole seconds.
pub proof fn lemma_write_stores(
    s: Seq<StoredView>,
    policy: EvictionPolicy,
    default_ttl: Span,
    key: Seq<char>,
    payload: Seq<char>,
    ttl: Span,
    now: i128,
)
    requires
        keys_unique(s),
        fits_timedelta(ttl) || default_ttl_fits(default_ttl),
    ensures
        lookup(layer_set(s, policy, default_ttl, key, payload, ttl, now), key) is Some,
        lookup(layer_set(s, policy, default_ttl, key, payload, ttl, now), key)->0.payload
            == payload,
        lookup(layer_set(s, policy, default_ttl, key, payload, ttl, now), key)->0.created_at
            == now,
        lookup(layer_set(s, policy, default_ttl, key, payload, ttl, now), key)->0.last_accessed
            == now,
        lookup(layer_set(s, policy, default_ttl, key, payload, ttl, now), key)->0.access_count
            == 1,
        fits_timedelta(ttl) ==> lookup(
            layer_set(s, policy, default_ttl, key, payload, ttl, now),
            key,
        )->0.ttl == ttl.secs * 1_000_000_000 + ttl.nanos,
        !fits_timedelta(ttl) ==> lookup(
            layer_set(s, policy, default_ttl, key, payload, ttl, now),
            key,
        )->0.ttl == wrapped_secs(default_ttl.secs) * 1_000_000_000,
{
    lemma_layer_set(s, policy, default_ttl, key, payload, ttl, now, key);
    lemma_effective_ttl_fits(ttl, default_ttl);
}

/// A write into a layer that already holds `max_entries` values or more
/// first drops the key a policy asked for one victim names; below that it
/// drops nothing.
pub proof fn lemma_write_evicts_first_victim(s: Seq<StoredView>, policy: EvictionPolicy)
    ensures
        s.len() >= policy.max_entries && s.len() > 0 ==> evicted_key(s, policy) == Some(
            victim_order(policy.strategy, snapshot(s), 1)[0],
        ),
        s.len() < policy.max_entries || s.len() == 0 ==> evicted_key(s, policy) is None,
{
    if s.len() >= policy.max_entries && s.len() > 0 {
        let m = victim_index(s, policy);
        lemma_first_least_in_bounds(policy.strategy, snapshot(s));
        assert(snapshot(s)[m].key == s[m].key);
    }
}

/// A read of an expired value drops it and returns nothing.
pub proof fn lemma_get_expired(s: Seq<StoredView>, key: Seq<char>, now: i128)
    requires
        keys_unique(s),
        lookup(s, key) matches Some(v) && is_expired(v, now as int),
    ensures
        layer_get(s, key, now).1 is None,
        lookup(layer_get(s, key, now).0, key) is None,
        keys_unique(layer_get(s, key, now).0),
{
    let i = index_of_key(s, key);
    lemma_lookup_remove(s, i, key);
}

/// A read of a live value returns its payload and touches it: last access
/// `now`, one more access (saturating).
pub proof fn lemma_get_live(s: Seq<StoredView>, key: Seq<char>, now: i128)
    requires
        keys_unique(s),
        lookup(s, key) matches Some(v) && !is_expired(v, now as int),
    ensures
        layer_get(s, key, now).1 == Some(lookup(s, key)->0.payload),
        lookup(layer_get(s, key, now).0, key) == Some(touched(lookup(s, key)->0, now)),
        keys_unique(layer_get(s, key, now).0),
{
    let i = index_of_key(s, key);
    lemma_lookup_update(s, i, touched(s[i], now), key);
}

/// A read keeps keys unique.
pub proof fn lemma_get_keeps_unique(s: Seq<StoredView>, key: Seq<char>, now: i128)
    requires
        keys_unique(s),
    ensures
        keys_unique(layer_get(s, key, now).0),
{
    if has_key(s, key) {
        let i = index_of_key(s, key);
        if is_expired(s[i], now as int) {
            lemma_lookup_remove(s, i, key);
        } else {
            lemma_lookup_update(s, i, touched(s[i], now), key);
        }
    }
}

/// A read of one key leaves every other key's value as it was.
pub proof fn lemma_get_others(s: Seq<StoredView>, key: Seq<char>, now: i128, k: Seq<char>)
    requires
        keys_unique(s),
        k != key,
    ensures
        lookup(layer_get(s, key, now).0, k) == lookup(s, k),
        keys_unique(layer_get(s, key, now).0),
{
    if has_key(s, key) {
        let i = index_of_key(s, key);
        if is_expired(s[i], now as int) {
            lemma_lookup_remove(s, i, k);
        } else {
            lemma_lookup_update(s, i, touched(s[i], now), k);
        }
    }
}

/// Deleting by pattern leaves no value whose key matches, keeps every
/// value whose key does not, and the values dropped and kept add up to
/// the layer.
pub proof fn lemma_delete_pattern(s: Seq<StoredView>, pattern: Seq<char>)
    ensures
        forall|i: int|
            0 <= i < not_matching(s, pattern).len() ==> !wildcard_matches(
                pattern,
                #[trigger] not_matching(s, pattern)[i].key,
            ),
        forall|v: StoredView|
            s.contains(v) && !wildcard_matches(pattern, v.key) ==> #[trigger] not_matching(
                s,
                pattern,
            ).contains(v),
        matching(s, pattern).len() + not_matching(s, pattern).len() == s.len(),
    decreases s.len(),
{
    let keep = |v: StoredView| !wildcard_matches(pattern, v.key);
    let drop = |v: StoredView| wildcard_matches(pattern, v.key);
    assert forall|i: int| 0 <= i < not_matching(s, pattern).len() implies !wildcard_matches(
        pattern,
        #[trigger] not_matching(s, pattern)[i].key,
    ) by {
        s.lemma_filter_pred(keep, i);
    }
    assert forall|v: StoredView|
        s.contains(v) && !wildcard_matches(pattern, v.key) implies #[trigger] not_matching(
        s,
        pattern,
    ).contains(v) by {
        s.lemma_filter_contains_rev(keep, v);
        let i = choose|i: int| 0 <= i < s.len() && s[i] == v;
        s.lemma_filter_contains(keep, i);
    }
    reveal(Seq::filter);
    if s.len() > 0 {
        lemma_delete_pattern(s.drop_last(), pattern);
    }
}

/// Deleting by a pattern that matches `key` leaves no value under `key`.
pub proof fn lemma_delete_drops_key(s: Seq<StoredView>, pattern: Seq<char>, key: Seq<char>)
    requires
        wildcard_matches(pattern, key),
    ensures
        !has_key(not_matching(s, pattern), key),
{
    lemma_delete_pattern(s, pattern);
    if has_key(not_matching(s, pattern), key) {
        let i = index_of_key(not_matching(s, pattern), key);
        assert(!wildcard_matches(pattern, not_matching(s, pattern)[i].key));
    }
}

/// Deleting by any pattern brings back no key that was absent.
pub proof fn lemma_delete_keeps_absent(s: Seq<StoredView>, pattern: Seq<char>, key: Seq<char>)
    requires
        !has_key(s, key),
    ensures
        !has_key(not_matching(s, pattern), key),
{
    let f = not_matching(s, pattern);
    if has_key(f, key) {
        let i = index_of_key(f, key);
        s.lemma_filter_contains_rev(|v: StoredView| !wildcard_matches(pattern, v.key), f[i]);
        let j = choose|j: int| 0 <= j < s.len() && s[j] == f[i];
        assert(holds_key_at(s, key, j));
    }
}

/// Deleting by a pattern that does not match `key` leaves `key`'s value
/// as it was.
pub proof fn lemma_delete_keeps_other(s: Seq<StoredView>, pattern: Seq<char>, key: Seq<char>)
    requires
        keys_unique(s),
        !wildcard_matches(pattern, key),
    ensures
        keys_unique(not_matching(s, pattern)),
        lookup(not_matching(s, pattern), key) == lookup(s, key),
{
    let f = not_matching(s, pattern);
    lemma_filter_keeps_unique(s, |v: StoredView| !wildcard_matches(pattern, v.key));
    if has_key(s, key) {
        let i = index_of_key(s, key);
        assert(holds_key_at(s, key, i));
        lemma_delete_pattern(s, pattern);
        assert(s.contains(s[i]));
        assert(f.contains(s[i]));
        let j = choose|j: int| 0 <= j < f.len() && f[j] == s[i];
        lemma_index_of_key(f, key, j);
    } else {
        lemma_delete_keeps_absent(s, pattern, key);
    }
}

/// A policy can order a layer's values exactly when, for `TTL` and two or
/// more values, every stored expiry is an instant chrono can hold.
pub proof fn lemma_victims_defined_stored(strategy: EvictionStrategy, s: Seq<StoredView>)
    ensures
        victims_defined(strategy, snapshot(s)) <==> ((strategy is TTL && s.len() >= 2)
            ==> stored_expiries_defined(s)),
{
    assert forall|i: int| 0 <= i < s.len() implies #[trigger] snapshot(s)[i].created_at
        == s[i].created_at && snapshot(s)[i].ttl == s[i].ttl by {}
    if stored_expiries_defined(s) {
        assert(expiries_defined(snapshot(s)));
    }
    if expiries_defined(snapshot(s)) {
        assert forall|i: int| 0 <= i < s.len() implies is_instant(
            #[trigger] s[i].created_at + s[i].ttl,
        ) by {
            assert(is_instant(snapshot(s)[i].created_at + snapshot(s)[i].ttl));
        }
    }
}

/// A read that stays within chrono's range keeps every stored expiry as
/// representable as it was, and drops at most the value read.
pub proof fn lemma_read_keeps_expiries(s: Seq<StoredView>, key: Seq<char>, now: i128)
    requires
        keys_unique(s),
        get_defined(s, key),
    ensures
        stored_expiries_defined(layer_get(s, key, now).0) == stored_expiries_defined(s),
        layer_get(s, key, now).0.len() == if has_key(s, key) && is_expired(
            s[index_of_key(s, key)],
            now as int,
        ) {
            s.len() - 1
        } else {
            s.len() as int
        },
{
    let a = layer_get(s, key, now).0;
    if has_key(s, key) {
        let i = index_of_key(s, key);
        assert(holds_key_at(s, key, i));
        if is_expired(s[i], now as int) {
            assert(a == s.remove(i));
            if stored_expiries_defined(s) {
                assert forall|j: int| 0 <= j < a.len() implies is_instant(
                    #[trigger] a[j].created_at + a[j].ttl,
                ) by {
                    if j < i {
                        assert(a[j] == s[j]);
                    } else {
                        assert(a[j] == s[j + 1]);
                    }
                }
            }
            if stored_expiries_defined(a) {
                assert forall|j: int| 0 <= j < s.len() implies is_instant(
                    #[trigger] s[j].created_at + s[j].ttl,
                ) by {
                    if j < i {
                        assert(a[j] == s[j]);
                    } else if j > i {
                        assert(a[j - 1] == s[j]);
                    } else {
                        assert(lookup(s, key) == Some(s[i]));
                    }
                }
            }
        } else {
            assert(a == s.update(i, touched(s[i], now)));
            assert forall|j: int| 0 <= j < s.len() implies #[trigger] a[j].created_at
                == s[j].created_at && a[j].ttl == s[j].ttl by {}
            if stored_expiries_defined(s) {
                assert forall|j: int| 0 <= j < a.len() implies is_instant(
                    #[trigger] a[j].created_at + a[j].ttl,
                ) by {
                    assert(a[j].created_at == s[j].created_at && a[j].ttl == s[j].ttl);
                }
            }
            if stored_expiries_defined(a) {
                assert forall|j: int| 0 <= j < s.len() implies is_instant(
                    #[trigger] s[j].created_at + s[j].ttl,
                ) by {
                    assert(a[j].created_at == s[j].created_at && a[j].ttl == s[j].ttl);
                }
            }
        }
    }
}

} // verus!
