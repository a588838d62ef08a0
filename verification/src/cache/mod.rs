pub mod coordination;
pub mod history;
pub mod invalidation;
pub mod layer_model;
pub mod layers;
pub mod policies;

use vstd::prelude::*;

use crate::cache::layer_model::{
    default_ttl_fits, effective_ttl, get_defined, has_key, keys_unique, layer_get, layer_set,
    lemma_delete_drops_key, lemma_delete_keeps_absent, lemma_delete_pattern, lemma_get_keeps_unique,
    lemma_get_live, lemma_layer_set, lemma_read_after_write, lookup, not_matching, opt_view,
    set_defined,
};
use crate::cache::layers::{wildcard_matches, DatabaseCache, LocalCache, RedisCache, StoredView};
use crate::cache::policies::EvictionPolicy;
use crate::clock::{fits_timedelta, now_nanos, Span, MAX_INSTANT_NS};

verus! {

/// The contents of the three tiers.
pub struct TiersView {
    pub l1: Seq<StoredView>,
    pub l2: Seq<StoredView>,
    pub l3: Seq<StoredView>,
}

/// The eviction policy and default time-to-live of each tier.
pub struct TiersConfig {
    pub p1: EvictionPolicy,
    pub d1: Span,
    pub p2: EvictionPolicy,
    pub d2: Span,
    pub p3: EvictionPolicy,
    pub d3: Span,
}

/// A read of `key` at `now` through the tiers: the first tier that holds a
/// live value answers; a miss in a tier above it is filled with the value
/// found, under that tier's default time-to-live.
pub open spec fn tiered_get(v: TiersView, c: TiersConfig, key: Seq<char>, now: i128) -> (
    TiersView,
    Option<Seq<char>>,
) {
    let (a1, r1) = layer_get(v.l1, key, now);
    if r1 is Some {
        (TiersView { l1: a1, ..v }, r1)
    } else {
        let (a2, r2) = layer_get(v.l2, key, now);
        match r2 {
            Some(p) => (
                TiersView { l1: layer_set(a1, c.p1, c.d1, key, p, c.d1, now), l2: a2, l3: v.l3 },
                r2,
            ),
            None => {
                let (a3, r3) = layer_get(v.l3, key, now);
                match r3 {
                    Some(p) => (
                        TiersView {
                            l1: layer_set(a1, c.p1, c.d1, key, p, c.d1, now),
                            l2: layer_set(a2, c.p2, c.d2, key, p, c.d2, now),
                            l3: a3,
                        },
                        r3,
                    ),
                    None => (TiersView { l1: a1, l2: a2, l3: a3 }, None),
                }
            },
        }
    }
}

/// A read of `key` at `now` fills the first tier (the second or third
/// answers).
pub open spec fn fills_l1(v: TiersView, key: Seq<char>, now: i128) -> bool {
    &&& layer_get(v.l1, key, now).1 is None
    &&& (layer_get(v.l2, key, now).1 is Some || layer_get(v.l3, key, now).1 is Some)
}

/// A read of `key` at `now` fills the second tier (only the third answers).
pub open spec fn fills_l2(v: TiersView, key: Seq<char>, now: i128) -> bool {
    &&& layer_get(v.l1, key, now).1 is None
    &&& layer_get(v.l2, key, now).1 is None
    &&& layer_get(v.l3, key, now).1 is Some
}

/// A read of `key` at `now` through the tiers stays within chrono's range:
/// every tier it reads has a representable expiry for the key, and every
/// fill it makes is a write that stays within range.
pub open spec fn read_defined(v: TiersView, c: TiersConfig, key: Seq<char>, now: i128) -> bool {
    let miss1 = layer_get(v.l1, key, now).1 is None;
    let miss2 = layer_get(v.l2, key, now).1 is None;
    &&& get_defined(v.l1, key)
    &&& miss1 ==> get_defined(v.l2, key)
    &&& miss1 && miss2 ==> get_defined(v.l3, key)
    &&& fills_l2(v, key, now) ==> set_defined(layer_get(v.l2, key, now).0, c.p2, c.d2, c.d2)
    &&& fills_l1(v, key, now) ==> set_defined(layer_get(v.l1, key, now).0, c.p1, c.d1, c.d1)
}

/// A write with a requested time-to-live of `ttl` into every tier stays
/// within chrono's range.
pub open spec fn write_defined(v: TiersView, c: TiersConfig, ttl: Span) -> bool {
    &&& set_defined(v.l1, c.p1, c.d1, ttl)
    &&& set_defined(v.l2, c.p2, c.d2, ttl)
    &&& set_defined(v.l3, c.p3, c.d3, ttl)
}

/// A write of `payload` under `key` at `now` into every tier.
pub open spec fn tiered_set(
    v: TiersView,
    c: TiersConfig,
    key: Seq<char>,
    payload: Seq<char>,
    ttl: Span,
    now: i128,
) -> TiersView {
    TiersView {
        l1: layer_set(v.l1, c.p1, c.d1, key, payload, ttl, now),
        l2: layer_set(v.l2, c.p2, c.d2, key, payload, ttl, now),
        l3: layer_set(v.l3, c.p3, c.d3, key, payload, ttl, now),
    }
}

/// Every tier without the values whose keys `pattern` matches.
pub open spec fn tiered_invalidate(v: TiersView, pattern: Seq<char>) -> TiersView {
    TiersView {
        l1: not_matching(v.l1, pattern),
        l2: not_matching(v.l2, pattern),
        l3: not_matching(v.l3, pattern),
    }
}

/// The first tier without the values whose keys `pattern` matches; the
/// others untouched.
pub open spec fn l1_invalidate(v: TiersView, pattern: Seq<char>) -> TiersView {
    TiersView { l1: not_matching(v.l1, pattern), ..v }
}

/// Every tier's keys are unique.
pub open spec fn tiers_unique(v: TiersView) -> bool {
    keys_unique(v.l1) && keys_unique(v.l2) && keys_unique(v.l3)
}

/// A read through the tiers returns what the last write stored, until the
/// first tier's copy runs out.
pub proof fn lemma_tiered_read_after_write(
    v: TiersView,
    c: TiersConfig,
    key: Seq<char>,
    payload: Seq<char>,
    ttl: Span,
    now: i128,
    t: i128,
)
    requires
        tiers_unique(v),
        fits_timedelta(ttl) || default_ttl_fits(c.d1),
        now <= t <= now + effective_ttl(ttl, c.d1),
    ensures
        tiered_get(tiered_set(v, c, key, payload, ttl, now), c, key, t).1 == Some(payload),
{
    lemma_read_after_write(v.l1, c.p1, c.d1, key, payload, ttl, now, t);
}

/// A read that finds a value leaves it in the first tier, and in the
/// second when only the third held it; every tier keeps unique keys.
pub proof fn lemma_tiered_get_fills(v: TiersView, c: TiersConfig, key: Seq<char>, now: i128)
    requires
        tiers_unique(v),
    ensures
        tiers_unique(tiered_get(v, c, key, now).0),
        tiered_get(v, c, key, now).1 is Some ==> (lookup(tiered_get(v, c, key, now).0.l1, key)
            is Some && lookup(tiered_get(v, c, key, now).0.l1, key)->0.payload == tiered_get(
            v,
            c,
            key,
            now,
        ).1->0),
        fills_l2(v, key, now) ==> (lookup(tiered_get(v, c, key, now).0.l2, key) is Some && lookup(
            tiered_get(v, c, key, now).0.l2,
            key,
        )->0.payload == tiered_get(v, c, key, now).1->0),
{
    let (a1, r1) = layer_get(v.l1, key, now);
    let (a2, r2) = layer_get(v.l2, key, now);
    let (a3, r3) = layer_get(v.l3, key, now);
    lemma_get_keeps_unique(v.l1, key, now);
    lemma_get_keeps_unique(v.l2, key, now);
    lemma_get_keeps_unique(v.l3, key, now);
    if r1 is Some {
        lemma_get_live(v.l1, key, now);
    } else if r2 is Some {
        lemma_layer_set(a1, c.p1, c.d1, key, r2->0, c.d1, now, key);
    } else if r3 is Some {
        lemma_layer_set(a1, c.p1, c.d1, key, r3->0, c.d1, now, key);
        lemma_layer_set(a2, c.p2, c.d2, key, r3->0, c.d2, now, key);
    }
}

/// Invalidating a pattern leaves no value whose key matches in any tier,
/// and keeps every value whose key does not.
pub proof fn lemma_tiered_invalidate(v: TiersView, pattern: Seq<char>)
    ensures
        forall|i: int|
            0 <= i < tiered_invalidate(v, pattern).l1.len() ==> !wildcard_matches(
                pattern,
                #[trigger] tiered_invalidate(v, pattern).l1[i].key,
            ),
        forall|i: int|
            0 <= i < tiered_invalidate(v, pattern).l2.len() ==> !wildcard_matches(
                pattern,
                #[trigger] tiered_invalidate(v, pattern).l2[i].key,
            ),
        forall|i: int|
            0 <= i < tiered_invalidate(v, pattern).l3.len() ==> !wildcard_matches(
                pattern,
                #[trigger] tiered_invalidate(v, pattern).l3[i].key,
            ),
        forall|x: StoredView|
            v.l1.contains(x) && !wildcard_matches(pattern, x.key)
                ==> #[trigger] tiered_invalidate(v, pattern).l1.contains(x),
        forall|x: StoredView|
            v.l2.contains(x) && !wildcard_matches(pattern, x.key)
                ==> #[trigger] tiered_invalidate(v, pattern).l2.contains(x),
        forall|x: StoredView|
            v.l3.contains(x) && !wildcard_matches(pattern, x.key)
                ==> #[trigger] tiered_invalidate(v, pattern).l3.contains(x),
{
    lemma_delete_pattern(v.l1, pattern);
    lemma_delete_pattern(v.l2, pattern);
    lemma_delete_pattern(v.l3, pattern);
}

/// Some tier holds `key`.
pub open spec fn tiers_hold(v: TiersView, key: Seq<char>) -> bool {
    has_key(v.l1, key) || has_key(v.l2, key) || has_key(v.l3, key)
}

/// Invalidating a pattern that matches `key` leaves no tier holding it.
pub proof fn lemma_tiered_invalidate_drops(v: TiersView, pattern: Seq<char>, key: Seq<char>)
    requires
        wildcard_matches(pattern, key),
    ensures
        !tiers_hold(tiered_invalidate(v, pattern), key),
{
    lemma_delete_drops_key(v.l1, pattern, key);
    lemma_delete_drops_key(v.l2, pattern, key);
    lemma_delete_drops_key(v.l3, pattern, key);
}

/// Invalidating any pattern brings back no key that no tier held.
pub proof fn lemma_tiered_invalidate_keeps_absent(v: TiersView, pattern: Seq<char>, key: Seq<char>)
    requires
        !tiers_hold(v, key),
    ensures
        !tiers_hold(tiered_invalidate(v, pattern), key),
{
    lemma_delete_keeps_absent(v.l1, pattern, key);
    lemma_delete_keeps_absent(v.l2, pattern, key);
    lemma_delete_keeps_absent(v.l3, pattern, key);
}

/// A read of a key that no tier holds finds nothing.
pub proof fn lemma_tiered_get_absent(v: TiersView, c: TiersConfig, key: Seq<char>, now: i128)
    requires
        !tiers_hold(v, key),
    ensures
        tiered_get(v, c, key, now).1 is None,
{
}

/// Once a pattern is invalidated, a read of any key it matches finds
/// nothing.
pub proof fn lemma_invalidated_key_reads_nothing(
    v: TiersView,
    c: TiersConfig,
    pattern: Seq<char>,
    key: Seq<char>,
    now: i128,
)
    requires
        wildcard_matches(pattern, key),
    ensures
        tiered_get(tiered_invalidate(v, pattern), c, key, now).1 is None,
{
    lemma_tiered_invalidate_drops(v, pattern, key);
    lemma_tiered_get_absent(tiered_invalidate(v, pattern), c, key, now);
}

/// Three cache tiers read in order: an in-process tier, a shared tier and
/// a durable tier.
pub struct MultiLayerCache {
    pub l1: LocalCache,
    pub l2: RedisCache,
    pub l3: DatabaseCache,
}

impl View for MultiLayerCache {
    type V = TiersView;

    open spec fn view(&self) -> TiersView {
        TiersView { l1: self.l1@, l2: self.l2@, l3: self.l3@ }
    }
}

impl MultiLayerCache {
    /// The policies and default time-to-live of the tiers.
    pub open spec fn config(&self) -> TiersConfig {
        TiersConfig {
            p1: self.l1.spec_policy(),
            d1: self.l1.spec_default_ttl(),
            p2: self.l2.spec_policy(),
            d2: self.l2.spec_default_ttl(),
            p3: self.l3.spec_policy(),
            d3: self.l3.spec_default_ttl(),
        }
    }

    /// Every tier's keys are unique.
    pub open spec fn wf(&self) -> bool {
        tiers_unique(self@)
    }

    /// Shows a caller handed this cache that every tier's keys are unique;
    /// it reads and changes nothing.
    pub fn unique_keys(&self)
        ensures
            self.wf(),
    {
        self.l1.unique_keys();
        self.l2.unique_keys();
        self.l3.unique_keys();
    }

    /// A cache over the given tiers.
    pub fn new(l1: LocalCache, l2: RedisCache, l3: DatabaseCache) -> (r: Self)
        ensures
            r.l1 == l1,
            r.l2 == l2,
            r.l3 == l3,
    {
        MultiLayerCache { l1, l2, l3 }
    }

    /// A cache over three empty tiers with their default settings.
    pub fn with_defaults() -> (r: Self)
        ensures
            r@ == (TiersView {
                l1: Seq::empty(),
                l2: Seq::empty(),
                l3: Seq::empty(),
            }),
            r.config().d1 == Span::from_secs_spec(60),
            r.config().d2 == Span::from_secs_spec(300),
            r.config().d3 == Span::from_secs_spec(1800),
            r.config().p1 == crate::cache::policies::default_policy(),
            r.config().p2 == crate::cache::policies::default_policy(),
            r.config().p3 == crate::cache::policies::default_policy(),
    {
        MultiLayerCache {
            l1: LocalCache::default(),
            l2: RedisCache::default(),
            l3: DatabaseCache::default(),
        }
    }

    /// Reads `key` at the instant `now` through the tiers, filling the
    /// tiers above the one that answers (see [`tiered_get`]).
    pub fn get_at(&mut self, key: &str, now: i128) -> (r: Option<String>)
        requires
            read_defined(old(self)@, old(self).config(), key@, now),
        ensures
            final(self).config() == old(self).config(),
            final(self)@ == tiered_get(old(self)@, old(self).config(), key@, now).0,
            opt_view(r) == tiered_get(old(self)@, old(self).config(), key@, now).1,
    {
        if let Some(raw) = self.l1.get_at(key, now) {
            return Some(raw);
        }
        if let Some(raw) = self.l2.get_at(key, now) {
            let ttl = self.l1.default_ttl();
            self.l1.set_with_ttl_at(key, raw.clone(), ttl, now);
            return Some(raw);
        }
        if let Some(raw) = self.l3.get_at(key, now) {
            let ttl2 = self.l2.default_ttl();
            self.l2.set_with_ttl_at(key, raw.clone(), ttl2, now);
            let ttl1 = self.l1.default_ttl();
            self.l1.set_with_ttl_at(key, raw.clone(), ttl1, now);
            return Some(raw);
        }
        None
    }

    /// Whether a read of `key` at `now` stays within chrono's range (see
    /// [`read_defined`]); the cache is left as it is.
    pub fn read_defined(&self, key: &str, now: i128) -> (r: bool)
        ensures
            r == read_defined(self@, self.config(), key@, now),
    {
        let in1 = self.l1.holds_live(key, now);
        let in2 = self.l2.holds_live(key, now);
        let in3 = self.l3.holds_live(key, now);
        let d1 = self.l1.layer().read_defined(key);
        if !d1 {
            return false;
        }
        if !in1 && !self.l2.layer().read_defined(key) {
            return false;
        }
        if !in1 && !in2 && !self.l3.layer().read_defined(key) {
            return false;
        }
        if !in1 && !in2 && in3 {
            let d2 = self.l2.default_ttl();
            if !self.l2.layer().write_defined_after_read(key, now, d2) {
                return false;
            }
        }
        if !in1 && (in2 || in3) {
            let d = self.l1.default_ttl();
            if !self.l1.layer().write_defined_after_read(key, now, d) {
                return false;
            }
        }
        true
    }

    /// Whether a write with a requested time-to-live of `ttl` into every
    /// tier stays within chrono's range; the cache is left as it is.
    pub fn write_defined(&self, ttl: Span) -> (r: bool)
        ensures
            r == write_defined(self@, self.config(), ttl),
    {
        self.l1.layer().write_defined(ttl) && self.l2.layer().write_defined(ttl)
            && self.l3.layer().write_defined(ttl)
    }

    /// Reads `key` now, by the wall clock.
    pub fn get(&mut self, key: &str) -> (r: Option<String>)
        requires
            forall|now: i128|
                0 <= now <= MAX_INSTANT_NS ==> #[trigger] read_defined(
                    old(self)@,
                    old(self).config(),
                    key@,
                    now,
                ),
        ensures
            final(self).config() == old(self).config(),
            exists|now: i128|
                0 <= now <= MAX_INSTANT_NS && final(self)@ == tiered_get(old(self)@, old(self).config(), key@, now).0
                    && opt_view(r) == tiered_get(old(self)@, old(self).config(), key@, now).1,
    {
        let now = now_nanos();
        self.get_at(key, now)
    }

    /// Writes `raw` under `key` into every tier at the instant `now` with a
    /// time-to-live of `ttl`.
    pub fn set_at(&mut self, key: &str, raw: String, ttl: Span, now: i128)
        requires
            write_defined(old(self)@, old(self).config(), ttl),
        ensures
            final(self).config() == old(self).config(),
            final(self)@ == tiered_set(old(self)@, old(self).config(), key@, raw@, ttl, now),
    {
        self.l1.set_with_ttl_at(key, raw.clone(), ttl, now);
        self.l2.set_with_ttl_at(key, raw.clone(), ttl, now);
        self.l3.set_with_ttl_at(key, raw, ttl, now);
    }

    /// Writes `raw` under `key` into every tier now, by the wall clock.
    pub fn set(&mut self, key: &str, raw: String, ttl: Span)
        requires
            write_defined(old(self)@, old(self).config(), ttl),
        ensures
            final(self).config() == old(self).config(),
            exists|now: i128|
                0 <= now <= MAX_INSTANT_NS && final(self)@ == tiered_set(
                    old(self)@,
                    old(self).config(),
                    key@,
                    raw@,
                    ttl,
                    now,
                ),
    {
        let now = now_nanos();
        let ghost payload = raw@;
        self.set_at(key, raw, ttl, now);
        assert(self@ == tiered_set(old(self)@, old(self).config(), key@, payload, ttl, now));
    }

    /// Drops every value whose key `pattern` matches from every tier.
    pub fn invalidate_pattern(&mut self, pattern: &str)
        ensures
            final(self).config() == old(self).config(),
            final(self)@ == tiered_invalidate(old(self)@, pattern@),
    {
        let _ = self.l1.delete_pattern(pattern);
        let _ = self.l2.delete_pattern(pattern);
        let _ = self.l3.delete_pattern(pattern);
    }

    /// Drops every value whose key `pattern` matches from the first tier.
    pub fn invalidate_l1_pattern(&mut self, pattern: &str)
        ensures
            final(self).config() == old(self).config(),
            final(self)@ == l1_invalidate(old(self)@, pattern@),
    {
        let _ = self.l1.delete_pattern(pattern);
    }
}

} // verus!
