use vstd::prelude::*;

use crate::clock::{
    diff_is_instant, is_instant, lt_diff, now_nanos, sum_is_instant, sum_lt, MAX_INSTANT_NS,
};

verus! {

/// How long an entry may sit unread before the adaptive strategy counts it
/// as stale: thirty minutes, in nanoseconds.
pub const ADAPTIVE_STALE_AFTER_NS: i128 = 1_800_000_000_000;

/// The eviction-relevant metadata of one cached value. Instants are
/// nanoseconds since the Unix epoch; `ttl` is a signed span in nanoseconds.
#[derive(Debug, Clone)]
pub struct CacheEntry {
    pub key: String,
    pub created_at: i128,
    pub last_accessed: i128,
    pub access_count: u64,
    pub ttl: i128,
    pub size_bytes: usize,
}

/// What the policies read of a [`CacheEntry`], with the key as text.
pub struct EntryView {
    pub key: Seq<char>,
    pub created_at: i128,
    pub last_accessed: i128,
    pub access_count: u64,
    pub ttl: i128,
    pub size_bytes: usize,
}

impl View for CacheEntry {
    type V = EntryView;

    open spec fn view(&self) -> EntryView {
        EntryView {
            key: self.key@,
            created_at: self.created_at,
            last_accessed: self.last_accessed,
            access_count: self.access_count,
            ttl: self.ttl,
            size_bytes: self.size_bytes,
        }
    }
}

/// The views of a sequence of entries.
pub open spec fn entry_views(entries: Seq<CacheEntry>) -> Seq<EntryView> {
    entries.map_values(|e: CacheEntry| e@)
}

/// Which entries a policy gives up first.
#[derive(Debug, Clone, Copy)]
pub enum EvictionStrategy {
    LRU,
    LFU,
    TTL,
    Adaptive,
}

/// An eviction policy: its strategy, the number of entries a layer keeps
/// before it evicts, how long an entry may stay unread under `LRU`
/// (nanoseconds), and the access count below which an entry is of low value.
#[derive(Debug, Clone)]
pub struct EvictionPolicy {
    pub strategy: EvictionStrategy,
    pub max_entries: usize,
    pub lru_max_idle: i128,
    pub min_access_count: u64,
}

/// The instant at which an entry created at `created_at` with time-to-live
/// `ttl` expires.
pub open spec fn expires_at(created_at: int, ttl: int) -> int {
    created_at + ttl
}

/// Whether the adaptive strategy evicts `e` at `now`: its time-to-live has
/// run out, or it is both stale and of low value.
pub open spec fn adaptive_evicts(policy: EvictionPolicy, e: EntryView, now: int) -> bool {
    ||| expires_at(e.created_at as int, e.ttl as int) < now
    ||| {
        &&& e.last_accessed < now - ADAPTIVE_STALE_AFTER_NS
        &&& e.access_count < policy.min_access_count
    }
}

/// Whether `policy` evicts `e` at the instant `now`.
pub open spec fn evicts(policy: EvictionPolicy, e: EntryView, now: int) -> bool {
    match policy.strategy {
        EvictionStrategy::LRU => e.last_accessed < now - policy.lru_max_idle,
        EvictionStrategy::LFU => e.access_count < policy.min_access_count,
        EvictionStrategy::TTL => expires_at(e.created_at as int, e.ttl as int) < now,
        EvictionStrategy::Adaptive => adaptive_evicts(policy, e, now),
    }
}

/// `policy` can judge `e` at `now` without leaving chrono's range: the
/// instants it computes (`now` less the idle limit for `LRU`, the expiry for
/// `TTL`, both the expiry and `now` less thirty minutes for `Adaptive`)
/// are ones chrono can hold.
pub open spec fn evicts_defined(policy: EvictionPolicy, e: EntryView, now: int) -> bool {
    match policy.strategy {
        EvictionStrategy::LRU => is_instant(now - policy.lru_max_idle),
        EvictionStrategy::LFU => true,
        EvictionStrategy::TTL => is_instant(expires_at(e.created_at as int, e.ttl as int)),
        EvictionStrategy::Adaptive => {
            &&& is_instant(expires_at(e.created_at as int, e.ttl as int))
            &&& is_instant(now - ADAPTIVE_STALE_AFTER_NS)
        },
    }
}

/// Every entry's expiry is an instant chrono can hold.
pub open spec fn expiries_defined(s: Seq<EntryView>) -> bool {
    forall|i: int|
        0 <= i < s.len() ==> is_instant(expires_at(#[trigger] s[i].created_at as int, s[i].ttl as int))
}

/// A strategy can order `s` without leaving chrono's range: sorting by
/// expiry (`TTL`) computes every entry's expiry once there are two or more.
pub open spec fn victims_defined(strategy: EvictionStrategy, s: Seq<EntryView>) -> bool {
    (strategy is TTL && s.len() >= 2) ==> expiries_defined(s)
}

/// The key by which a strategy orders entries, least valuable first:
/// last access for `LRU`, access count for `LFU`, expiry for `TTL`, and for
/// `Adaptive` the access count, then the last access, then the larger size.
pub open spec fn rank_key(strategy: EvictionStrategy, e: EntryView) -> (int, int, int) {
    match strategy {
        EvictionStrategy::LRU => (e.last_accessed as int, 0, 0),
        EvictionStrategy::LFU => (e.access_count as int, 0, 0),
        EvictionStrategy::TTL => (expires_at(e.created_at as int, e.ttl as int), 0, 0),
        EvictionStrategy::Adaptive => (
            e.access_count as int,
            e.last_accessed as int,
            -(e.size_bytes as int),
        ),
    }
}

/// Lexicographic order on key triples.
pub open spec fn key_lt(a: (int, int, int), b: (int, int, int)) -> bool {
    ||| a.0 < b.0
    ||| a.0 == b.0 && a.1 < b.1
    ||| a.0 == b.0 && a.1 == b.1 && a.2 < b.2
}

/// `a` comes strictly before `b` in the strategy's order.
pub open spec fn ranks_before(strategy: EvictionStrategy, a: EntryView, b: EntryView) -> bool {
    key_lt(rank_key(strategy, a), rank_key(strategy, b))
}

/// The index of the first entry of `s` that no entry of `s` ranks before
/// (a stable sort puts it first).
pub open spec fn first_least(strategy: EvictionStrategy, s: Seq<EntryView>) -> int
    decreases s.len(),
{
    if s.len() <= 1 {
        0
    } else {
        let m = first_least(strategy, s.drop_last());
        if ranks_before(strategy, s.last(), s[m]) {
            s.len() - 1
        } else {
            m
        }
    }
}

/// The keys of the first `count` entries of `s` in the strategy's stable
/// order: the first least entry, then the order of what remains.
pub open spec fn victim_order(strategy: EvictionStrategy, s: Seq<EntryView>, count: nat) -> Seq<
    Seq<char>,
>
    decreases count,
{
    if count == 0 || s.len() == 0 {
        Seq::empty()
    } else {
        let m = first_least(strategy, s);
        seq![s[m].key] + victim_order(strategy, s.remove(m), (count - 1) as nat)
    }
}

/// The views of a sequence of strings.
pub open spec fn string_views(v: Seq<String>) -> Seq<Seq<char>> {
    v.map_values(|k: String| k@)
}

/// `first_least` is an index of `s`.
pub proof fn lemma_first_least_in_bounds(strategy: EvictionStrategy, s: Seq<EntryView>)
    requires
        s.len() >= 1,
    ensures
        0 <= first_least(strategy, s) < s.len(),
    decreases s.len(),
{
    if s.len() > 1 {
        lemma_first_least_in_bounds(strategy, s.drop_last());
    }
}

/// The default policy: adaptive, ten thousand entries, an hour of idle
/// time under `LRU`, and five accesses before an entry is of value.
pub open spec fn default_policy() -> EvictionPolicy {
    EvictionPolicy {
        strategy: EvictionStrategy::Adaptive,
        max_entries: 10_000,
        lru_max_idle: 3_600_000_000_000,
        min_access_count: 5,
    }
}

/// The entry `first_least` names is a least one, and the first such: no
/// entry ranks before it, and it ranks before every entry in front of it.
pub proof fn lemma_first_least_is_least(strategy: EvictionStrategy, s: Seq<EntryView>)
    requires
        s.len() >= 1,
    ensures
        0 <= first_least(strategy, s) < s.len(),
        forall|j: int|
            0 <= j < s.len() ==> !ranks_before(strategy, #[trigger] s[j], s[first_least(strategy, s)]),
        forall|j: int|
            0 <= j < first_least(strategy, s) ==> ranks_before(
                strategy,
                s[first_least(strategy, s)],
                #[trigger] s[j],
            ),
    decreases s.len(),
{
    lemma_first_least_in_bounds(strategy, s);
    if s.len() > 1 {
        let d = s.drop_last();
        lemma_first_least_is_least(strategy, d);
        assert forall|j: int| 0 <= j < d.len() implies d[j] == #[trigger] s[j] by {}
    }
}

/// A policy asked for `count` victims names `count` of them, or every
/// entry when there are fewer.
pub proof fn lemma_victim_order_len(strategy: EvictionStrategy, s: Seq<EntryView>, count: nat)
    ensures
        victim_order(strategy, s, count).len() == if count < s.len() {
            count as int
        } else {
            s.len() as int
        },
    decreases count,
{
    if count > 0 && s.len() > 0 {
        lemma_first_least_in_bounds(strategy, s);
        lemma_victim_order_len(strategy, s.remove(first_least(strategy, s)), (count - 1) as nat);
    }
}

/// The entries whose keys `victim_order` lists, in the same order.
pub open spec fn victim_entries(strategy: EvictionStrategy, s: Seq<EntryView>, count: nat) -> Seq<
    EntryView,
>
    decreases count,
{
    if count == 0 || s.len() == 0 {
        Seq::empty()
    } else {
        let m = first_least(strategy, s);
        seq![s[m]] + victim_entries(strategy, s.remove(m), (count - 1) as nat)
    }
}

/// `victim_order` lists the keys of `victim_entries`, and each of those is
/// one of the entries.
pub proof fn lemma_victim_entries(strategy: EvictionStrategy, s: Seq<EntryView>, count: nat)
    ensures
        victim_order(strategy, s, count) == victim_entries(strategy, s, count).map_values(
            |e: EntryView| e.key,
        ),
        forall|i: int|
            0 <= i < victim_entries(strategy, s, count).len() ==> s.contains(
                #[trigger] victim_entries(strategy, s, count)[i],
            ),
    decreases count,
{
    if count > 0 && s.len() > 0 {
        let m = first_least(strategy, s);
        lemma_first_least_in_bounds(strategy, s);
        let r = s.remove(m);
        lemma_victim_entries(strategy, r, (count - 1) as nat);
        let v = victim_entries(strategy, s, count);
        let w = victim_entries(strategy, r, (count - 1) as nat);
        assert(v == seq![s[m]] + w);
        assert(victim_order(strategy, s, count) =~= v.map_values(|e: EntryView| e.key));
        assert forall|i: int| 0 <= i < v.len() implies s.contains(#[trigger] v[i]) by {
            if i == 0 {
                assert(s[m] == v[0]);
            } else {
                assert(v[i] == w[i - 1]);
                assert(r.contains(w[i - 1]));
                let j = choose|j: int| 0 <= j < r.len() && r[j] == w[i - 1];
                if j < m {
                    assert(s[j] == r[j]);
                } else {
                    assert(s[j + 1] == r[j]);
                }
            }
        }
    } else {
        assert(victim_order(strategy, s, count) =~= victim_entries(strategy, s, count).map_values(
            |e: EntryView| e.key,
        ));
    }
}

/// Victims come least valuable first: no victim ranks before one named
/// earlier.
pub proof fn lemma_victims_in_order(strategy: EvictionStrategy, s: Seq<EntryView>, count: nat)
    ensures
        forall|i: int, j: int|
            0 <= i < j < victim_entries(strategy, s, count).len() ==> !ranks_before(
                strategy,
                #[trigger] victim_entries(strategy, s, count)[j],
                #[trigger] victim_entries(strategy, s, count)[i],
            ),
    decreases count,
{
    if count > 0 && s.len() > 0 {
        let m = first_least(strategy, s);
        lemma_first_least_is_least(strategy, s);
        let r = s.remove(m);
        lemma_victims_in_order(strategy, r, (count - 1) as nat);
        lemma_victim_entries(strategy, r, (count - 1) as nat);
        let v = victim_entries(strategy, s, count);
        let w = victim_entries(strategy, r, (count - 1) as nat);
        assert(v == seq![s[m]] + w);
        assert forall|i: int, j: int| 0 <= i < j < v.len() implies !ranks_before(
            strategy,
            #[trigger] v[j],
            #[trigger] v[i],
        ) by {
            assert(v[j] == w[j - 1]);
            if i == 0 {
                assert(r.contains(w[j - 1]));
                let k = choose|k: int| 0 <= k < r.len() && r[k] == w[j - 1];
                if k < m {
                    assert(s[k] == r[k]);
                } else {
                    assert(s[k + 1] == r[k]);
                }
            } else {
                assert(v[i] == w[i - 1]);
            }
        }
    }
}

/// The first victim is a least valuable entry: no entry ranks before it.
pub proof fn lemma_first_victim_is_least(strategy: EvictionStrategy, s: Seq<EntryView>, count: nat)
    requires
        count >= 1,
        s.len() >= 1,
    ensures
        victim_order(strategy, s, count)[0] == s[first_least(strategy, s)].key,
        forall|j: int|
            0 <= j < s.len() ==> !ranks_before(strategy, #[trigger] s[j], s[first_least(strategy, s)]),
{
    lemma_first_least_is_least(strategy, s);
}

/// Under `TTL`, victims come soonest expiry first: the first victim's
/// creation plus time-to-live is no later than that of any entry, and a
/// victim named earlier never expires later than one named after it.
pub proof fn lemma_ttl_victims_by_expiry(s: Seq<EntryView>, count: nat)
    ensures
        victim_order(EvictionStrategy::TTL, s, count) == victim_entries(
            EvictionStrategy::TTL,
            s,
            count,
        ).map_values(|e: EntryView| e.key),
        forall|i: int, j: int|
            0 <= i < j < victim_entries(EvictionStrategy::TTL, s, count).len() ==> (
            #[trigger] victim_entries(EvictionStrategy::TTL, s, count)[i]).created_at
                + victim_entries(EvictionStrategy::TTL, s, count)[i].ttl <= (
            #[trigger] victim_entries(EvictionStrategy::TTL, s, count)[j]).created_at
                + victim_entries(EvictionStrategy::TTL, s, count)[j].ttl,
        count >= 1 ==> forall|k: int|
            0 <= k < s.len() ==> victim_entries(EvictionStrategy::TTL, s, count)[0].created_at
                + victim_entries(EvictionStrategy::TTL, s, count)[0].ttl <= (#[trigger] s[k]).created_at
                + s[k].ttl,
{
    lemma_victim_entries(EvictionStrategy::TTL, s, count);
    lemma_victims_in_order(EvictionStrategy::TTL, s, count);
    if count >= 1 && s.len() >= 1 {
        lemma_first_least_is_least(EvictionStrategy::TTL, s);
    }
}

/// Under `LRU`, victims come least recently used first: the first victim's
/// last access is no later than any entry's, and a victim named earlier was
/// never used later than one named after it.
pub proof fn lemma_lru_victims_by_last_access(s: Seq<EntryView>, count: nat)
    ensures
        victim_order(EvictionStrategy::LRU, s, count) == victim_entries(
            EvictionStrategy::LRU,
            s,
            count,
        ).map_values(|e: EntryView| e.key),
        forall|i: int, j: int|
            0 <= i < j < victim_entries(EvictionStrategy::LRU, s, count).len() ==> (
            #[trigger] victim_entries(EvictionStrategy::LRU, s, count)[i]).last_accessed <= (
            #[trigger] victim_entries(EvictionStrategy::LRU, s, count)[j]).last_accessed,
        count >= 1 ==> forall|k: int|
            0 <= k < s.len() ==> victim_entries(EvictionStrategy::LRU, s, count)[0].last_accessed
                <= (#[trigger] s[k]).last_accessed,
{
    lemma_victim_entries(EvictionStrategy::LRU, s, count);
    lemma_victims_in_order(EvictionStrategy::LRU, s, count);
    if count >= 1 && s.len() >= 1 {
        lemma_first_least_is_least(EvictionStrategy::LRU, s);
    }
}

/// Under `LFU`, victims come least frequently used first: the first
/// victim's access count is no higher than any entry's, and a victim named
/// earlier never has more accesses than one named after it.
pub proof fn lemma_lfu_victims_by_access_count(s: Seq<EntryView>, count: nat)
    ensures
        victim_order(EvictionStrategy::LFU, s, count) == victim_entries(
            EvictionStrategy::LFU,
            s,
            count,
        ).map_values(|e: EntryView| e.key),
        forall|i: int, j: int|
            0 <= i < j < victim_entries(EvictionStrategy::LFU, s, count).len() ==> (
            #[trigger] victim_entries(EvictionStrategy::LFU, s, count)[i]).access_count <= (
            #[trigger] victim_entries(EvictionStrategy::LFU, s, count)[j]).access_count,
        count >= 1 ==> forall|k: int|
            0 <= k < s.len() ==> victim_entries(EvictionStrategy::LFU, s, count)[0].access_count
                <= (#[trigger] s[k]).access_count,
{
    lemma_victim_entries(EvictionStrategy::LFU, s, count);
    lemma_victims_in_order(EvictionStrategy::LFU, s, count);
    if count >= 1 && s.len() >= 1 {
        lemma_first_least_is_least(EvictionStrategy::LFU, s);
    }
}

/// `b` is strictly more worth keeping than `a` under the adaptive order:
/// more accesses; or as many and a later last access; or both equal and a
/// smaller size.
pub open spec fn adaptively_above(a: EntryView, b: EntryView) -> bool {
    ||| a.access_count < b.access_count
    ||| a.access_count == b.access_count && a.last_accessed < b.last_accessed
    ||| a.access_count == b.access_count && a.last_accessed == b.last_accessed && a.size_bytes
        > b.size_bytes
}

/// Under `Adaptive`, victims come least valuable first: no entry is below
/// the first victim (fewer accesses; or as many and an older last access;
/// or both equal and a larger size), and no victim named later is below one
/// named earlier.
pub proof fn lemma_adaptive_victims_in_order(s: Seq<EntryView>, count: nat)
    ensures
        victim_order(EvictionStrategy::Adaptive, s, count) == victim_entries(
            EvictionStrategy::Adaptive,
            s,
            count,
        ).map_values(|e: EntryView| e.key),
        forall|i: int, j: int|
            0 <= i < j < victim_entries(EvictionStrategy::Adaptive, s, count).len()
                ==> !adaptively_above(
                #[trigger] victim_entries(EvictionStrategy::Adaptive, s, count)[j],
                #[trigger] victim_entries(EvictionStrategy::Adaptive, s, count)[i],
            ),
        count >= 1 ==> forall|k: int|
            0 <= k < s.len() ==> !adaptively_above(
                #[trigger] s[k],
                victim_entries(EvictionStrategy::Adaptive, s, count)[0],
            ),
{
    lemma_victim_entries(EvictionStrategy::Adaptive, s, count);
    lemma_victims_in_order(EvictionStrategy::Adaptive, s, count);
    if count >= 1 && s.len() >= 1 {
        lemma_first_least_is_least(EvictionStrategy::Adaptive, s);
    }
}

/// What each strategy evicts at `now`, on the entry's own fields: `LRU` an
/// entry last read more than the idle limit before `now`; `LFU` one read
/// fewer times than the minimum; `TTL` one whose creation plus time-to-live
/// lies before `now`; `Adaptive` one that has expired, or was last read more
/// than thirty minutes before `now` and was read fewer times than the
/// minimum.
pub proof fn lemma_evicts_by_strategy(policy: EvictionPolicy, e: EntryView, now: int)
    ensures
        policy.strategy is LRU ==> (evicts(policy, e, now) <==> e.last_accessed + policy.lru_max_idle
            < now),
        policy.strategy is LFU ==> (evicts(policy, e, now) <==> e.access_count
            < policy.min_access_count),
        policy.strategy is TTL ==> (evicts(policy, e, now) <==> e.created_at + e.ttl < now),
        policy.strategy is Adaptive ==> (evicts(policy, e, now) <==> (e.created_at + e.ttl < now
            || (e.last_accessed + 1_800_000_000_000 < now && e.access_count
            < policy.min_access_count))),
{
}

/// Once a policy would evict an entry, it would evict it at every later
/// instant too.
pub proof fn lemma_evicts_stays(policy: EvictionPolicy, e: EntryView, t1: int, t2: int)
    requires
        t1 <= t2,
        evicts(policy, e, t1),
    ensures
        evicts(policy, e, t2),
{
}

/// Where a strategy can order `entries` by expiry, each entry's expiry is
/// an instant chrono can hold.
proof fn lemma_expiry_defined(strategy: EvictionStrategy, entries: Seq<CacheEntry>, a: int)
    requires
        victims_defined(strategy, entry_views(entries)),
        strategy is TTL,
        entries.len() >= 2,
        0 <= a < entries.len(),
    ensures
        is_instant(entries[a].created_at + entries[a].ttl),
{
    let s = entry_views(entries);
    assert(s[a] == entries[a]@);
    assert(is_instant(expires_at(s[a].created_at as int, s[a].ttl as int)));
}

impl Default for EvictionPolicy {
    fn default() -> (p: Self)
        ensures
            p == default_policy(),
    {
        EvictionPolicy {
            strategy: EvictionStrategy::Adaptive,
            max_entries: 10_000,
            lru_max_idle: 3_600_000_000_000,
            min_access_count: 5,
        }
    }
}

impl EvictionPolicy {
    /// Whether this policy evicts `entry` at the instant `now`.
    pub fn should_evict_at(&self, entry: &CacheEntry, now: i128) -> (r: bool)
        requires
            evicts_defined(*self, entry@, now as int),
        ensures
            r == evicts(*self, entry@, now as int),
    {
        match self.strategy {
            EvictionStrategy::LRU => lt_diff(entry.last_accessed, now, self.lru_max_idle),
            EvictionStrategy::LFU => entry.access_count < self.min_access_count,
            EvictionStrategy::TTL => sum_lt(entry.created_at, entry.ttl, now),
            EvictionStrategy::Adaptive => self.adaptive_eviction(entry, now),
        }
    }

    /// Whether this policy can judge `entry` at `now` without leaving
    /// chrono's range (see [`evicts_defined`]).
    pub fn evicts_defined_at(&self, entry: &CacheEntry, now: i128) -> (r: bool)
        ensures
            r == evicts_defined(*self, entry@, now as int),
    {
        match self.strategy {
            EvictionStrategy::LRU => diff_is_instant(now, self.lru_max_idle),
            EvictionStrategy::LFU => true,
            EvictionStrategy::TTL => sum_is_instant(entry.created_at, entry.ttl),
            EvictionStrategy::Adaptive => sum_is_instant(entry.created_at, entry.ttl)
                && diff_is_instant(now, ADAPTIVE_STALE_AFTER_NS),
        }
    }

    /// Whether this policy evicts `entry` now, by the wall clock.
    pub fn should_evict(&self, entry: &CacheEntry) -> (r: bool)
        requires
            forall|now: int| 0 <= now <= MAX_INSTANT_NS ==> #[trigger] evicts_defined(*self, entry@, now),
        ensures
            exists|now: int| 0 <= now <= MAX_INSTANT_NS && r == evicts(*self, entry@, now),
    {
        let now = now_nanos();
        self.should_evict_at(entry, now)
    }

    fn adaptive_eviction(&self, entry: &CacheEntry, now: i128) -> (r: bool)
        ensures
            r == adaptive_evicts(*self, entry@, now as int),
    {
        let ttl_expired = sum_lt(entry.created_at, entry.ttl, now);
        let stale = lt_diff(entry.last_accessed, now, ADAPTIVE_STALE_AFTER_NS);
        let low_value = entry.access_count < self.min_access_count;
        ttl_expired || (stale && low_value)
    }

    /// Whether `a` comes strictly before `b` in this policy's order.
    fn ranks_before(&self, a: &CacheEntry, b: &CacheEntry) -> (r: bool)
        requires
            self.strategy is TTL ==> is_instant(a.created_at + a.ttl) && is_instant(
                b.created_at + b.ttl,
            ),
        ensures
            r == ranks_before(self.strategy, a@, b@),
    {
        match self.strategy {
            EvictionStrategy::LRU => a.last_accessed < b.last_accessed,
            EvictionStrategy::LFU => a.access_count < b.access_count,
            EvictionStrategy::TTL => a.created_at + a.ttl < b.created_at + b.ttl,
            EvictionStrategy::Adaptive => {
                a.access_count < b.access_count || (a.access_count == b.access_count && (
                a.last_accessed < b.last_accessed || (a.last_accessed == b.last_accessed
                    && a.size_bytes > b.size_bytes)))
            },
        }
    }

    /// The keys of the first `count` of `entries` in this policy's order,
    /// least valuable first; entries that rank alike keep their order.
    pub fn select_victims(&self, entries: &[CacheEntry], count: usize) -> (victims: Vec<String>)
        requires
            victims_defined(self.strategy, entry_views(entries@)),
        ensures
            string_views(victims@) == victim_order(self.strategy, entry_views(entries@), count as nat),
    {
        let n = entries.len();
        let mut remaining: Vec<usize> = Vec::new();
        let mut k: usize = 0;
        while k < n
            invariant
                k <= n,
                n == entries@.len(),
                remaining@.len() == k,
                forall|i: int| 0 <= i < k ==> remaining@[i] == i,
            decreases n - k,
        {
            remaining.push(k);
            k = k + 1;
        }
        let ghost mut rest: Seq<EntryView> = entry_views(entries@);
        assert(rest =~= remaining@.map_values(|i: usize| entries@[i as int]@));
        let mut victims: Vec<String> = Vec::new();
        let mut taken: usize = 0;
        while taken < count && remaining.len() > 0
            invariant
                taken <= count,
                n == entries@.len(),
                remaining@.len() <= n,
                victims_defined(self.strategy, entry_views(entries@)),
                forall|i: int| 0 <= i < remaining@.len() ==> remaining@[i] < n,
                rest =~= remaining@.map_values(|i: usize| entries@[i as int]@),
                victim_order(self.strategy, entry_views(entries@), count as nat) == string_views(victims@)
                    + victim_order(self.strategy, rest, (count - taken) as nat),
            decreases count - taken,
        {
            let len = remaining.len();
            let mut best: usize = 0;
            let mut j: usize = 1;
            while j < len
                invariant
                    1 <= j <= len,
                    len == remaining@.len(),
                    n == entries@.len(),
                    forall|i: int| 0 <= i < remaining@.len() ==> remaining@[i] < n,
                    rest =~= remaining@.map_values(|i: usize| entries@[i as int]@),
                    best == first_least(self.strategy, rest.take(j as int)),
                    best < j,
                    victims_defined(self.strategy, entry_views(entries@)),
                    n >= len,
                decreases len - j,
            {
                proof {
                    assert(rest.take(j + 1).drop_last() =~= rest.take(j as int));
                }
                proof {
                    if self.strategy is TTL {
                        lemma_expiry_defined(self.strategy, entries@, remaining@[j as int] as int);
                        lemma_expiry_defined(self.strategy, entries@, remaining@[best as int] as int);
                    }
                }
                if self.ranks_before(&entries[remaining[j]], &entries[remaining[best]]) {
                    best = j;
                }
                j = j + 1;
            }
            assert(rest.take(len as int) =~= rest);
            let ghost prev = victims@;
            victims.push(entries[remaining[best]].key.clone());
            proof {
                let m = first_least(self.strategy, rest);
                assert(victim_order(self.strategy, rest, (count - taken) as nat) == seq![
                    rest[m].key,
                ] + victim_order(self.strategy, rest.remove(m), (count - taken - 1) as nat));
            }
            remaining.remove(best);
            proof {
                rest = rest.remove(best as int);
            }
            taken = taken + 1;
            assert(string_views(victims@) =~= string_views(prev) + seq![victims@.last()@]);
        }
        victims
    }
}

} // verus!
