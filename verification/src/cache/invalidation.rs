use vstd::arithmetic::power::pow;
use vstd::prelude::*;

use crate::cache::layers::{lemma_plain_pattern, lemma_prefix_pattern, wildcard_matches};
use crate::cache::{
    lemma_tiered_invalidate_drops, lemma_tiered_invalidate_keeps_absent, tiered_invalidate,
    tiers_hold, MultiLayerCache, TiersView,
};
use crate::clock::{now_nanos, MAX_INSTANT_NS};

verus! {

/// A record that `pattern` was invalidated at `timestamp` (nanoseconds
/// since the Unix epoch), for the publisher to pass on.
#[derive(Debug, Clone)]
pub struct InvalidationEvent {
    pub pattern: String,
    pub timestamp: i128,
}

/// The lowercase hexadecimal digit of `n` (for `0 <= n < 16`).
pub open spec fn hex_digit(n: int) -> char {
    if n < 10 {
        (48 + n) as char
    } else {
        (87 + n) as char
    }
}

/// Which of the 32 hexadecimal digits the character at position `p` of a
/// hyphenated UUID shows.
pub open spec fn uuid_digit_index(p: int) -> int {
    if p < 8 {
        p
    } else if p < 13 {
        p - 1
    } else if p < 18 {
        p - 2
    } else if p < 23 {
        p - 3
    } else {
        p - 4
    }
}

/// The hyphenated, lowercase text of the UUID whose 128 bits, most
/// significant first, are `id`: 32 hexadecimal digits in groups of 8, 4,
/// 4, 4 and 12, separated by `'-'`.
pub open spec fn uuid_text(id: u128) -> Seq<char> {
    Seq::new(
        36,
        |p: int|
            if p == 8 || p == 13 || p == 18 || p == 23 {
                '-'
            } else {
                hex_digit((id as int / pow(16, (31 - uuid_digit_index(p)) as nat)) % 16)
            },
    )
}

/// Formats a UUID with `uuid::Uuid::from_u128` and its `Display`
/// (`to_string`).
///
/// Trusted: uuid's `Display` writes the hyphenated lowercase form (its
/// `LowerHex` of `as_hyphenated`), which `uuid_text` states digit by digit.
#[verifier::external_body]
fn hyphenated_uuid(id: u128) -> (s: String)
    ensures
        s@ == uuid_text(id),
{
    uuid::Uuid::from_u128(id).to_string()
}

/// The text of a UUID holds no `'*'`, so it matches only itself.
pub proof fn lemma_uuid_text_has_no_star(id: u128)
    ensures
        !uuid_text(id).contains('*'),
{
    assert forall|p: int| 0 <= p < 36 implies uuid_text(id)[p] != '*' by {
        if !(p == 8 || p == 13 || p == 18 || p == 23) {
            let n = (id as int / pow(16, (31 - uuid_digit_index(p)) as nat)) % 16;
            assert(0 <= n < 16);
        }
    }
}

/// The three patterns an update of `entity` number `id` invalidates: the
/// entity itself, every key of the entity's kind, and every list of them.
pub open spec fn update_patterns(entity: Seq<char>, id: u128) -> Seq<Seq<char>> {
    seq![
        entity + seq![':'] + uuid_text(id),
        entity + seq![':', '*'],
        seq!['l', 'i', 's', 't', ':'] + entity + seq![':', '*'],
    ]
}

/// The part of a cache node that invalidates its own tiers and reports
/// what it invalidated when a publisher is attached.
pub struct CacheInvalidator {
    pub publishes: bool,
}

impl CacheInvalidator {
    /// An invalidator; `publishes` says whether a publisher is attached.
    pub fn new(publishes: bool) -> (r: Self)
        ensures
            r.publishes == publishes,
    {
        CacheInvalidator { publishes }
    }

    /// Drops `pattern` from every tier at the instant `now`; with a
    /// publisher attached, returns the event to publish.
    pub fn invalidate_pattern_at(&self, cache: &mut MultiLayerCache, pattern: &str, now: i128) -> (r:
        Option<InvalidationEvent>)
        ensures
            final(cache).config() == old(cache).config(),
            final(cache)@ == tiered_invalidate(old(cache)@, pattern@),
            r is Some <==> self.publishes,
            r matches Some(e) ==> e.pattern@ == pattern@ && e.timestamp == now,
    {
        cache.invalidate_pattern(pattern);
        if self.publishes {
            Some(InvalidationEvent { pattern: pattern.to_owned(), timestamp: now })
        } else {
            None
        }
    }

    /// Drops `pattern` from every tier, stamping any event with the wall
    /// clock.
    pub fn invalidate_pattern(&self, cache: &mut MultiLayerCache, pattern: &str) -> (r: Option<
        InvalidationEvent,
    >)
        ensures
            final(cache).config() == old(cache).config(),
            final(cache)@ == tiered_invalidate(old(cache)@, pattern@),
            r is Some <==> self.publishes,
            r matches Some(e) ==> e.pattern@ == pattern@ && 0 <= e.timestamp <= MAX_INSTANT_NS,
    {
        let now = now_nanos();
        self.invalidate_pattern_at(cache, pattern, now)
    }

    /// The patterns an update of `entity` number `id` invalidates: the
    /// entity itself (`entity:id`, the id hyphenated), every key of its kind
    /// (`entity:*`) and every list of them (`list:entity:*`).
    pub fn update_patterns(entity: &str, id: u128) -> (r: Vec<String>)
        ensures
            r@.len() == 3,
            r@[0]@ == update_patterns(entity@, id)[0],
            r@[1]@ == update_patterns(entity@, id)[1],
            r@[2]@ == update_patterns(entity@, id)[2],
    {
        let id_text = hyphenated_uuid(id);
        let mut id_pattern = entity.to_owned();
        id_pattern.append(":");
        id_pattern.append(id_text.as_str());
        let mut entity_pattern = entity.to_owned();
        entity_pattern.append(":*");
        let mut list_pattern = "list:".to_owned();
        list_pattern.append(entity);
        list_pattern.append(":*");
        proof {
            reveal_strlit(":");
            reveal_strlit(":*");
            reveal_strlit("list:");
            assert(id_pattern@ =~= update_patterns(entity@, id)[0]);
            assert(entity_pattern@ =~= update_patterns(entity@, id)[1]);
            assert(list_pattern@ =~= update_patterns(entity@, id)[2]);
        }
        let mut r: Vec<String> = Vec::new();
        r.push(id_pattern);
        r.push(entity_pattern);
        r.push(list_pattern);
        r
    }

    /// Invalidates, at the instant `now`, the three patterns of an update
    /// of `entity` number `id`, in order; with a publisher attached, returns
    /// their events.
    ///
    /// All three patterns are purged before any event is handed back, so a
    /// caller that must publish each event right after its purge, and stop
    /// at the first failed publish, purges pattern by pattern with
    /// `invalidate_pattern_at` instead.
    pub fn invalidate_on_update_at(
        &self,
        cache: &mut MultiLayerCache,
        entity: &str,
        id: u128,
        now: i128,
    ) -> (r: Vec<InvalidationEvent>)
        ensures
            final(cache).config() == old(cache).config(),
            final(cache)@ == tiered_invalidate(
                tiered_invalidate(
                    tiered_invalidate(old(cache)@, update_patterns(entity@, id)[0]),
                    update_patterns(entity@, id)[1],
                ),
                update_patterns(entity@, id)[2],
            ),
            r@.len() == if self.publishes {
                3int
            } else {
                0int
            },
            forall|i: int|
                0 <= i < r@.len() ==> #[trigger] r@[i].pattern@ == update_patterns(entity@, id)[i]
                    && r@[i].timestamp == now,
    {
        let patterns = Self::update_patterns(entity, id);
        let mut events: Vec<InvalidationEvent> = Vec::new();
        let mut k: usize = 0;
        let ghost start = cache@;
        while k < 3
            invariant
                k <= 3,
                patterns@.len() == 3,
                forall|i: int| 0 <= i < 3 ==> #[trigger] patterns@[i]@ == update_patterns(entity@, id)[i],
                cache.config() == old(cache).config(),
                start == old(cache)@,
                k == 0 ==> cache@ == start,
                k == 1 ==> cache@ == tiered_invalidate(start, update_patterns(entity@, id)[0]),
                k == 2 ==> cache@ == tiered_invalidate(
                    tiered_invalidate(start, update_patterns(entity@, id)[0]),
                    update_patterns(entity@, id)[1],
                ),
                k == 3 ==> cache@ == tiered_invalidate(
                    tiered_invalidate(
                        tiered_invalidate(start, update_patterns(entity@, id)[0]),
                        update_patterns(entity@, id)[1],
                    ),
                    update_patterns(entity@, id)[2],
                ),
                events@.len() == if self.publishes {
                    k as int
                } else {
                    0int
                },
                forall|i: int|
                    0 <= i < events@.len() ==> #[trigger] events@[i].pattern@ == update_patterns(
                        entity@,
                        id,
                    )[i] && events@[i].timestamp == now,
            decreases 3 - k,
        {
            let ghost before = events@;
            if let Some(event) = self.invalidate_pattern_at(cache, patterns[k].as_str(), now) {
                events.push(event);
                assert(forall|i: int| 0 <= i < before.len() ==> events@[i] == before[i]);
            }
            k = k + 1;
        }
        events
    }

    /// Invalidates the three patterns of an update of `entity` number
    /// `id`, stamping any events with the wall clock. As with
    /// `invalidate_on_update_at`, every pattern is purged before any event
    /// is handed back.
    #[verifier::spinoff_prover]
    pub fn invalidate_on_update(&self, cache: &mut MultiLayerCache, entity: &str, id: u128) -> (r:
        Vec<InvalidationEvent>)
        ensures
            final(cache).config() == old(cache).config(),
            final(cache)@ == tiered_invalidate(
                tiered_invalidate(
                    tiered_invalidate(old(cache)@, update_patterns(entity@, id)[0]),
                    update_patterns(entity@, id)[1],
                ),
                update_patterns(entity@, id)[2],
            ),
            r@.len() == if self.publishes {
                3int
            } else {
                0int
            },
            forall|i: int|
                0 <= i < r@.len() ==> #[trigger] r@[i].pattern@ == update_patterns(entity@, id)[i]
                    && 0 <= r@[i].timestamp <= MAX_INSTANT_NS,
    {
        let now = now_nanos();
        let r = self.invalidate_on_update_at(cache, entity, id, now);
        assert forall|i: int| 0 <= i < r@.len() implies #[trigger] r@[i].pattern@ == update_patterns(
            entity@,
            id,
        )[i] && 0 <= r@[i].timestamp <= MAX_INSTANT_NS by {
            let pattern_view = r@[i].pattern@;
            assert(r@[i].timestamp == now);
        }
        r
    }
}

/// The first pattern of an update of `entity` (a name without `'*'`)
/// matches exactly the entity's own key.
pub proof fn lemma_update_id_pattern_exact(entity: Seq<char>, id: u128, key: Seq<char>)
    requires
        !entity.contains('*'),
    ensures
        wildcard_matches(update_patterns(entity, id)[0], key) <==> key == entity + seq![':']
            + uuid_text(id),
{
    let p = update_patterns(entity, id)[0];
    lemma_uuid_text_has_no_star(id);
    assert(!p.contains('*')) by {
        if p.contains('*') {
            let j = choose|j: int| 0 <= j < p.len() && p[j] == '*';
            if j < entity.len() {
                assert(entity[j] == '*');
            } else if j > entity.len() {
                assert(uuid_text(id)[j - entity.len() - 1] == '*');
            }
        }
    }
    lemma_plain_pattern(p, key);
}

/// After an update of `entity` (a name without `'*'`) is invalidated, no
/// tier holds a key of the entity's kind (`entity:...`) or of its lists
/// (`list:entity:...`).
pub proof fn lemma_update_clears_entity(v: TiersView, entity: Seq<char>, id: u128, key: Seq<char>)
    requires
        !entity.contains('*'),
        (entity + seq![':']).is_prefix_of(key) || (seq!['l', 'i', 's', 't', ':'] + entity + seq![
            ':',
        ]).is_prefix_of(key),
    ensures
        !tiers_hold(
            tiered_invalidate(
                tiered_invalidate(
                    tiered_invalidate(v, update_patterns(entity, id)[0]),
                    update_patterns(entity, id)[1],
                ),
                update_patterns(entity, id)[2],
            ),
            key,
        ),
{
    let p1 = entity + seq![':'];
    let p2 = seq!['l', 'i', 's', 't', ':'] + entity + seq![':'];
    assert(!p1.contains('*')) by {
        if p1.contains('*') {
            let j = choose|j: int| 0 <= j < p1.len() && p1[j] == '*';
            if j < entity.len() {
                assert(entity[j] == '*');
            }
        }
    }
    assert(!p2.contains('*')) by {
        if p2.contains('*') {
            let j = choose|j: int| 0 <= j < p2.len() && p2[j] == '*';
            if 5 <= j < 5 + entity.len() {
                assert(entity[j - 5] == '*');
            }
        }
    }
    assert(p1 + seq!['*'] =~= update_patterns(entity, id)[1]);
    assert(p2 + seq!['*'] =~= update_patterns(entity, id)[2]);
    lemma_prefix_pattern(p1, key);
    lemma_prefix_pattern(p2, key);
    let u1 = tiered_invalidate(v, update_patterns(entity, id)[0]);
    let u2 = tiered_invalidate(u1, update_patterns(entity, id)[1]);
    if p1.is_prefix_of(key) {
        lemma_tiered_invalidate_drops(u1, update_patterns(entity, id)[1], key);
        lemma_tiered_invalidate_keeps_absent(u2, update_patterns(entity, id)[2], key);
    } else {
        lemma_tiered_invalidate_drops(u2, update_patterns(entity, id)[2], key);
    }
}

} // verus!
