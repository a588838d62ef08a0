use vstd::prelude::*;

use crate::cache::layer_model::{
    after_eviction, default_ttl_fits, fresh_value, get_defined, has_key, holds_key_at, index_of_key,
    capacity, keys_unique, layer_get, layer_set, lemma_filter_keeps_unique, lemma_index_of_key,
    lemma_layer_set_bounded,
    lemma_lookup_push, lemma_lookup_update, lemma_read_keeps_expiries, lemma_remove_keeps_unique, lemma_victims_defined_stored, matching,
    metadata_of, not_matching, opt_view, set_defined, snapshot, stored_expiries_defined, touched,
    victim_index,
};
use crate::cache::policies::{
    default_policy, entry_views, lemma_first_least_in_bounds, string_views, victim_order,
    victims_defined, CacheEntry, EvictionPolicy, EvictionStrategy,
};
use crate::clock::{
    fits_timedelta, is_instant, now_nanos, sum_is_instant, sum_lt, timedelta_fits, wrap_secs, Span,
    MAX_INSTANT_NS, NANOS_PER_SEC, TIMEDELTA_MAX_SECS,
};
use crate::text::chars_of;

verus! {

/// `i` is the position of the first `'*'` in `pattern`.
pub open spec fn is_first_star(pattern: Seq<char>, i: int) -> bool {
    &&& 0 <= i < pattern.len()
    &&& pattern[i] == '*'
    &&& forall|j: int| 0 <= j < i ==> pattern[j] != '*'
}

/// The meaning of a key pattern: `"*"` matches every key; a pattern that
/// holds a `'*'` matches the keys that start with the text before its first
/// `'*'` and end with the text after it (the two may overlap); any other
/// pattern matches only the key equal to it.
pub open spec fn wildcard_matches(pattern: Seq<char>, input: Seq<char>) -> bool {
    if pattern == seq!['*'] {
        true
    } else if pattern.contains('*') {
        let i = choose|i: int| is_first_star(pattern, i);
        &&& pattern.take(i).is_prefix_of(input)
        &&& pattern.skip(i + 1).is_suffix_of(input)
    } else {
        pattern == input
    }
}

/// There is at most one first `'*'`.
pub proof fn lemma_first_star_unique(pattern: Seq<char>, i: int, j: int)
    requires
        is_first_star(pattern, i),
        is_first_star(pattern, j),
    ensures
        i == j,
{
}

/// `"*"` matches every key.
pub proof fn lemma_star_matches_all(input: Seq<char>)
    ensures
        wildcard_matches(seq!['*'], input),
{
}

/// A pattern without `'*'` matches exactly the key equal to it.
pub proof fn lemma_plain_pattern(pattern: Seq<char>, input: Seq<char>)
    requires
        !pattern.contains('*'),
    ensures
        wildcard_matches(pattern, input) <==> pattern == input,
{
    if pattern == seq!['*'] {
        assert(pattern[0] == '*');
    }
}

/// `prefix*` (with no `'*'` in `prefix`) matches exactly the keys that
/// start with `prefix`.
pub proof fn lemma_prefix_pattern(prefix: Seq<char>, input: Seq<char>)
    requires
        !prefix.contains('*'),
    ensures
        wildcard_matches(prefix + seq!['*'], input) <==> prefix.is_prefix_of(input),
{
    let p = prefix + seq!['*'];
    let n = prefix.len() as int;
    assert(p[n] == '*');
    assert(is_first_star(p, n)) by {
        assert forall|j: int| 0 <= j < n implies p[j] != '*' by {
            assert(p[j] == prefix[j]);
        }
    }
    assert(p.contains('*'));
    let c = choose|i: int| is_first_star(p, i);
    lemma_first_star_unique(p, n, c);
    assert(p.take(n) =~= prefix);
    assert(p.skip(n + 1) =~= Seq::<char>::empty());
    if p == seq!['*'] {
        assert(prefix =~= Seq::<char>::empty());
    }
}

/// A pattern whose first `'*'` stands at `i` matches exactly the keys that
/// begin with the `i` characters before the star and end with the
/// characters after it (`"*"` itself, with nothing on either side, matches
/// every key).
pub proof fn lemma_star_pattern(pattern: Seq<char>, input: Seq<char>, i: int)
    requires
        is_first_star(pattern, i),
    ensures
        wildcard_matches(pattern, input) <==> ({
            let n = pattern.len() - i - 1;
            &&& i <= input.len()
            &&& forall|k: int| 0 <= k < i ==> #[trigger] input[k] == pattern[k]
            &&& n <= input.len()
            &&& forall|k: int|
                0 <= k < n ==> #[trigger] input[input.len() - n + k] == pattern[i + 1 + k]
        }),
{
    let n = pattern.len() - i - 1;
    assert(pattern.contains('*')) by {
        assert(pattern[i] == '*');
    }
    let c = choose|c: int| is_first_star(pattern, c);
    lemma_first_star_unique(pattern, i, c);
    let prefix_ok = i <= input.len() && forall|k: int| 0 <= k < i ==> #[trigger] input[k] == pattern[k];
    let suffix_ok = n <= input.len() && forall|k: int|
        0 <= k < n ==> #[trigger] input[input.len() - n + k] == pattern[i + 1 + k];
    if pattern.take(i).is_prefix_of(input) {
        assert forall|k: int| 0 <= k < i implies #[trigger] input[k] == pattern[k] by {
            assert(pattern.take(i)[k] == input.subrange(0, i)[k]);
        }
    }
    if prefix_ok {
        assert(pattern.take(i) =~= input.subrange(0, i));
    }
    if pattern.skip(i + 1).is_suffix_of(input) {
        assert forall|k: int| 0 <= k < n implies #[trigger] input[input.len() - n + k] == pattern[i
            + 1 + k] by {
            assert(pattern.skip(i + 1)[k] == input.subrange(input.len() - n, input.len() as int)[k]);
        }
    }
    if suffix_ok {
        let t = pattern.skip(i + 1);
        let u = input.subrange(input.len() - n, input.len() as int);
        assert forall|k: int| 0 <= k < n implies t[k] == u[k] by {
            assert(input[input.len() - n + k] == pattern[i + 1 + k]);
        }
        assert(t =~= u);
    }
    if pattern == seq!['*'] {
        assert(i == 0);
        assert(n == 0);
    }
}

/// `a[a_start..a_start + len] == b[b_start..b_start + len]`.
fn ranges_equal(a: &Vec<char>, a_start: usize, b: &Vec<char>, b_start: usize, len: usize) -> (r: bool)
    requires
        a_start + len <= a.len(),
        b_start + len <= b.len(),
    ensures
        r == (a@.subrange(a_start as int, a_start + len) =~= b@.subrange(
            b_start as int,
            b_start + len,
        )),
{
    let mut k: usize = 0;
    while k < len
        invariant
            k <= len,
            a_start + len <= a.len(),
            b_start + len <= b.len(),
            forall|m: int|
                0 <= m < k ==> #[trigger] a@.subrange(a_start as int, a_start + len)[m]
                    == b@.subrange(b_start as int, b_start + len)[m],
        decreases len - k,
    {
        if a[a_start + k] != b[b_start + k] {
            assert(a@.subrange(a_start as int, a_start + len)[k as int] != b@.subrange(
                b_start as int,
                b_start + len,
            )[k as int]);
            return false;
        }
        k = k + 1;
    }
    true
}

/// Decides whether `input` matches the key `pattern`: `"*"` matches every
/// key, `prefix*suffix` matches keys that start with `prefix` and end with
/// `suffix`, and a pattern without `'*'` matches only itself.
pub fn wildcard_match(pattern: &str, input: &str) -> (r: bool)
    ensures
        r == wildcard_matches(pattern@, input@),
{
    let p = chars_of(pattern);
    let x = chars_of(input);
    if p.len() == 1 && p[0] == '*' {
        assert(pattern@ =~= seq!['*']);
        return true;
    }
    assert(pattern@ != seq!['*']) by {
        if pattern@ == seq!['*'] {
            assert(p@[0] == '*');
        }
    }
    let mut i: usize = 0;
    while i < p.len() && p[i] != '*'
        invariant
            i <= p.len(),
            p@ == pattern@,
            forall|j: int| 0 <= j < i ==> p@[j] != '*',
        decreases p.len() - i,
    {
        i = i + 1;
    }
    if i < p.len() {
        proof {
            assert(is_first_star(pattern@, i as int));
            assert(pattern@.contains('*'));
            let c = choose|c: int| is_first_star(pattern@, c);
            lemma_first_star_unique(pattern@, i as int, c);
        }
        let prefix_len = i;
        let suffix_len = p.len() - i - 1;
        if prefix_len > x.len() || suffix_len > x.len() {
            return false;
        }
        let prefix_ok = ranges_equal(&p, 0, &x, 0, prefix_len);
        let suffix_ok = ranges_equal(&p, i + 1, &x, x.len() - suffix_len, suffix_len);
        proof {
            assert(pattern@.take(i as int) =~= p@.subrange(0, prefix_len as int));
            assert(pattern@.skip(i + 1) =~= p@.subrange(i + 1, i + 1 + suffix_len));
        }
        prefix_ok && suffix_ok
    } else {
        proof {
            assert(!pattern@.contains('*'));
        }
        if p.len() != x.len() {
            return false;
        }
        let same = ranges_equal(&p, 0, &x, 0, p.len());
        proof {
            assert(p@.subrange(0, p.len() as int) =~= p@);
            assert(x@.subrange(0, p.len() as int) =~= x@);
        }
        same
    }
}

/// Whether a default time-to-live of `default_ttl` can
/// stand in for a requested one that is too long (see [`default_ttl_fits`]).
pub fn ttl_fits(default_ttl: Span) -> (r: bool)
    ensures
        r == default_ttl_fits(default_ttl),
{
    let secs = wrap_secs(default_ttl.secs);
    -(TIMEDELTA_MAX_SECS as i128) <= secs && secs <= TIMEDELTA_MAX_SECS as i128
}

/// A stored value with its key and bookkeeping. Instants are nanoseconds
/// since the Unix epoch; `ttl` is a signed span in nanoseconds.
#[derive(Debug)]
pub struct StoredValue {
    pub key: String,
    pub payload: String,
    pub created_at: i128,
    pub last_accessed: i128,
    pub access_count: u64,
    pub ttl: i128,
}

/// A [`StoredValue`] with its key and payload as text.
pub struct StoredView {
    pub key: Seq<char>,
    pub payload: Seq<char>,
    pub created_at: i128,
    pub last_accessed: i128,
    pub access_count: u64,
    pub ttl: i128,
}

impl View for StoredValue {
    type V = StoredView;

    open spec fn view(&self) -> StoredView {
        StoredView {
            key: self.key@,
            payload: self.payload@,
            created_at: self.created_at,
            last_accessed: self.last_accessed,
            access_count: self.access_count,
            ttl: self.ttl,
        }
    }
}

impl StoredValue {
    /// A copy of this value.
    pub fn duplicate(&self) -> (r: StoredValue)
        ensures
            r@ == self@,
    {
        StoredValue {
            key: self.key.clone(),
            payload: self.payload.clone(),
            created_at: self.created_at,
            last_accessed: self.last_accessed,
            access_count: self.access_count,
            ttl: self.ttl,
        }
    }

    /// The eviction metadata of this value; its size is the payload's
    /// length in UTF-8 bytes.
    pub fn metadata(&self) -> (e: CacheEntry)
        ensures
            e@ == metadata_of(self@),
    {
        CacheEntry {
            key: self.key.clone(),
            created_at: self.created_at,
            last_accessed: self.last_accessed,
            access_count: self.access_count,
            ttl: self.ttl,
            size_bytes: self.payload.as_str().len(),
        }
    }
}

/// A layer of the cache: its values in order, with unique keys, a default
/// time-to-live, and an eviction policy.
pub struct SharedLayer {
    slots: Vec<StoredValue>,
    default_ttl: Span,
    policy: EvictionPolicy,
}

/// The text views of stored values, in order.
pub open spec fn slots_view(slots: Seq<StoredValue>) -> Seq<StoredView> {
    slots.map_values(|v: StoredValue| v@)
}

impl View for SharedLayer {
    type V = Seq<StoredView>;

    closed spec fn view(&self) -> Seq<StoredView> {
        slots_view(self.slots@)
    }
}

impl SharedLayer {
    /// Every layer's keys are unique.
    #[verifier::type_invariant]
    closed spec fn keys_are_unique(&self) -> bool {
        keys_unique(self@)
    }

    /// Puts `slots` in place of the layer's values.
    fn replace_slots(&mut self, slots: Vec<StoredValue>)
        requires
            keys_unique(slots_view(slots@)),
        ensures
            final(self).wf(),
            final(self)@ == slots_view(slots@),
            final(self).spec_default_ttl() == old(self).spec_default_ttl(),
            final(self).spec_policy() == old(self).spec_policy(),
    {
        self.slots = slots;
    }

    /// Takes the layer's values out, leaving it empty.
    fn take_slots(&mut self) -> (r: Vec<StoredValue>)
        ensures
            slots_view(r@) == old(self)@,
            keys_unique(old(self)@),
            final(self).spec_default_ttl() == old(self).spec_default_ttl(),
            final(self).spec_policy() == old(self).spec_policy(),
    {
        proof {
            use_type_invariant(&*self);
        }
        let mut slots: Vec<StoredValue> = Vec::new();
        std::mem::swap(&mut slots, &mut self.slots);
        slots
    }

    /// Drops the value at `i`.
    fn remove_slot(&mut self, i: usize)
        requires
            i < old(self)@.len(),
        ensures
            final(self).wf(),
            final(self)@ == old(self)@.remove(i as int),
            final(self).spec_default_ttl() == old(self).spec_default_ttl(),
            final(self).spec_policy() == old(self).spec_policy(),
    {
        let ghost s = self@;
        let mut slots = self.take_slots();
        slots.remove(i);
        proof {
            assert(slots_view(slots@) =~= s.remove(i as int));
            lemma_remove_keeps_unique(s, i as int);
        }
        self.replace_slots(slots);
    }

    /// Replaces the value at `i` by `v`, which has the same key.
    fn set_slot(&mut self, i: usize, v: StoredValue)
        requires
            i < old(self)@.len(),
            v@.key == old(self)@[i as int].key,
        ensures
            final(self).wf(),
            final(self)@ == old(self)@.update(i as int, v@),
            final(self).spec_default_ttl() == old(self).spec_default_ttl(),
            final(self).spec_policy() == old(self).spec_policy(),
    {
        let ghost s = self@;
        let ghost w = v@;
        let mut slots = self.take_slots();
        slots.set(i, v);
        proof {
            assert(slots_view(slots@) =~= s.update(i as int, w));
            lemma_lookup_update(s, i as int, w, w.key);
        }
        self.replace_slots(slots);
    }

    /// Appends `v`, whose key the layer does not hold.
    fn push_slot(&mut self, v: StoredValue)
        requires
            !has_key(old(self)@, v@.key),
        ensures
            final(self).wf(),
            final(self)@ == old(self)@.push(v@),
            final(self).spec_default_ttl() == old(self).spec_default_ttl(),
            final(self).spec_policy() == old(self).spec_policy(),
    {
        let ghost s = self@;
        let ghost w = v@;
        let mut slots = self.take_slots();
        slots.push(v);
        proof {
            assert(slots_view(slots@) =~= s.push(w));
            lemma_lookup_push(s, w, w.key);
        }
        self.replace_slots(slots);
    }

    /// The layer's default time-to-live.
    pub closed spec fn spec_default_ttl(&self) -> Span {
        self.default_ttl
    }

    /// The layer's eviction policy.
    pub closed spec fn spec_policy(&self) -> EvictionPolicy {
        self.policy
    }

    /// The layer's keys are unique, as the type keeps them at all times;
    /// every call that changes the layer says so of the result.
    pub open spec fn wf(&self) -> bool {
        keys_unique(self@)
    }

    /// Shows a caller handed this layer that its keys are unique; it reads
    /// and changes nothing.
    pub fn unique_keys(&self)
        ensures
            self.wf(),
    {
        proof {
            use_type_invariant(self);
        }
    }

    /// An empty layer.
    pub fn new(default_ttl: Span, policy: EvictionPolicy) -> (r: Self)
        ensures
            r.wf(),
            r@ == Seq::<StoredView>::empty(),
            r.spec_default_ttl() == default_ttl,
            r.spec_policy() == policy,
    {
        let r = SharedLayer { slots: Vec::new(), default_ttl, policy };
        assert(r@ =~= Seq::<StoredView>::empty());
        r
    }

    /// The layer's default time-to-live.
    pub fn default_ttl(&self) -> (r: Span)
        ensures
            r == self.spec_default_ttl(),
    {
        self.default_ttl
    }

    /// The position of `key`, if the layer holds it.
    fn find(&self, key: &str) -> (r: Option<usize>)
        ensures
            match r {
                Some(i) => holds_key_at(self@, key@, i as int) && index_of_key(self@, key@) == i,
                None => !has_key(self@, key@),
            },
    {
        proof {
            use_type_invariant(self);
        }
        let wanted = key.to_owned();
        let mut i: usize = 0;
        while i < self.slots.len()
            invariant
                i <= self.slots.len(),
                self.wf(),
                wanted@ == key@,
                forall|j: int| 0 <= j < i ==> self@[j].key != key@,
            decreases self.slots.len() - i,
        {
            if self.slots[i].key == wanted {
                proof {
                    assert(self@[i as int].key == self.slots@[i as int].key@);
                    lemma_index_of_key(self@, key@, i as int);
                }
                return Some(i);
            }
            i = i + 1;
        }
        None
    }

    /// Whether a read of `key` stays within chrono's range (see
    /// [`get_defined`]).
    pub fn read_defined(&self, key: &str) -> (r: bool)
        ensures
            r == get_defined(self@, key@),
    {
        proof {
            use_type_invariant(self);
        }
        match self.find(key) {
            None => true,
            Some(i) => sum_is_instant(self.slots[i].created_at, self.slots[i].ttl),
        }
    }

    /// Whether every stored expiry is an instant chrono can hold.
    fn expiries_all_defined(&self) -> (r: bool)
        ensures
            r == stored_expiries_defined(self@),
    {
        let mut i: usize = 0;
        while i < self.slots.len()
            invariant
                i <= self.slots.len(),
                forall|j: int| 0 <= j < i ==> is_instant(#[trigger] self@[j].created_at + self@[j].ttl),
            decreases self.slots.len() - i,
        {
            if !sum_is_instant(self.slots[i].created_at, self.slots[i].ttl) {
                assert(!is_instant(self@[i as int].created_at + self@[i as int].ttl));
                return false;
            }
            i = i + 1;
        }
        true
    }

    /// Whether a write of `ttl` to a layer of `len` values like this one
    /// stays within chrono's range.
    fn write_defined_with_len(&self, len: usize, ttl: Span) -> (r: bool)
        ensures
            r == ((fits_timedelta(ttl) || default_ttl_fits(self.default_ttl)) && (len
                >= self.policy.max_entries ==> ((self.policy.strategy is TTL && len >= 2)
                ==> stored_expiries_defined(self@)))),
    {
        let ttl_ok = timedelta_fits(ttl) || ttl_fits(self.default_ttl);
        if len >= self.policy.max_entries {
            let orders_by_expiry = match self.policy.strategy {
                EvictionStrategy::TTL => true,
                _ => false,
            };
            ttl_ok && (!(orders_by_expiry && len >= 2) || self.expiries_all_defined())
        } else {
            ttl_ok
        }
    }

    /// Whether a write of `ttl` stays within chrono's range (see
    /// [`set_defined`]).
    pub fn write_defined(&self, ttl: Span) -> (r: bool)
        ensures
            r == set_defined(self@, self.spec_policy(), self.spec_default_ttl(), ttl),
    {
        proof {
            lemma_victims_defined_stored(self.policy.strategy, self@);
        }
        self.write_defined_with_len(self.slots.len(), ttl)
    }

    /// Whether a write of `ttl` right after a read of `key` at `now`
    /// stays within chrono's range.
    pub fn write_defined_after_read(&self, key: &str, now: i128, ttl: Span) -> (r: bool)
        requires
            get_defined(self@, key@),
        ensures
            r == set_defined(
                layer_get(self@, key@, now).0,
                self.spec_policy(),
                self.spec_default_ttl(),
                ttl,
            ),
    {
        proof {
            use_type_invariant(self);
        }
        let len = match self.find(key) {
            Some(i) => if sum_lt(self.slots[i].created_at, self.slots[i].ttl, now) {
                self.slots.len() - 1
            } else {
                self.slots.len()
            },
            None => self.slots.len(),
        };
        proof {
            lemma_read_keeps_expiries(self@, key@, now);
            lemma_victims_defined_stored(self.policy.strategy, layer_get(self@, key@, now).0);
        }
        self.write_defined_with_len(len, ttl)
    }

    /// Whether a read of `key` at `now` would find a live value; the layer
    /// is left as it is.
    pub fn holds_live(&self, key: &str, now: i128) -> (r: bool)
        ensures
            r == layer_get(self@, key@, now).1 is Some,
    {
        proof {
            use_type_invariant(self);
        }
        match self.find(key) {
            None => false,
            Some(i) => !(sum_lt(self.slots[i].created_at, self.slots[i].ttl, now)),
        }
    }

    /// Reads `key` at the instant `now`: a missing key gives nothing; an
    /// expired value is dropped and gives nothing; a live value is touched
    /// (last access `now`, one more access) and its payload returned.
    pub fn get_at(&mut self, key: &str, now: i128) -> (r: Option<String>)
        requires
            get_defined(old(self)@, key@),
        ensures
            final(self).wf(),
            final(self)@ == layer_get(old(self)@, key@, now).0,
            opt_view(r) == layer_get(old(self)@, key@, now).1,
            final(self).spec_default_ttl() == old(self).spec_default_ttl(),
            final(self).spec_policy() == old(self).spec_policy(),
    {
        proof {
            use_type_invariant(&*self);
        }
        match self.find(key) {
            None => None,
            Some(i) => {
                let created_at = self.slots[i].created_at;
                let ttl = self.slots[i].ttl;
                if sum_lt(created_at, ttl, now) {
                    self.remove_slot(i);
                    None
                } else {
                    let ghost before = self@;
                    let payload = self.slots[i].payload.clone();
                    let updated = StoredValue {
                        key: self.slots[i].key.clone(),
                        payload: self.slots[i].payload.clone(),
                        created_at,
                        last_accessed: now,
                        access_count: self.slots[i].access_count.saturating_add(1),
                        ttl,
                    };
                    assert(updated@ == touched(before[i as int], now));
                    self.set_slot(i, updated);
                    Some(payload)
                }
            },
        }
    }

    /// Reads `key` now, by the wall clock.
    pub fn get(&mut self, key: &str) -> (r: Option<String>)
        requires
            get_defined(old(self)@, key@),
        ensures
            final(self).wf(),
            exists|now: i128|
                0 <= now <= MAX_INSTANT_NS && final(self)@ == layer_get(old(self)@, key@, now).0 && opt_view(r)
                    == layer_get(old(self)@, key@, now).1,
            final(self).spec_default_ttl() == old(self).spec_default_ttl(),
            final(self).spec_policy() == old(self).spec_policy(),
    {
        let now = now_nanos();
        self.get_at(key, now)
    }

    /// The eviction metadata of every value, in order.
    pub fn metadata_snapshot(&self) -> (r: Vec<CacheEntry>)
        ensures
            entry_views(r@) == snapshot(self@),
    {
        let mut r: Vec<CacheEntry> = Vec::new();
        let mut i: usize = 0;
        while i < self.slots.len()
            invariant
                i <= self.slots.len(),
                entry_views(r@) =~= snapshot(self@).take(i as int),
            decreases self.slots.len() - i,
        {
            let ghost before = r@;
            r.push(self.slots[i].metadata());
            proof {
                assert(snapshot(self@)[i as int] == metadata_of(self.slots@[i as int]@));
                assert(entry_views(r@) =~= entry_views(before).push(r@[i as int]@));
                assert(snapshot(self@).take(i + 1) =~= snapshot(self@).take(i as int).push(
                    snapshot(self@)[i as int],
                ));
            }
            i = i + 1;
            assert(entry_views(r@) =~= snapshot(self@).take(i as int));
        }
        assert(snapshot(self@).take(i as int) =~= snapshot(self@));
        r
    }

    /// Drops the policy's victim when the layer is full.
    fn evict_if_full(&mut self)
        requires
            old(self)@.len() >= old(self).spec_policy().max_entries ==> victims_defined(
                old(self).spec_policy().strategy,
                snapshot(old(self)@),
            ),
        ensures
            final(self).wf(),
            final(self)@ == after_eviction(old(self)@, old(self).spec_policy()),
            final(self).spec_default_ttl() == old(self).spec_default_ttl(),
            final(self).spec_policy() == old(self).spec_policy(),
    {
        proof {
            use_type_invariant(&*self);
        }
        if self.slots.len() >= self.policy.max_entries {
            let entries = self.metadata_snapshot();
            let victims = self.policy.select_victims(&entries, 1);
            let ghost s = self@;
            proof {
                reveal_with_fuel(victim_order, 2);
                assert(entry_views(entries@) == snapshot(s));
                assert(string_views(victims@).len() == victims@.len());
            }
            if victims.len() > 0 {
                proof {
                    assert(snapshot(s).len() > 0);
                    lemma_first_least_in_bounds(self.policy.strategy, snapshot(s));
                    let m = victim_index(s, self.policy);
                    assert(string_views(victims@)[0] == victims@[0]@);
                    assert(snapshot(s)[m].key == s[m].key);
                    assert(victims@[0]@ == s[m].key);
                    lemma_index_of_key(s, s[m].key, m);
                }
                match self.find(victims[0].as_str()) {
                    Some(i) => {
                        self.remove_slot(i);
                    },
                    None => {
                        assert(false);
                    },
                }
            } else {
                proof {
                    reveal_with_fuel(victim_order, 2);
                    assert(string_views(victims@).len() == 0);
                    assert(snapshot(s).len() == 0);
                }
            }
        }
    }

    /// Stores `value` under `key` at the instant `now` with a time-to-live
    /// of `ttl` (or the default, cut to whole seconds, when
    /// the request does not fit a chrono `TimeDelta`); a full layer first
    /// evicts its policy's victim.
    pub fn set_with_ttl_at(&mut self, key: &str, value: String, ttl: Span, now: i128)
        requires
            set_defined(old(self)@, old(self).spec_policy(), old(self).spec_default_ttl(), ttl),
        ensures
            final(self).wf(),
            final(self)@ == layer_set(
                old(self)@,
                old(self).spec_policy(),
                old(self).spec_default_ttl(),
                key@,
                value@,
                ttl,
                now,
            ),
            final(self).spec_default_ttl() == old(self).spec_default_ttl(),
            final(self).spec_policy() == old(self).spec_policy(),
            old(self)@.len() <= capacity(old(self).spec_policy()) ==> final(self)@.len()
                <= capacity(old(self).spec_policy()),
    {
        proof {
            use_type_invariant(&*self);
        }
        proof {
            if old(self)@.len() <= capacity(old(self).spec_policy()) {
                lemma_layer_set_bounded(
                    old(self)@,
                    old(self).spec_policy(),
                    old(self).spec_default_ttl(),
                    key@,
                    value@,
                    ttl,
                    now,
                );
            }
        }
        let kept_ttl: i128 = if timedelta_fits(ttl) {
            (ttl.secs as i128) * NANOS_PER_SEC + (ttl.nanos as i128)
        } else {
            let secs = wrap_secs(self.default_ttl.secs);
            assert(-(TIMEDELTA_MAX_SECS as int) * NANOS_PER_SEC <= secs * NANOS_PER_SEC
                <= TIMEDELTA_MAX_SECS as int * NANOS_PER_SEC) by (nonlinear_arith)
                requires
                    -(TIMEDELTA_MAX_SECS as int) <= secs <= TIMEDELTA_MAX_SECS,
            ;
            secs * NANOS_PER_SEC
        };
        self.evict_if_full();
        let ghost s = self@;
        let fresh = StoredValue {
            key: key.to_owned(),
            payload: value,
            created_at: now,
            last_accessed: now,
            access_count: 1,
            ttl: kept_ttl,
        };
        let ghost v = fresh@;
        assert(v == fresh_value(key@, v.payload, ttl, self.default_ttl, now));
        match self.find(key) {
            Some(i) => {
                self.set_slot(i, fresh);
            },
            None => {
                self.push_slot(fresh);
            },
        }
    }

    /// Stores `value` under `key` now, by the wall clock.
    pub fn set_with_ttl(&mut self, key: &str, value: String, ttl: Span)
        requires
            set_defined(old(self)@, old(self).spec_policy(), old(self).spec_default_ttl(), ttl),
        ensures
            final(self).wf(),
            exists|now: i128|
                0 <= now <= MAX_INSTANT_NS && final(self)@ == layer_set(
                    old(self)@,
                    old(self).spec_policy(),
                    old(self).spec_default_ttl(),
                    key@,
                    value@,
                    ttl,
                    now,
                ),
            final(self).spec_default_ttl() == old(self).spec_default_ttl(),
            final(self).spec_policy() == old(self).spec_policy(),
            old(self)@.len() <= capacity(old(self).spec_policy()) ==> final(self)@.len()
                <= capacity(old(self).spec_policy()),
    {
        let now = now_nanos();
        self.set_with_ttl_at(key, value, ttl, now)
    }

    /// Drops every value whose key `pattern` matches and returns how many
    /// were dropped; the others keep their order.
    pub fn delete_pattern(&mut self, pattern: &str) -> (r: usize)
        ensures
            final(self).wf(),
            final(self)@ == not_matching(old(self)@, pattern@),
            r == matching(old(self)@, pattern@).len(),
            final(self).spec_default_ttl() == old(self).spec_default_ttl(),
            final(self).spec_policy() == old(self).spec_policy(),
    {
        proof {
            use_type_invariant(&*self);
        }
        let ghost s = self@;
        let ghost keep = |v: StoredView| !wildcard_matches(pattern@, v.key);
        let ghost drop = |v: StoredView| wildcard_matches(pattern@, v.key);
        let mut kept: Vec<StoredValue> = Vec::new();
        let mut removed: usize = 0;
        let mut i: usize = 0;
        while i < self.slots.len()
            invariant
                i <= self.slots.len(),
                self@ == s,
                keep == (|v: StoredView| !wildcard_matches(pattern@, v.key)),
                drop == (|v: StoredView| wildcard_matches(pattern@, v.key)),
                kept@.map_values(|v: StoredValue| v@) =~= s.take(i as int).filter(keep),
                removed == s.take(i as int).filter(drop).len(),
                removed <= i,
            decreases self.slots.len() - i,
        {
            proof {
                assert(s.take(i + 1) =~= s.take(i as int).push(s[i as int]));
                s.take(i as int).lemma_filter_push(s[i as int], keep);
                s.take(i as int).lemma_filter_push(s[i as int], drop);
                s.take(i as int).filter(drop).lemma_filter_len(drop);
            }
            let ghost before = kept@;
            assert(s[i as int] == self.slots@[i as int]@);
            let current: &str = self.slots[i].key.as_str();
            let matched = wildcard_match(pattern, current);
            assert(current@ == s[i as int].key);
            if matched {
                assert(drop(s[i as int]));
                removed = removed + 1;
            } else {
                assert(keep(s[i as int]));
                kept.push(self.slots[i].duplicate());
                assert(kept@.map_values(|v: StoredValue| v@) =~= before.map_values(
                    |v: StoredValue| v@,
                ).push(s[i as int]));
            }
            i = i + 1;
        }
        proof {
            assert(s.take(i as int) =~= s);
        }
        proof {
            lemma_filter_keeps_unique(s, keep);
        }
        self.replace_slots(kept);
        removed
    }
}

/// The in-process first tier; by default values live sixty seconds.
pub struct LocalCache {
    inner: SharedLayer,
}

impl View for LocalCache {
    type V = Seq<StoredView>;

    closed spec fn view(&self) -> Seq<StoredView> {
        self.inner@
    }
}

impl Default for LocalCache {
    fn default() -> (r: Self)
        ensures
            r.wf(),
            r@ == Seq::<StoredView>::empty(),
            r.spec_default_ttl() == Span::from_secs_spec(60),
            r.spec_policy() == default_policy(),
    {
        LocalCache { inner: SharedLayer::new(Span::from_secs(60), EvictionPolicy::default()) }
    }
}

impl LocalCache {
    /// The layer's default time-to-live.
    pub closed spec fn spec_default_ttl(&self) -> Span {
        self.inner.spec_default_ttl()
    }

    /// The layer's eviction policy.
    pub closed spec fn spec_policy(&self) -> EvictionPolicy {
        self.inner.spec_policy()
    }

    /// The layer's keys are unique, as the type keeps them at all times;
    /// every call that changes the layer says so of the result.
    pub open spec fn wf(&self) -> bool {
        keys_unique(self@)
    }

    /// Shows a caller handed this layer that its keys are unique; it reads
    /// and changes nothing.
    pub fn unique_keys(&self)
        ensures
            self.wf(),
    {
        self.inner.unique_keys();
    }

    /// An empty layer with the given default time-to-live
    /// and eviction policy.
    pub fn new(default_ttl: Span, policy: EvictionPolicy) -> (r: Self)
        ensures
            r.wf(),
            r@ == Seq::<StoredView>::empty(),
            r.spec_default_ttl() == default_ttl,
            r.spec_policy() == policy,
    {
        LocalCache { inner: SharedLayer::new(default_ttl, policy) }
    }

    /// The layer's default time-to-live.
    pub fn default_ttl(&self) -> (r: Span)
        ensures
            r == self.spec_default_ttl(),
    {
        self.inner.default_ttl()
    }

    /// The layer itself, for queries that leave it as it is.
    pub fn layer(&self) -> (r: &SharedLayer)
        ensures
            r@ == self@,
            r.spec_policy() == self.spec_policy(),
            r.spec_default_ttl() == self.spec_default_ttl(),
    {
        &self.inner
    }

    /// Whether a read of `key` at `now` would find a live value; the layer
    /// is left as it is.
    pub fn holds_live(&self, key: &str, now: i128) -> (r: bool)
        ensures
            r == layer_get(self@, key@, now).1 is Some,
    {
        self.inner.holds_live(key, now)
    }

    /// Reads `key` at the instant `now` (see [`layer_get`]).
    pub fn get_at(&mut self, key: &str, now: i128) -> (r: Option<String>)
        requires
            get_defined(old(self)@, key@),
        ensures
            final(self).wf(),
            final(self)@ == layer_get(old(self)@, key@, now).0,
            opt_view(r) == layer_get(old(self)@, key@, now).1,
            final(self).spec_default_ttl() == old(self).spec_default_ttl(),
            final(self).spec_policy() == old(self).spec_policy(),
    {
        self.inner.get_at(key, now)
    }

    /// Reads `key` now, by the wall clock.
    pub fn get(&mut self, key: &str) -> (r: Option<String>)
        requires
            get_defined(old(self)@, key@),
        ensures
            final(self).wf(),
            exists|now: i128|
                0 <= now <= MAX_INSTANT_NS && final(self)@ == layer_get(old(self)@, key@, now).0 && opt_view(r)
                    == layer_get(old(self)@, key@, now).1,
            final(self).spec_default_ttl() == old(self).spec_default_ttl(),
            final(self).spec_policy() == old(self).spec_policy(),
    {
        let now = now_nanos();
        self.inner.get_at(key, now)
    }

    /// Stores `value` under `key` at the instant `now` (see [`layer_set`]).
    pub fn set_with_ttl_at(&mut self, key: &str, value: String, ttl: Span, now: i128)
        requires
            set_defined(old(self)@, old(self).spec_policy(), old(self).spec_default_ttl(), ttl),
        ensures
            final(self).wf(),
            final(self)@ == layer_set(
                old(self)@,
                old(self).spec_policy(),
                old(self).spec_default_ttl(),
                key@,
                value@,
                ttl,
                now,
            ),
            final(self).spec_default_ttl() == old(self).spec_default_ttl(),
            final(self).spec_policy() == old(self).spec_policy(),
            old(self)@.len() <= capacity(old(self).spec_policy()) ==> final(self)@.len()
                <= capacity(old(self).spec_policy()),
    {
        self.inner.set_with_ttl_at(key, value, ttl, now)
    }

    /// Stores `value` under `key` now, by the wall clock.
    pub fn set_with_ttl(&mut self, key: &str, value: String, ttl: Span)
        requires
            set_defined(old(self)@, old(self).spec_policy(), old(self).spec_default_ttl(), ttl),
        ensures
            final(self).wf(),
            exists|now: i128|
                0 <= now <= MAX_INSTANT_NS && final(self)@ == layer_set(
                    old(self)@,
                    old(self).spec_policy(),
                    old(self).spec_default_ttl(),
                    key@,
                    value@,
                    ttl,
                    now,
                ),
            final(self).spec_default_ttl() == old(self).spec_default_ttl(),
            final(self).spec_policy() == old(self).spec_policy(),
            old(self)@.len() <= capacity(old(self).spec_policy()) ==> final(self)@.len()
                <= capacity(old(self).spec_policy()),
    {
        let now = now_nanos();
        let ghost payload = value@;
        self.inner.set_with_ttl_at(key, value, ttl, now);
        assert(self@ == layer_set(
            old(self)@,
            old(self).spec_policy(),
            old(self).spec_default_ttl(),
            key@,
            payload,
            ttl,
            now,
        ));
    }

    /// Drops every value whose key `pattern` matches and returns how many
    /// were dropped.
    pub fn delete_pattern(&mut self, pattern: &str) -> (r: usize)
        ensures
            final(self).wf(),
            final(self)@ == not_matching(old(self)@, pattern@),
            r == matching(old(self)@, pattern@).len(),
            final(self).spec_default_ttl() == old(self).spec_default_ttl(),
            final(self).spec_policy() == old(self).spec_policy(),
    {
        self.inner.delete_pattern(pattern)
    }

    /// The eviction metadata of every value, in order.
    pub fn metadata_snapshot(&self) -> (r: Vec<CacheEntry>)
        ensures
            entry_views(r@) == snapshot(self@),
    {
        self.inner.metadata_snapshot()
    }
}

/// The shared second tier; by default values live five minutes.
pub struct RedisCache {
    inner: SharedLayer,
}

impl View for RedisCache {
    type V = Seq<StoredView>;

    closed spec fn view(&self) -> Seq<StoredView> {
        self.inner@
    }
}

impl Default for RedisCache {
    fn default() -> (r: Self)
        ensures
            r.wf(),
            r@ == Seq::<StoredView>::empty(),
            r.spec_default_ttl() == Span::from_secs_spec(300),
            r.spec_policy() == default_policy(),
    {
        RedisCache { inner: SharedLayer::new(Span::from_secs(300), EvictionPolicy::default()) }
    }
}

impl RedisCache {
    /// The layer's default time-to-live.
    pub closed spec fn spec_default_ttl(&self) -> Span {
        self.inner.spec_default_ttl()
    }

    /// The layer's eviction policy.
    pub closed spec fn spec_policy(&self) -> EvictionPolicy {
        self.inner.spec_policy()
    }

    /// The layer's keys are unique, as the type keeps them at all times;
    /// every call that changes the layer says so of the result.
    pub open spec fn wf(&self) -> bool {
        keys_unique(self@)
    }

    /// Shows a caller handed this layer that its keys are unique; it reads
    /// and changes nothing.
    pub fn unique_keys(&self)
        ensures
            self.wf(),
    {
        self.inner.unique_keys();
    }

    /// An empty layer with the given default time-to-live
    /// and eviction policy.
    pub fn new(default_ttl: Span, policy: EvictionPolicy) -> (r: Self)
        ensures
            r.wf(),
            r@ == Seq::<StoredView>::empty(),
            r.spec_default_ttl() == default_ttl,
            r.spec_policy() == policy,
    {
        RedisCache { inner: SharedLayer::new(default_ttl, policy) }
    }

    /// The layer's default time-to-live.
    pub fn default_ttl(&self) -> (r: Span)
        ensures
            r == self.spec_default_ttl(),
    {
        self.inner.default_ttl()
    }

    /// The layer itself, for queries that leave it as it is.
    pub fn layer(&self) -> (r: &SharedLayer)
        ensures
            r@ == self@,
            r.spec_policy() == self.spec_policy(),
            r.spec_default_ttl() == self.spec_default_ttl(),
    {
        &self.inner
    }

    /// Whether a read of `key` at `now` would find a live value; the layer
    /// is left as it is.
    pub fn holds_live(&self, key: &str, now: i128) -> (r: bool)
        ensures
            r == layer_get(self@, key@, now).1 is Some,
    {
        self.inner.holds_live(key, now)
    }

    /// Reads `key` at the instant `now` (see [`layer_get`]).
    pub fn get_at(&mut self, key: &str, now: i128) -> (r: Option<String>)
        requires
            get_defined(old(self)@, key@),
        ensures
            final(self).wf(),
            final(self)@ == layer_get(old(self)@, key@, now).0,
            opt_view(r) == layer_get(old(self)@, key@, now).1,
            final(self).spec_default_ttl() == old(self).spec_default_ttl(),
            final(self).spec_policy() == old(self).spec_policy(),
    {
        self.inner.get_at(key, now)
    }

    /// Reads `key` now, by the wall clock.
    pub fn get(&mut self, key: &str) -> (r: Option<String>)
        requires
            get_defined(old(self)@, key@),
        ensures
            final(self).wf(),
            exists|now: i128|
                0 <= now <= MAX_INSTANT_NS && final(self)@ == layer_get(old(self)@, key@, now).0 && opt_view(r)
                    == layer_get(old(self)@, key@, now).1,
            final(self).spec_default_ttl() == old(self).spec_default_ttl(),
            final(self).spec_policy() == old(self).spec_policy(),
    {
        let now = now_nanos();
        self.inner.get_at(key, now)
    }

    /// Stores `value` under `key` at the instant `now` (see [`layer_set`]).
    pub fn set_with_ttl_at(&mut self, key: &str, value: String, ttl: Span, now: i128)
        requires
            set_defined(old(self)@, old(self).spec_policy(), old(self).spec_default_ttl(), ttl),
        ensures
            final(self).wf(),
            final(self)@ == layer_set(
                old(self)@,
                old(self).spec_policy(),
                old(self).spec_default_ttl(),
                key@,
                value@,
                ttl,
                now,
            ),
            final(self).spec_default_ttl() == old(self).spec_default_ttl(),
            final(self).spec_policy() == old(self).spec_policy(),
            old(self)@.len() <= capacity(old(self).spec_policy()) ==> final(self)@.len()
                <= capacity(old(self).spec_policy()),
    {
        self.inner.set_with_ttl_at(key, value, ttl, now)
    }

    /// Stores `value` under `key` now, by the wall clock.
    pub fn set_with_ttl(&mut self, key: &str, value: String, ttl: Span)
        requires
            set_defined(old(self)@, old(self).spec_policy(), old(self).spec_default_ttl(), ttl),
        ensures
            final(self).wf(),
            exists|now: i128|
                0 <= now <= MAX_INSTANT_NS && final(self)@ == layer_set(
                    old(self)@,
                    old(self).spec_policy(),
                    old(self).spec_default_ttl(),
                    key@,
                    value@,
                    ttl,
                    now,
                ),
            final(self).spec_default_ttl() == old(self).spec_default_ttl(),
            final(self).spec_policy() == old(self).spec_policy(),
            old(self)@.len() <= capacity(old(self).spec_policy()) ==> final(self)@.len()
                <= capacity(old(self).spec_policy()),
    {
        let now = now_nanos();
        let ghost payload = value@;
        self.inner.set_with_ttl_at(key, value, ttl, now);
        assert(self@ == layer_set(
            old(self)@,
            old(self).spec_policy(),
            old(self).spec_default_ttl(),
            key@,
            payload,
            ttl,
            now,
        ));
    }

    /// Drops every value whose key `pattern` matches and returns how many
    /// were dropped.
    pub fn delete_pattern(&mut self, pattern: &str) -> (r: usize)
        ensures
            final(self).wf(),
            final(self)@ == not_matching(old(self)@, pattern@),
            r == matching(old(self)@, pattern@).len(),
            final(self).spec_default_ttl() == old(self).spec_default_ttl(),
            final(self).spec_policy() == old(self).spec_policy(),
    {
        self.inner.delete_pattern(pattern)
    }
}

/// The durable third tier; by default values live thirty minutes.
pub struct DatabaseCache {
    inner: SharedLayer,
}

impl View for DatabaseCache {
    type V = Seq<StoredView>;

    closed spec fn view(&self) -> Seq<StoredView> {
        self.inner@
    }
}

impl Default for DatabaseCache {
    fn default() -> (r: Self)
        ensures
            r.wf(),
            r@ == Seq::<StoredView>::empty(),
            r.spec_default_ttl() == Span::from_secs_spec(1800),
            r.spec_policy() == default_policy(),
    {
        DatabaseCache { inner: SharedLayer::new(Span::from_secs(1800), EvictionPolicy::default()) }
    }
}

impl DatabaseCache {
    /// The layer's default time-to-live.
    pub closed spec fn spec_default_ttl(&self) -> Span {
        self.inner.spec_default_ttl()
    }

    /// The layer's eviction policy.
    pub closed spec fn spec_policy(&self) -> EvictionPolicy {
        self.inner.spec_policy()
    }

    /// The layer's keys are unique, as the type keeps them at all times;
    /// every call that changes the layer says so of the result.
    pub open spec fn wf(&self) -> bool {
        keys_unique(self@)
    }

    /// Shows a caller handed this layer that its keys are unique; it reads
    /// and changes nothing.
    pub fn unique_keys(&self)
        ensures
            self.wf(),
    {
        self.inner.unique_keys();
    }

    /// An empty layer with the given default time-to-live
    /// and eviction policy.
    pub fn new(default_ttl: Span, policy: EvictionPolicy) -> (r: Self)
        ensures
            r.wf(),
            r@ == Seq::<StoredView>::empty(),
            r.spec_default_ttl() == default_ttl,
            r.spec_policy() == policy,
    {
        DatabaseCache { inner: SharedLayer::new(default_ttl, policy) }
    }

    /// The layer's default time-to-live.
    pub fn default_ttl(&self) -> (r: Span)
        ensures
            r == self.spec_default_ttl(),
    {
        self.inner.default_ttl()
    }

    /// The layer itself, for queries that leave it as it is.
    pub fn layer(&self) -> (r: &SharedLayer)
        ensures
            r@ == self@,
            r.spec_policy() == self.spec_policy(),
            r.spec_default_ttl() == self.spec_default_ttl(),
    {
        &self.inner
    }

    /// Whether a read of `key` at `now` would find a live value; the layer
    /// is left as it is.
    pub fn holds_live(&self, key: &str, now: i128) -> (r: bool)
        ensures
            r == layer_get(self@, key@, now).1 is Some,
    {
        self.inner.holds_live(key, now)
    }

    /// Reads `key` at the instant `now` (see [`layer_get`]).
    pub fn get_at(&mut self, key: &str, now: i128) -> (r: Option<String>)
        requires
            get_defined(old(self)@, key@),
        ensures
            final(self).wf(),
            final(self)@ == layer_get(old(self)@, key@, now).0,
            opt_view(r) == layer_get(old(self)@, key@, now).1,
            final(self).spec_default_ttl() == old(self).spec_default_ttl(),
            final(self).spec_policy() == old(self).spec_policy(),
    {
        self.inner.get_at(key, now)
    }

    /// Reads `key` now, by the wall clock.
    pub fn get(&mut self, key: &str) -> (r: Option<String>)
        requires
            get_defined(old(self)@, key@),
        ensures
            final(self).wf(),
            exists|now: i128|
                0 <= now <= MAX_INSTANT_NS && final(self)@ == layer_get(old(self)@, key@, now).0 && opt_view(r)
                    == layer_get(old(self)@, key@, now).1,
            final(self).spec_default_ttl() == old(self).spec_default_ttl(),
            final(self).spec_policy() == old(self).spec_policy(),
    {
        let now = now_nanos();
        self.inner.get_at(key, now)
    }

    /// Stores `value` under `key` at the instant `now` (see [`layer_set`]).
    pub fn set_with_ttl_at(&mut self, key: &str, value: String, ttl: Span, now: i128)
        requires
            set_defined(old(self)@, old(self).spec_policy(), old(self).spec_default_ttl(), ttl),
        ensures
            final(self).wf(),
            final(self)@ == layer_set(
                old(self)@,
                old(self).spec_policy(),
                old(self).spec_default_ttl(),
                key@,
                value@,
                ttl,
                now,
            ),
            final(self).spec_default_ttl() == old(self).spec_default_ttl(),
            final(self).spec_policy() == old(self).spec_policy(),
            old(self)@.len() <= capacity(old(self).spec_policy()) ==> final(self)@.len()
                <= capacity(old(self).spec_policy()),
    {
        self.inner.set_with_ttl_at(key, value, ttl, now)
    }

    /// Stores `value` under `key` now, by the wall clock.
    pub fn set_with_ttl(&mut self, key: &str, value: String, ttl: Span)
        requires
            set_defined(old(self)@, old(self).spec_policy(), old(self).spec_default_ttl(), ttl),
        ensures
            final(self).wf(),
            exists|now: i128|
                0 <= now <= MAX_INSTANT_NS && final(self)@ == layer_set(
                    old(self)@,
                    old(self).spec_policy(),
                    old(self).spec_default_ttl(),
                    key@,
                    value@,
                    ttl,
                    now,
                ),
            final(self).spec_default_ttl() == old(self).spec_default_ttl(),
            final(self).spec_policy() == old(self).spec_policy(),
            old(self)@.len() <= capacity(old(self).spec_policy()) ==> final(self)@.len()
                <= capacity(old(self).spec_policy()),
    {
        let now = now_nanos();
        let ghost payload = value@;
        self.inner.set_with_ttl_at(key, value, ttl, now);
        assert(self@ == layer_set(
            old(self)@,
            old(self).spec_policy(),
            old(self).spec_default_ttl(),
            key@,
            payload,
            ttl,
            now,
        ));
    }

    /// Drops every value whose key `pattern` matches and returns how many
    /// were dropped.
    pub fn delete_pattern(&mut self, pattern: &str) -> (r: usize)
        ensures
            final(self).wf(),
            final(self)@ == not_matching(old(self)@, pattern@),
            r == matching(old(self)@, pattern@).len(),
            final(self).spec_default_ttl() == old(self).spec_default_ttl(),
            final(self).spec_policy() == old(self).spec_policy(),
    {
        self.inner.delete_pattern(pattern)
    }
}

} // verus!
