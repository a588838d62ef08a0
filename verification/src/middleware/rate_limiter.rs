use vstd::prelude::*;

use crate::middleware::limiter_config::{
    config_buildable, governor_config, RateLimiterConfig, NANOS_PER_SEC,
};
use crate::text::chars_of;

verus! {

/// Requests allowed per second when the setting is absent or unreadable.
pub const DEFAULT_PER_SECOND: u64 = 10;

/// Burst size when the setting is absent or unreadable.
pub const DEFAULT_BURST_SIZE: u32 = 20;

/// `c` is an ASCII decimal digit.
pub open spec fn is_digit(c: char) -> bool {
    '0' <= c <= '9'
}

/// The value of a string of decimal digits.
pub open spec fn digits_value(s: Seq<char>) -> int
    decreases s.len(),
{
    if s.len() == 0 {
        0
    } else {
        digits_value(s.drop_last()) * 10 + (s.last() as int - '0' as int)
    }
}

/// The digits of an unsigned number: the text after a leading `'+'`, if
/// there is one.
pub open spec fn unsigned_digits(s: Seq<char>) -> Seq<char> {
    if s.len() > 0 && s[0] == '+' {
        s.drop_first()
    } else {
        s
    }
}

/// The unsigned number no larger than `max` that `s` spells, as Rust's
/// `str::parse` reads one: an optional `'+'`, then one or more decimal
/// digits and nothing else.
pub open spec fn spells_unsigned(s: Seq<char>, max: int) -> Option<int> {
    let d = unsigned_digits(s);
    if d.len() > 0 && (forall|i: int| 0 <= i < d.len() ==> is_digit(#[trigger] d[i]))
        && digits_value(d) <= max {
        Some(digits_value(d))
    } else {
        None
    }
}

/// A setting read from optional text: the number it spells, or `default`
/// when it is absent or spells none.
pub open spec fn setting_value(raw: Option<String>, max: int, default: int) -> int {
    match raw {
        Some(s) => match spells_unsigned(s@, max) {
            Some(v) => v,
            None => default,
        },
        None => default,
    }
}

/// Adding digits never lowers a value.
pub proof fn lemma_digits_value_grows(s: Seq<char>, n: int)
    requires
        0 <= n <= s.len(),
        forall|i: int| 0 <= i < s.len() ==> is_digit(#[trigger] s[i]),
    ensures
        0 <= digits_value(s.take(n)) <= digits_value(s),
    decreases s.len() - n,
{
    if n < s.len() {
        lemma_digits_value_grows(s, n + 1);
        assert(s.take(n + 1).drop_last() =~= s.take(n));
        assert(is_digit(s[n]));
    } else {
        assert(s.take(n) =~= s);
    }
    if s.len() > 0 {
        lemma_digits_value_nonnegative(s);
    }
}

/// A string of digits has a value of at least zero.
pub proof fn lemma_digits_value_nonnegative(s: Seq<char>)
    requires
        forall|i: int| 0 <= i < s.len() ==> is_digit(#[trigger] s[i]),
    ensures
        0 <= digits_value(s),
    decreases s.len(),
{
    if s.len() > 0 {
        assert(is_digit(s[s.len() - 1]));
        lemma_digits_value_nonnegative(s.drop_last());
    }
}

/// Reads an unsigned number no larger than `max` from `s` the way Rust's
/// `str::parse` does.
pub fn parse_unsigned(s: &str, max: u64) -> (r: Option<u64>)
    ensures
        match spells_unsigned(s@, max as int) {
            Some(v) => 0 <= v <= max && r == Some(v as u64),
            None => r is None,
        },
{
    let c = chars_of(s);
    let start: usize = if c.len() > 0 && c[0] == '+' {
        1
    } else {
        0
    };
    let ghost d = unsigned_digits(s@);
    assert(d =~= c@.subrange(start as int, c@.len() as int));
    if start == c.len() {
        return None;
    }
    let mut value: u128 = 0;
    let mut i: usize = start;
    while i < c.len()
        invariant
            start <= i <= c.len(),
            start < c.len(),
            c@ == s@,
            d == unsigned_digits(s@),
            d =~= c@.subrange(start as int, c@.len() as int),
            forall|j: int| 0 <= j < i - start ==> is_digit(#[trigger] d[j]),
            value == digits_value(d.take(i - start)),
            value <= max,
        decreases c.len() - i,
    {
        let ch = c[i];
        if !('0' <= ch && ch <= '9') {
            assert(!is_digit(d[i - start]));
            return None;
        }
        let digit = (ch as u32 - '0' as u32) as u128;
        let ghost k = i - start;
        assert(d.take(k + 1).drop_last() =~= d.take(k));
        assert(d.take(k + 1).last() == d[k]);
        value = value * 10 + digit;
        i = i + 1;
        if value > max as u128 {
            proof {
                if forall|j: int| 0 <= j < d.len() ==> is_digit(#[trigger] d[j]) {
                    lemma_digits_value_grows(d, k + 1);
                }
            }
            return None;
        }
    }
    assert(d.take(d.len() as int) =~= d);
    proof {
        lemma_digits_value_nonnegative(d);
    }
    Some(value as u64)
}

/// The rate limit: the interval, in seconds, after which one request of
/// the quota is replenished, and the burst size.
#[derive(Debug, Clone, Copy)]
pub struct RateLimitSettings {
    pub per_second: u64,
    pub burst_size: u32,
}

/// The rate limit from the optional texts of its two settings; each one
/// falls back to its default (ten per second, bursts of twenty) when it is
/// absent or is not a number of its type.
pub fn rate_limit_settings(per_second: Option<String>, burst_size: Option<String>) -> (r:
    RateLimitSettings)
    ensures
        r.per_second == setting_value(per_second, u64::MAX as int, DEFAULT_PER_SECOND as int),
        r.burst_size == setting_value(burst_size, u32::MAX as int, DEFAULT_BURST_SIZE as int),
{
    let per_second_value = match &per_second {
        Some(text) => {
            let t: &str = text.as_str();
            let parsed = parse_unsigned(t, u64::MAX);
            assert(t@ == text@);
            match parsed {
                Some(v) => v,
                None => DEFAULT_PER_SECOND,
            }
        },
        None => DEFAULT_PER_SECOND,
    };
    let burst_value = match &burst_size {
        Some(text) => {
            let t: &str = text.as_str();
            let parsed = parse_unsigned(t, u32::MAX as u64);
            assert(t@ == text@);
            match parsed {
                Some(v) => v as u32,
                None => DEFAULT_BURST_SIZE,
            }
        },
        None => DEFAULT_BURST_SIZE,
    };
    RateLimitSettings { per_second: per_second_value, burst_size: burst_value }
}

/// The per-IP rate limiter's configuration from the optional texts of its
/// two settings (see [`rate_limit_settings`]): `None` when no configuration
/// can be built from them (see [`config_buildable`]).
pub fn build_rate_limiter(per_second: Option<String>, burst_size: Option<String>) -> (r: Option<
    RateLimiterConfig,
>)
    ensures
        r is Some <==> config_buildable(
            setting_value(per_second, u64::MAX as int, DEFAULT_PER_SECOND as int),
            setting_value(burst_size, u32::MAX as int, DEFAULT_BURST_SIZE as int),
        ),
        r matches Some(c) ==> c.built_per_second() == setting_value(
            per_second,
            u64::MAX as int,
            DEFAULT_PER_SECOND as int,
        ) && c.built_burst_size() == setting_value(
            burst_size,
            u32::MAX as int,
            DEFAULT_BURST_SIZE as int,
        ),
{
    let settings = rate_limit_settings(per_second, burst_size);
    if settings.per_second == 0 || settings.burst_size == 0 {
        return None;
    }
    let p = settings.per_second;
    let n = settings.burst_size;
    let per_second_nanos = match p.checked_mul(NANOS_PER_SEC) {
        Some(x) => x,
        None => {
            assert(p * n * NANOS_PER_SEC > u64::MAX) by (nonlinear_arith)
                requires
                    p * NANOS_PER_SEC > u64::MAX,
                    n >= 1,
            ;
            return None;
        },
    };
    assert(p * n * NANOS_PER_SEC == per_second_nanos * n) by (nonlinear_arith)
        requires
            per_second_nanos == p * NANOS_PER_SEC,
    ;
    match per_second_nanos.checked_mul(n as u64) {
        Some(_) => governor_config(p, n),
        None => None,
    }
}

} // verus!
