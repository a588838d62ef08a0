use vstd::prelude::*;

verus! {

/// The earliest instant a chrono `DateTime<Utc>` holds
/// (-262143-01-01T00:00:00Z), in nanoseconds since the Unix epoch.
pub const MIN_INSTANT_NS: i128 = -8_334_601_315_200_000_000_000;

/// The latest instant a chrono `DateTime<Utc>` holds
/// (262142-12-31T23:59:59.999999999Z), in nanoseconds since the Unix epoch.
pub const MAX_INSTANT_NS: i128 = 8_210_266_876_799_999_999_999;

/// Nanoseconds in a second.
pub const NANOS_PER_SEC: i128 = 1_000_000_000;

/// The whole seconds of the longest chrono `TimeDelta` (`i64::MAX`
/// milliseconds).
pub const TIMEDELTA_MAX_SECS: u64 = 9_223_372_036_854_775;

/// The nanoseconds past `TIMEDELTA_MAX_SECS` of the longest chrono
/// `TimeDelta`.
pub const TIMEDELTA_MAX_SUBSEC_NANOS: u32 = 807_000_000;

/// `t` nanoseconds after the epoch is an instant chrono can hold; chrono
/// panics on `DateTime` arithmetic whose result is not.
pub open spec fn is_instant(t: int) -> bool {
    MIN_INSTANT_NS <= t <= MAX_INSTANT_NS
}

/// A span of time as `std::time::Duration` holds it: whole seconds and the
/// nanoseconds past them.
#[derive(Debug, Clone, Copy, PartialEq, Eq, Structural)]
pub struct Span {
    pub secs: u64,
    pub nanos: u32,
}

/// The length of a span in nanoseconds.
pub open spec fn span_nanos(d: Span) -> int {
    d.secs * NANOS_PER_SEC + d.nanos
}

/// A span converts to a chrono `TimeDelta` (`TimeDelta::from_std`): its
/// nanoseconds lie below one second and it is at most `i64::MAX`
/// milliseconds long.
pub open spec fn fits_timedelta(d: Span) -> bool {
    &&& d.nanos < NANOS_PER_SEC
    &&& (d.secs < TIMEDELTA_MAX_SECS || (d.secs == TIMEDELTA_MAX_SECS && d.nanos
        <= TIMEDELTA_MAX_SUBSEC_NANOS))
}

/// `secs` cast to `i64` (wrapping, as `as` does).
pub open spec fn wrapped_secs(secs: u64) -> int {
    if secs <= i64::MAX {
        secs as int
    } else {
        secs - 0x1_0000_0000_0000_0000
    }
}

/// `TimeDelta::seconds(secs)` does not panic: `secs` lies within the
/// whole seconds a `TimeDelta` holds.
pub open spec fn seconds_fit(secs: int) -> bool {
    -(TIMEDELTA_MAX_SECS as int) <= secs <= TIMEDELTA_MAX_SECS
}

impl Span {
    /// The span of `secs` whole seconds.
    pub open spec fn from_secs_spec(secs: u64) -> Span {
        Span { secs, nanos: 0 }
    }

    /// A span of `secs` seconds and `nanos` nanoseconds.
    pub fn new(secs: u64, nanos: u32) -> (r: Span)
        requires
            nanos < NANOS_PER_SEC,
        ensures
            r.secs == secs,
            r.nanos == nanos,
    {
        Span { secs, nanos }
    }

    /// A span of whole seconds.
    pub fn from_secs(secs: u64) -> (r: Span)
        ensures
            r == Span::from_secs_spec(secs),
    {
        Span { secs, nanos: 0 }
    }
}

/// Whether `d` converts to a chrono `TimeDelta` (see [`fits_timedelta`]).
pub fn timedelta_fits(d: Span) -> (r: bool)
    ensures
        r == fits_timedelta(d),
{
    (d.nanos as i128) < NANOS_PER_SEC && (d.secs < TIMEDELTA_MAX_SECS || (d.secs
        == TIMEDELTA_MAX_SECS && d.nanos <= TIMEDELTA_MAX_SUBSEC_NANOS))
}

/// `secs` cast to `i64` as `as` does, widened to `i128`.
pub fn wrap_secs(secs: u64) -> (r: i128)
    ensures
        r == wrapped_secs(secs),
{
    if secs <= i64::MAX as u64 {
        secs as i128
    } else {
        secs as i128 - 0x1_0000_0000_0000_0000
    }
}

/// Whether `a + b < c`, without overflow.
pub fn sum_lt(a: i128, b: i128, c: i128) -> (r: bool)
    ensures
        r == (a + b < c),
{
    match a.checked_add(b) {
        Some(s) => s < c,
        None => b < 0,
    }
}

/// Whether `a < c - d`, without overflow.
pub fn lt_diff(a: i128, c: i128, d: i128) -> (r: bool)
    ensures
        r == (a < c - d),
{
    sum_lt(a, d, c)
}

/// Whether `a + b` is an instant chrono can hold.
pub fn sum_is_instant(a: i128, b: i128) -> (r: bool)
    ensures
        r == is_instant(a + b),
{
    match a.checked_add(b) {
        Some(s) => MIN_INSTANT_NS <= s && s <= MAX_INSTANT_NS,
        None => false,
    }
}

/// Whether `c - d` is an instant chrono can hold.
pub fn diff_is_instant(c: i128, d: i128) -> (r: bool)
    ensures
        r == is_instant(c - d),
{
    match c.checked_sub(d) {
        Some(s) => MIN_INSTANT_NS <= s && s <= MAX_INSTANT_NS,
        None => false,
    }
}

/// Reads the wall clock through `chrono::Utc::now` and returns the current
/// instant as its whole seconds since the Unix epoch
/// (`DateTime::timestamp`) and the nanoseconds past them
/// (`DateTime::timestamp_subsec_nanos`).
///
/// Trusted: the reading depends on the machine, so nothing ties it to a
/// particular value. chrono's `Utc::now` panics when the system clock is
/// before the epoch, and builds its result with
/// `DateTime::from_timestamp(..).unwrap()` from the system clock's seconds
/// and sub-second nanoseconds, so every reading that comes back is at or
/// after the epoch, has fewer than a second of nanoseconds, and is an
/// instant chrono can hold.
#[verifier::external_body]
fn clock_reading() -> (r: (i64, u32))
    ensures
        0 <= r.0,
        r.1 < NANOS_PER_SEC,
        r.0 * NANOS_PER_SEC + r.1 <= MAX_INSTANT_NS,
{
    let now = chrono::Utc::now();
    (now.timestamp(), now.timestamp_subsec_nanos())
}

/// The current instant by the wall clock, in nanoseconds since the Unix
/// epoch.
pub(crate) fn now_nanos() -> (t: i128)
    ensures
        0 <= t <= MAX_INSTANT_NS,
{
    let (secs, nanos) = clock_reading();
    (secs as i128) * NANOS_PER_SEC + (nanos as i128)
}

} // verus!
