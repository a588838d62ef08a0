use vstd::prelude::*;

use governor::middleware::NoOpMiddleware;
use tower_governor::governor::{GovernorConfig, GovernorConfigBuilder};
use tower_governor::key_extractor::PeerIpKeyExtractor;

verus! {

/// Nanoseconds in a second, as governor counts a quota's burst capacity.
pub const NANOS_PER_SEC: u64 = 1_000_000_000;

/// A configuration can be built for a per-IP governor that replenishes one
/// request every `per_second` seconds and allows bursts of `burst_size`:
/// both are non-zero, and the burst capacity, `per_second * burst_size`
/// seconds, fits in a `u64` count of nanoseconds (governor panics on a
/// longer one).
pub open spec fn config_buildable(per_second: int, burst_size: int) -> bool {
    &&& per_second != 0
    &&& burst_size != 0
    &&& per_second * burst_size * NANOS_PER_SEC <= u64::MAX
}

/// A tower_governor configuration for a per-IP rate limiter, as
/// `GovernorConfigBuilder::finish` returns it.
#[verifier::external_body]
pub struct GovernorSettings {
    pub config: GovernorConfig<PeerIpKeyExtractor, NoOpMiddleware>,
}

/// A built governor configuration with the settings it was built from.
/// Only [`governor_config`] makes one, so the settings it reports are those
/// the configuration inside was built from.
pub struct RateLimiterConfig {
    per_second: u64,
    burst_size: u32,
    governor: GovernorSettings,
}

impl RateLimiterConfig {
    /// The interval, in seconds, the configuration was built with.
    pub closed spec fn built_per_second(&self) -> u64 {
        self.per_second
    }

    /// The burst size the configuration was built with.
    pub closed spec fn built_burst_size(&self) -> u32 {
        self.burst_size
    }

    /// The interval, in seconds, the configuration was built with.
    pub fn per_second(&self) -> (r: u64)
        ensures
            r == self.built_per_second(),
    {
        self.per_second
    }

    /// The burst size the configuration was built with.
    pub fn burst_size(&self) -> (r: u32)
        ensures
            r == self.built_burst_size(),
    {
        self.burst_size
    }

    /// The tower_governor configuration itself.
    pub fn into_governor(self) -> GovernorSettings {
        self.governor
    }
}

/// Builds the configuration with tower_governor's
/// `GovernorConfigBuilder::default()`, `per_second`, `burst_size` and
/// `finish`, and records the two settings beside it.
///
/// Trusted: `finish` returns a configuration exactly when the burst size
/// and the interval are both non-zero, built from these two values; with
/// both non-zero it builds a governor quota whose burst capacity, the
/// interval times the burst size, governor converts to a `u64` count of
/// nanoseconds and panics when it does not fit, so `requires` leaves those
/// inputs out. The configuration inside is opaque: what it holds is stated
/// only through the two settings it was built from.
#[verifier::external_body]
pub(crate) fn governor_config(per_second: u64, burst_size: u32) -> (r: Option<RateLimiterConfig>)
    requires
        per_second * burst_size * NANOS_PER_SEC <= u64::MAX,
    ensures
        r is Some <==> (per_second != 0 && burst_size != 0),
        r matches Some(c) ==> c.built_per_second() == per_second && c.built_burst_size()
            == burst_size,
{
    match GovernorConfigBuilder::default().per_second(per_second).burst_size(burst_size).finish() {
        Some(config) => Some(
            RateLimiterConfig { per_second, burst_size, governor: GovernorSettings { config } },
        ),
        None => None,
    }
}

} // verus!
