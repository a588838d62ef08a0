//! An in-process, three-tier key/value cache with time-to-live expiry,
//! pluggable eviction strategies, wildcard invalidation and peer
//! coordination, verified with Verus; and the reading of the API's rate
//! limit settings.

pub mod cache;
pub mod clock;
pub mod middleware;
pub mod text;
