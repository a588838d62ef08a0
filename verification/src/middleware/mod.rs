pub mod limiter_config;
pub mod rate_limiter;
