//! Verified core of a small authentication service: configuration,
//! credential rules, token and user tables, request metrics and rate limiting.

pub mod text;
pub mod errors;
pub mod config;
pub mod metrics;
pub mod clock;
pub mod monitoring;
pub mod storage;
pub mod passwords;
pub mod ids;
pub mod jwt;
pub mod auth;
