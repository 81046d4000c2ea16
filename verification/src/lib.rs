//! Verified core of a portfolio-metrics exporter: an exchange calendar that
//! gates polling, a tolerant parser that turns scraped text fragments into
//! typed numeric metrics, a single-slot cache with a persisted JSON form,
//! and the per-cycle decision rule that keeps the cache valid while
//! acquisition is degraded.

pub mod codec;
pub mod exchange;
pub mod export;
pub mod fields;
pub mod num;
pub mod scheduler;
pub mod store;

