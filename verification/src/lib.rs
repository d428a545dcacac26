//! Watchlist market-data engine: freshness-window caching of provider quotes
//! and performance series, provider failure classification, stale-cache
//! fallback, and cache/watchlist pruning.

pub mod codec;
pub mod domain;
pub mod errors;
pub mod json;
pub mod models;
pub mod numbers;
pub mod provider;
pub mod quote_cache;
pub mod sync;
pub mod text;
pub mod timeseries_cache;
pub mod watchlist;
