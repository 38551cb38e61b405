//! A price and data oracle: answers come from an exchange-rate service or are
//! aggregated from declared web sources, charged to the feed's owner, cached,
//! and optionally signed.

pub mod address;
pub mod aggregate;
pub mod balances;
pub mod exchange_rate;
pub mod feeds;
pub mod http_cache;
pub mod keyed;
pub mod number;
pub mod rate_cache;
pub mod rate_data;
pub mod router;
pub mod signatures;
pub mod source;
pub mod state;
pub mod whitelist;
