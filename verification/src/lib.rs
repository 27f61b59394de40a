//! Exchange-rate snapshots, their cache and pairwise conversion through an anchor currency.
pub mod cache;
pub mod currency_api;
pub mod currency_convert;
pub mod rates;
pub mod status;
pub mod table;
pub mod text;
