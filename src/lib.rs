//! An adaptive replacement cache: a fixed-capacity key-value cache that
//! balances recency against frequency by watching which evicted keys come back.
pub mod arc;
pub mod laws;
pub mod lru;

pub use arc::{ArcCache, ArcCacheIterator, ArcState};
