//! The recency cache under its own name, for callers that want no other
//! policy.

pub use crate::strategy::lru::LRUCache;
