//! A bounded in-memory key/value cache with per-entry time-to-live and a
//! choice of eviction policy: least recently used, first in first out, or
//! least frequently used.
//!
//! Every engine is a plain state machine over an explicit clock reading, so
//! each operation has an exact contract; the clock-reading entry points are
//! thin layers on top of the timed ones.

pub mod cleaner;
pub mod clock;
pub mod entry;
pub mod keyseq;
pub mod lru_cache;
pub mod rustycache;
pub mod strategy;
