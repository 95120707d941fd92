//! What a lazy transducer remembers of what it has computed.

pub mod cache_internal_types;
pub mod simple_hash_map_cache;

pub use self::cache_internal_types::{CacheStatus, CachedData, FinalWeight, StartState};
pub use self::simple_hash_map_cache::{CacheModel, SimpleHashMapCache};
