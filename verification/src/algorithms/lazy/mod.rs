//! Transducers that are computed on demand.

pub mod cache;
pub mod fst_op;
pub mod lazy_fst;

pub use self::cache::{CacheStatus, CachedData, SimpleHashMapCache};
pub use self::fst_op::FstOp;
pub use self::lazy_fst::{is_expansion, LazyFst};
