//! Views of a transducer.

pub mod acyclic;
pub mod fst;
pub mod paths;
pub mod paths_iterator;

pub use self::fst::{CoreFst, MutableFst};
pub use self::paths_iterator::{PathsIterator, StructPathsIterator};
