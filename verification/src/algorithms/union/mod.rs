//! The union of two transducers.

pub mod union_fst;

pub use self::union_fst::{union_properties, UnionFst, UnionFstOp};
