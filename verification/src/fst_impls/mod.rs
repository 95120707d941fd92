//! Concrete transducers.

pub mod vector_fst;

pub use self::vector_fst::{FstModel, StateModel, VectorFst, VectorFstState};
