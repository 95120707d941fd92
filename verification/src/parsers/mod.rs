//! Reading and writing transducers.

pub mod bin_fst;
