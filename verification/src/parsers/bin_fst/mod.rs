//! The binary container format.

pub mod utils_parsing;
pub mod vector_fst;
