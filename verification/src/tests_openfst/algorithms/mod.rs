//! The checks, one file for each algorithm.

pub mod compose;
pub mod shortest_path;
