//! Checking the library against results that were computed elsewhere.

pub mod algorithms;
