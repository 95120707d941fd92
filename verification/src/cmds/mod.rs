//! The algorithms that take one transducer and give one, as a command
//! offers them.

pub mod connect;
pub mod reverse;
pub mod unary_fst_algorithm;

pub use self::connect::ConnectAlgorithm;
pub use self::reverse::ReverseAlgorithm;
pub use self::unary_fst_algorithm::UnaryFstAlgorithm;
