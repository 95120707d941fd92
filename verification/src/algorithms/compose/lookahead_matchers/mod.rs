//! Matchers that can tell whether a match has a future.

pub mod interval_set;
pub mod lookahead_matcher;
pub mod trivial_lookahead_matcher;

pub use self::interval_set::{IntInterval, IntervalSet};
pub use self::lookahead_matcher::LookaheadMatcher;
pub use self::trivial_lookahead_matcher::TrivialLookAheadMatcher;
