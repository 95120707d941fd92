//! Filters that ask a look-ahead matcher whether a pair has a future.

pub mod lookahead_compose_filter;
pub mod lookahead_selector;

pub use self::lookahead_compose_filter::{
    lookahead_match_type, LookAheadComposeFilter, LookAheadComposeFilterTrait,
};
pub use self::lookahead_selector::{
    selector, MatchTypeTrait, SMatchBoth, SMatchInput, SMatchNone, SMatchOutput, SMatchUnknown,
    Selector,
};
