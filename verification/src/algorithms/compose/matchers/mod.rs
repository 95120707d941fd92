//! Finding the transitions of a state by the label on one side.

pub mod matcher;
pub mod sorted_matcher;

pub use self::matcher::{
    matched_label, select_trs, tr_matches, MatchType, Matcher, MatcherFlags,
    INPUT_LOOKAHEAD_MATCHER, LOOKAHEAD_EPSILONS, LOOKAHEAD_NON_EPSILONS,
    OUTPUT_LOOKAHEAD_MATCHER,
};
pub use self::sorted_matcher::SortedMatcher;
