//! Composition of transducers.

pub mod accepted;
pub mod alt_sequenced_paths;
pub mod candidates;
pub mod compose;
pub mod compose_filters;
pub mod compose_fst;
pub mod compose_fst_op;
pub mod filter_states;
pub mod joint_moves;
pub mod lookahead_filters;
pub mod lookahead_matchers;
pub mod matched_paths;
pub mod matchers;
pub mod paths;
pub mod sequenced_paths;
pub mod state_table;
