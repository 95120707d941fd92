//! Visitors of depth-first walks.

pub mod interval_reach_visitor;

pub use self::interval_reach_visitor::{
    union_vec_isets_ordered, union_vec_isets_unordered, IntervalReachVisitor,
};
