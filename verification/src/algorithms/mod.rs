//! Algorithms on transducers.

pub mod compose;
pub mod connect;
pub mod dfs_visit;
pub mod lazy;
pub mod queues;
pub mod reverse;
pub mod state_sort;
pub mod tr_filters;
pub mod union;
pub mod visitors;
pub mod weight_convert;

pub use self::tr_filters::{
    AnyTrFilter, EpsilonTrFilter, InputEpsilonTrFilter, OutputEpsilonTrFilter, TrFilter,
};
pub use self::connect::connect;
pub use self::reverse::reverse;
pub use self::state_sort::{check_permutation, state_sort};
pub use self::weight_convert::{
    apply_final_action, weight_convert, FinalArc, MapFinalAction, SimpleWeightConverter,
        WeightConverter,
};
