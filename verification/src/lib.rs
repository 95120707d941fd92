//! Weighted finite-state transducers: in-memory representation, algebraic
//! weights, the binary container format and composition.

use vstd::prelude::*;

pub mod algorithms;
pub mod cmds;
pub mod error;
pub mod fst_impls;
pub mod fst_path;
pub mod fst_traits;
pub mod fst_properties;
pub mod parsers;
pub mod semirings;
pub mod tests_openfst;
pub mod tr;
pub mod utils;

verus! {

/// An arc label. `EPS_LABEL` stands for the empty string.
pub type Label = usize;

/// A state of a transducer, counted from zero.
pub type StateId = usize;

/// The label of the empty string.
pub const EPS_LABEL: Label = 0;

/// Sentinel used where a label is absent.
pub const NO_LABEL: Label = usize::MAX;

/// The label, on the matched side, of the transition that stands for "this
/// transducer stays where it is" while the other one moves on the empty
/// string.
pub const LOOP_LABEL: Label = NO_LABEL - 1;

/// Sentinel used where a state is absent.
pub const NO_STATE_ID: StateId = usize::MAX;

} // verus!
