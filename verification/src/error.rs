//! The errors that the library reports.

use vstd::prelude::*;

use crate::{Label, StateId};

verus! {

/// What went wrong in a fallible operation.
#[derive(Clone, Copy, Debug, PartialEq, Eq, Structural, Hash)]
pub enum FstError {
    /// A state outside `[0, num_states)` was named.
    InvalidState(StateId),
    /// The operation needs a start state and the transducer has none.
    NoStart,
    /// A label equals a sentinel where that is forbidden, or cannot be
    /// represented.
    LabelOutOfRange(Label),
    /// The match types of the two matchers leave no side to look ahead on.
    IncompatibleMatchType,
    /// The bytes are not a transducer in the binary container format.
    Format,
    /// The container's version is older than the oldest one supported.
    UnsupportedVersion,
    /// The bytes end before the container does.
    Truncated,
    /// The semiring has no division where one is needed.
    WeightNotDivisible,
    /// A property that the operation relies on does not hold of its input.
    PropertyViolation,
}

} // verus!
