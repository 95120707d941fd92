//! Transitions.

use vstd::prelude::*;

use crate::{Label, StateId};

verus! {

/// A transition: it consumes `ilabel`, emits `olabel`, costs `weight` and
/// leads to `nextstate`.
#[derive(Clone, Copy, Debug, PartialEq, Eq, Hash)]
pub struct Tr<W> {
    pub ilabel: Label,
    pub olabel: Label,
    pub weight: W,
    pub nextstate: StateId,
}

impl<W> Tr<W> {
    pub fn new(ilabel: Label, olabel: Label, weight: W, nextstate: StateId) -> (tr: Self)
        ensures
            tr == (Tr { ilabel, olabel, weight, nextstate }),
    {
        Tr { ilabel, olabel, weight, nextstate }
    }
}

} // verus!
