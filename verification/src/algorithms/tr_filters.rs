//! Predicates that restrict which transitions are traversed.

use vstd::prelude::*;

use crate::semirings::Semiring;
use crate::tr::Tr;
use crate::EPS_LABEL;

verus! {

/// Base trait to restrict which transitions are traversed in an FST.
pub trait TrFilter<S: Semiring> {
    /// Which transitions are kept.
    spec fn keep_spec(&self, tr: Tr<S>) -> bool;

    /// If true, the transition should be kept, else it should be ignored.
    fn keep(&self, tr: &Tr<S>) -> (b: bool)
        ensures
            b == self.keep_spec(*tr),
    ;
}

/// True for all transitions.
#[derive(Clone, Copy, Debug, PartialEq, Eq)]
pub struct AnyTrFilter {}

impl<S: Semiring> TrFilter<S> for AnyTrFilter {
    open spec fn keep_spec(&self, tr: Tr<S>) -> bool {
        true
    }

    fn keep(&self, _tr: &Tr<S>) -> (b: bool) {
        true
    }
}

/// True for transitions with the empty string on both sides.
#[derive(Clone, Copy, Debug, PartialEq, Eq)]
pub struct EpsilonTrFilter {}

impl<S: Semiring> TrFilter<S> for EpsilonTrFilter {
    open spec fn keep_spec(&self, tr: Tr<S>) -> bool {
        tr.ilabel == EPS_LABEL && tr.olabel == EPS_LABEL
    }

    fn keep(&self, tr: &Tr<S>) -> (b: bool) {
        tr.ilabel == EPS_LABEL && tr.olabel == EPS_LABEL
    }
}

/// True for transitions with the empty string as input.
#[derive(Clone, Copy, Debug, PartialEq, Eq)]
pub struct InputEpsilonTrFilter {}

impl<S: Semiring> TrFilter<S> for InputEpsilonTrFilter {
    open spec fn keep_spec(&self, tr: Tr<S>) -> bool {
        tr.ilabel == EPS_LABEL
    }

    fn keep(&self, tr: &Tr<S>) -> (b: bool) {
        tr.ilabel == EPS_LABEL
    }
}

/// True for transitions with the empty string as output.
#[derive(Clone, Copy, Debug, PartialEq, Eq)]
pub struct OutputEpsilonTrFilter {}

impl<S: Semiring> TrFilter<S> for OutputEpsilonTrFilter {
    open spec fn keep_spec(&self, tr: Tr<S>) -> bool {
        tr.olabel == EPS_LABEL
    }

    fn keep(&self, tr: &Tr<S>) -> (b: bool) {
        tr.olabel == EPS_LABEL
    }
}

} // verus!
