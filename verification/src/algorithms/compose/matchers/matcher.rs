//! What a matcher is.

use vstd::prelude::*;

use crate::error::FstError;
use crate::fst_impls::{FstModel, VectorFst};
use crate::semirings::Semiring;
use crate::tr::Tr;
use crate::{Label, StateId, NO_LABEL};

verus! {

/// The side of the transitions on which a matcher looks labels up.
#[derive(Clone, Copy, Debug, PartialEq, Eq, Structural, Hash)]
pub enum MatchType {
    /// Match input label.
    MatchInput,
    /// Match output label.
    MatchOutput,
    /// Match input or output label.
    MatchBoth,
    /// Match anything.
    MatchNone,
    /// Otherwise, match unknown.
    MatchUnknown,
}

/// The matcher can look ahead when it matches input labels.
pub const INPUT_LOOKAHEAD_MATCHER: u32 = 0x10;

/// The matcher can look ahead when it matches output labels.
pub const OUTPUT_LOOKAHEAD_MATCHER: u32 = 0x20;

/// The look-ahead is asked for transitions with a label that is not the
/// empty string.
pub const LOOKAHEAD_NON_EPSILONS: u32 = 0x100;

/// The look-ahead is asked for transitions with the empty string as label.
pub const LOOKAHEAD_EPSILONS: u32 = 0x200;

/// What a matcher can do, as a set of bits.
#[derive(Clone, Copy, Debug, PartialEq, Eq, Structural, Hash)]
pub struct MatcherFlags {
    pub bits: u32,
}

impl MatcherFlags {
    pub fn empty() -> (f: Self)
        ensures
            f.bits == 0,
    {
        MatcherFlags { bits: 0 }
    }

    pub fn from_bits(bits: u32) -> (f: Self)
        ensures
            f.bits == bits,
    {
        MatcherFlags { bits }
    }

    /// Whether every bit of `bits` is set.
    pub open spec fn contains_spec(self, bits: u32) -> bool {
        self.bits & bits == bits
    }

    pub fn contains(&self, bits: u32) -> (b: bool)
        ensures
            b == self.contains_spec(bits),
    {
        self.bits & bits == bits
    }

    /// The flags with the bits `bits` set as well.
    pub fn with(&self, bits: u32) -> (f: Self)
        ensures
            f.bits == self.bits | bits,
    {
        MatcherFlags { bits: self.bits | bits }
    }
}

/// The label of `tr` on the side that `match_type` names: the input label
/// for `MatchInput`, the output label else.
pub open spec fn matched_label<W>(tr: Tr<W>, match_type: MatchType) -> Label {
    if match_type == MatchType::MatchInput {
        tr.ilabel
    } else {
        tr.olabel
    }
}

/// Whether a request for `label` finds `tr`: a request for `NO_LABEL` finds
/// every transition, a request for the empty string those with the empty
/// string on the matched side, and any other request those with that label.
pub open spec fn tr_matches<W>(tr: Tr<W>, match_type: MatchType, label: Label) -> bool {
    label == NO_LABEL || matched_label(tr, match_type) == label
}

/// Those of `trs` that a request for `label` finds, in their order.
pub open spec fn select_trs<W>(trs: Seq<Tr<W>>, match_type: MatchType, label: Label) -> Seq<Tr<W>>
    decreases trs.len(),
{
    if trs.len() == 0 {
        Seq::empty()
    } else if tr_matches(trs.last(), match_type, label) {
        select_trs(trs.drop_last(), match_type, label).push(trs.last())
    } else {
        select_trs(trs.drop_last(), match_type, label)
    }
}

/// A request finds transitions of the state only, each as often as it is
/// there and no other, in the order of the state.
pub proof fn lemma_select_trs_exact<W>(trs: Seq<Tr<W>>, match_type: MatchType, label: Label)
    ensures
        select_trs(trs, match_type, label).to_multiset() =~= trs.to_multiset().filter(
            |tr: Tr<W>| tr_matches(tr, match_type, label),
        ),
        label == NO_LABEL ==> select_trs(trs, match_type, label) == trs,
    decreases trs.len(),
{
    let f = |tr: Tr<W>| tr_matches(tr, match_type, label);
    if trs.len() == 0 {
        assert(trs.to_multiset() =~= vstd::multiset::Multiset::empty()) by {
            trs.to_multiset_ensures();
        }
        assert(select_trs(trs, match_type,
            label).to_multiset() =~= vstd::multiset::Multiset::empty())
            by {
            select_trs(trs, match_type, label).to_multiset_ensures();
        }
    } else {
        let init = trs.drop_last();
        let last = trs.last();
        lemma_select_trs_exact(init, match_type, label);
        assert(trs =~= init.push(last));
        init.to_multiset_ensures();
        select_trs(init, match_type, label).to_multiset_ensures();
        assert(init.push(last).to_multiset() =~= init.to_multiset().insert(last));
        if label == NO_LABEL {
            assert(select_trs(trs, match_type, label) =~= trs);
        }
    }
}

/// Finds, among the transitions of a state of one transducer, those with a
/// given label on one side.
pub trait Matcher<'a, W: Semiring + 'a>: Sized {
    /// The transducer that the matcher is bound to.
    spec fn fst_spec(&self) -> FstModel<W>;

    /// Why a transducer cannot be matched on the side `match_type`, if it
    /// cannot.
    spec fn new_spec(fst: FstModel<W>, match_type: MatchType) -> Option<FstError>;

    /// The matcher of `fst` on the side `match_type`.
    fn new(fst: &'a VectorFst<W>, match_type: MatchType) -> (r: Result<Self, FstError>)
        requires
            fst.wf(),
        ensures
            match Self::new_spec(fst@, match_type) {
                None => r is Ok && r->Ok_0.inv() && r->Ok_0.fst_spec() == fst@
                    && r->Ok_0.match_type_spec() == match_type,
                Some(e) => r is Err && r->Err_0 == e,
            },
    ;

    /// The side on which the matcher looks labels up.
    spec fn match_type_spec(&self) -> MatchType;

    /// The validity of the matcher.
    spec fn inv(&self) -> bool;

    /// A matcher is bound to a well-formed transducer.
    proof fn lemma_inv(&self)
        requires
            self.inv(),
        ensures
            self.fst_spec().wf(),
    ;

    /// The transitions of `state` that a request for `label` finds.
    fn iter(&self, state: StateId, label: Label) -> (r: Result<Vec<Tr<W>>, FstError>)
        requires
            self.inv(),
        ensures
            self.fst_spec().has_state(state) ==> r is Ok && r->Ok_0@ == select_trs(
                self.fst_spec().states[state as int].trs,
                self.match_type_spec(),
                label,
            ),
            !self.fst_spec().has_state(state) ==> r == Err::<Vec<Tr<W>>, FstError>(
                FstError::InvalidState(state),
            ),
    ;

    /// The final weight of `state` in the transducer.
    fn final_weight(&self, state: StateId) -> (r: Result<Option<W>, FstError>)
        requires
            self.inv(),
        ensures
            self.fst_spec().has_state(state) ==> r == Ok::<Option<W>, FstError>(
                self.fst_spec().states[state as int].final_weight,
            ),
            !self.fst_spec().has_state(state) ==> r == Err::<Option<W>, FstError>(
                FstError::InvalidState(state),
            ),
    ;

    fn match_type(&self) -> (t: MatchType)
        requires
            self.inv(),
        ensures
            t == self.match_type_spec(),
    ;

    /// What matchers of this kind can do.
    spec fn flags_spec() -> MatcherFlags;

    fn flags(&self) -> (f: MatcherFlags)
        requires
            self.inv(),
        ensures
            f == Self::flags_spec(),
    ;

    /// How much work a request at `state` is: the number of its transitions.
    fn priority(&self, state: StateId) -> (r: Result<usize, FstError>)
        requires
            self.inv(),
        ensures
            self.fst_spec().has_state(state) ==> r is Ok && r->Ok_0
                == self.fst_spec().states[state as int].trs.len(),
            !self.fst_spec().has_state(state) ==> r == Err::<usize, FstError>(
                FstError::InvalidState(state),
            ),
    ;

    fn fst(&self) -> (fst: &'a VectorFst<W>)
        requires
            self.inv(),
        ensures
            fst.wf(),
            fst@ == self.fst_spec(),
    ;
}

} // verus!
