//! The look-ahead matcher that never says "no".

use vstd::prelude::*;

use crate::algorithms::compose::lookahead_matchers::lookahead_matcher::LookaheadMatcher;
use crate::algorithms::compose::matchers::{
    MatchType, Matcher, MatcherFlags, INPUT_LOOKAHEAD_MATCHER, OUTPUT_LOOKAHEAD_MATCHER,
};
use crate::error::FstError;
use crate::fst_impls::{FstModel, VectorFst};
use crate::semirings::Semiring;
use crate::tr::Tr;
use crate::{Label, StateId, NO_STATE_ID};

verus! {

/// A matcher `M` dressed as a look-ahead matcher: it matches as `M` does,
/// and to every question about the future it answers "maybe".
pub struct TrivialLookAheadMatcher<W, M> {
    matcher: M,
    lookahead_weight: W,
    prefix_arc: Tr<W>,
}

impl<'a, W: Semiring + 'a, M: Matcher<'a, W>> Matcher<'a, W> for TrivialLookAheadMatcher<W, M> {
    closed spec fn fst_spec(&self) -> FstModel<W> {
        self.matcher.fst_spec()
    }

    open spec fn new_spec(fst: FstModel<W>, match_type: MatchType) -> Option<FstError> {
        M::new_spec(fst, match_type)
    }

    fn new(fst: &'a VectorFst<W>, match_type: MatchType) -> (r: Result<Self, FstError>) {
        Ok(
            Self {
                matcher: M::new(fst, match_type)?,
                prefix_arc: Tr::new(0, 0, W::one(), NO_STATE_ID),
                lookahead_weight: W::one(),
            },
        )
    }

    closed spec fn match_type_spec(&self) -> MatchType {
        self.matcher.match_type_spec()
    }

    closed spec fn inv(&self) -> bool {
        self.matcher.inv()
    }

    proof fn lemma_inv(&self) {
        self.matcher.lemma_inv();
    }

    fn iter(&self, state: StateId, label: Label) -> (r: Result<Vec<Tr<W>>, FstError>) {
        self.matcher.iter(state, label)
    }

    fn final_weight(&self, state: StateId) -> (r: Result<Option<W>, FstError>) {
        self.matcher.final_weight(state)
    }

    fn match_type(&self) -> (t: MatchType) {
        self.matcher.match_type()
    }

    /// What `M` can do, and looking ahead on either side.
    open spec fn flags_spec() -> MatcherFlags {
        MatcherFlags {
            bits: M::flags_spec().bits | INPUT_LOOKAHEAD_MATCHER | OUTPUT_LOOKAHEAD_MATCHER,
        }
    }

    fn flags(&self) -> (f: MatcherFlags) {
        MatcherFlags::from_bits(
            self.matcher.flags().bits | INPUT_LOOKAHEAD_MATCHER | OUTPUT_LOOKAHEAD_MATCHER,
        )
    }

    fn priority(&self, state: StateId) -> (r: Result<usize, FstError>) {
        self.matcher.priority(state)
    }

    fn fst(&self) -> (fst: &'a VectorFst<W>) {
        self.matcher.fst()
    }
}

impl<'a, W: Semiring + 'a, M: Matcher<'a, W>> LookaheadMatcher<'a, W> for TrivialLookAheadMatcher<
    W,
    M,
> {
    type MatcherData = ();

    open spec fn init_lookahead_fst_spec(
        fst: FstModel<W>,
        match_type: MatchType,
        lfst: FstModel<W>,
    ) -> Option<FstError> {
        None
    }

    open spec fn lookahead_fst_spec(
        fst: FstModel<W>,
        match_type: MatchType,
        matcher_state: StateId,
        lfst: FstModel<W>,
        s: StateId,
    ) -> bool {
        true
    }

    open spec fn lookahead_label_spec(
        fst: FstModel<W>,
        match_type: MatchType,
        state: StateId,
        label: Label,
    ) -> bool {
        true
    }

    closed spec fn lookahead_weight_spec(&self) -> W {
        self.lookahead_weight
    }

    closed spec fn prefix_arc_spec(&self) -> Tr<W> {
        self.prefix_arc
    }

    /// Nothing is prepared.
    open spec fn data_spec(&self) -> Option<()> {
        None
    }

    open spec fn create_data_spec(fst: FstModel<W>, match_type: MatchType) -> Result<
        Option<()>,
        FstError,
    > {
        Ok(None)
    }

    fn data(&self) -> (d: Option<&()>) {
        None
    }

    fn new_with_data(fst: &'a VectorFst<W>, match_type: MatchType, _data: Option<()>) -> (r: Result<
        Self,
        FstError,
    >) {
        Self::new(fst, match_type)
    }

    fn create_data(_fst: &VectorFst<W>, _match_type: MatchType) -> (r: Result<
        Option<()>,
        FstError,
    >) {
        Ok(None)
    }

    fn init_lookahead_fst(&mut self, _lfst: &VectorFst<W>) -> (r: Result<(), FstError>) {
        Ok(())
    }

    fn lookahead_fst(&self, _matcher_state: StateId, _lfst: &VectorFst<W>, _s: StateId) -> (r: Result<
        bool,
        FstError,
    >) {
        Ok(true)
    }

    fn lookahead_label(&self, _state: StateId, _label: Label) -> (r: Result<bool, FstError>) {
        Ok(true)
    }

    fn lookahead_prefix(&self, _tr: &mut Tr<W>) -> (b: bool) {
        false
    }

    fn lookahead_weight(&self) -> (w: &W) {
        &self.lookahead_weight
    }

    fn prefix_arc(&self) -> (tr: &Tr<W>) {
        &self.prefix_arc
    }
}

} // verus!
