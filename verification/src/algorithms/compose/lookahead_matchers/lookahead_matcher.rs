//! What a look-ahead matcher is.

use vstd::prelude::*;

use crate::algorithms::compose::matchers::{MatchType, Matcher};
use crate::error::FstError;
use crate::fst_impls::{FstModel, VectorFst};
use crate::semirings::Semiring;
use crate::tr::Tr;
use crate::{Label, StateId};

verus! {

/// A matcher that can also say, of a state of its transducer and a state of
/// another transducer, whether the two can go on together. Its answer is
/// cautious: "no" means that they certainly cannot, "yes" that they may.
pub trait LookaheadMatcher<'a, W: Semiring + 'a>: Matcher<'a, W> {
    /// What the matcher prepares once for all its answers.
    type MatcherData;

    /// Why a matcher of the transducer `fst` on the side `match_type`
    /// cannot be prepared for looking ahead in `lfst`, if it cannot.
    spec fn init_lookahead_fst_spec(
        fst: FstModel<W>,
        match_type: MatchType,
        lfst: FstModel<W>,
    ) -> Option<FstError>;

    /// Whether the state `matcher_state` of the transducer `fst`, matched on
    /// the side `match_type`, may go on together with the state `s` of
    /// `lfst`.
    spec fn lookahead_fst_spec(
        fst: FstModel<W>,
        match_type: MatchType,
        matcher_state: StateId,
        lfst: FstModel<W>,
        s: StateId,
    ) -> bool;

    /// Whether the state `state` of the transducer `fst`, matched on the
    /// side `match_type`, may go on with `label`.
    spec fn lookahead_label_spec(
        fst: FstModel<W>,
        match_type: MatchType,
        state: StateId,
        label: Label,
    ) -> bool;

    /// The weight that the last look-ahead found.
    spec fn lookahead_weight_spec(&self) -> W;

    /// The transition that the last look-ahead found as the only way on.
    spec fn prefix_arc_spec(&self) -> Tr<W>;

    /// What the matcher has prepared.
    spec fn data_spec(&self) -> Option<Self::MatcherData>;

    /// What is prepared for a matcher of `fst` on the side `match_type`.
    spec fn create_data_spec(fst: FstModel<W>, match_type: MatchType) -> Result<
        Option<Self::MatcherData>,
        FstError,
    >;

    fn data(&self) -> (d: Option<&Self::MatcherData>)
        requires
            self.inv(),
        ensures
            d is Some <==> self.data_spec() is Some,
            d matches Some(data) ==> *data == self.data_spec()->Some_0,
    ;

    fn new_with_data(
        fst: &'a VectorFst<W>,
        match_type: MatchType,
        data: Option<Self::MatcherData>,
    ) -> (r: Result<Self, FstError>)
        requires
            fst.wf(),
        ensures
            match Self::new_spec(fst@, match_type) {
                None => r is Ok && r->Ok_0.inv() && r->Ok_0.fst_spec() == fst@
                    && r->Ok_0.match_type_spec() == match_type,
                Some(e) => r is Err && r->Err_0 == e,
            },
    ;

    fn create_data(fst: &VectorFst<W>, match_type: MatchType) -> (r: Result<
        Option<Self::MatcherData>,
        FstError,
    >)
        requires
            fst.wf(),
        ensures
            r == Self::create_data_spec(fst@, match_type),
    ;

    /// Prepares the matcher for looking ahead in `lfst`.
    fn init_lookahead_fst(&mut self, lfst: &VectorFst<W>) -> (r: Result<(), FstError>)
        requires
            old(self).inv(),
            lfst.wf(),
        ensures
            final(self).inv(),
            final(self).fst_spec() == old(self).fst_spec(),
            final(self).match_type_spec() == old(self).match_type_spec(),
            match Self::init_lookahead_fst_spec(
                old(self).fst_spec(),
                old(self).match_type_spec(),
                lfst@,
            ) {
                None => r is Ok,
                Some(e) => r is Err && r->Err_0 == e,
            },
    ;

    /// Whether the state `matcher_state` of the matcher's transducer may go
    /// on together with the state `s` of `lfst`.
    fn lookahead_fst(&self, matcher_state: StateId, lfst: &VectorFst<W>, s: StateId) -> (r: Result<
        bool,
        FstError,
    >)
        requires
            self.inv(),
            lfst.wf(),
        ensures
            self.fst_spec().has_state(matcher_state) && lfst@.has_state(s) ==> r is Ok,
            r matches Ok(b) ==> b == Self::lookahead_fst_spec(
                self.fst_spec(),
                self.match_type_spec(),
                matcher_state,
                lfst@,
                s,
            ),
    ;

    /// Whether the state `state` may go on with `label`.
    fn lookahead_label(&self, state: StateId, label: Label) -> (r: Result<bool, FstError>)
        requires
            self.inv(),
        ensures
            self.fst_spec().has_state(state) ==> r is Ok,
            r matches Ok(b) ==> b == Self::lookahead_label_spec(
                self.fst_spec(),
                self.match_type_spec(),
                state,
                label,
            ),
    ;

    /// Whether the last look-ahead found a single transition as the only
    /// way on; it is then copied to `tr`.
    fn lookahead_prefix(&self, tr: &mut Tr<W>) -> (b: bool)
        requires
            self.inv(),
        ensures
            b ==> *final(tr) == self.prefix_arc_spec(),
            !b ==> *final(tr) == *old(tr),
    ;

    fn lookahead_weight(&self) -> (w: &W)
        requires
            self.inv(),
        ensures
            *w == self.lookahead_weight_spec(),
    ;

    fn prefix_arc(&self) -> (tr: &Tr<W>)
        requires
            self.inv(),
        ensures
            *tr == self.prefix_arc_spec(),
    ;
}

} // verus!
