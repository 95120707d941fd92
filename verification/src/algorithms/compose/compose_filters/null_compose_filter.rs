//! The filter that keeps the pairs that match on a symbol.

use vstd::prelude::*;

use crate::algorithms::compose::compose_filters::compose_filter::{
    bound_to, is_symbol, label_is_symbol, make_matchers, matchers_spec, ComposeFilter, MatcherModel,
};
use crate::algorithms::compose::filter_states::{FilterState, TrivialFilterState};
use crate::algorithms::compose::matchers::Matcher;
use crate::algorithms::compose::state_table::StateTuple;
use crate::error::FstError;
use crate::fst_impls::{FstModel, VectorFst};
use crate::semirings::Semiring;
use crate::tr::Tr;
use crate::{StateId};

verus! {

/// The filter that keeps a pair only where the first transition emits the
/// symbol that the second consumes. It is meant for transducers without
/// moves on the empty string.
pub struct NullComposeFilter<M1, M2> {
    matcher1: M1,
    matcher2: M2,
    s1: StateId,
    s2: StateId,
    fs: TrivialFilterState,
    ready: bool,
}

impl<'a, W: Semiring + 'a, M1: Matcher<'a, W>, M2: Matcher<'a, W>> ComposeFilter<'a, W> for NullComposeFilter<
    M1,
    M2,
> {
    type M1 = M1;

    type M2 = M2;

    type FS = TrivialFilterState;

    closed spec fn inv(&self) -> bool {
        &&& self.matcher1.inv()
        &&& self.matcher2.inv()
        &&& self.ready ==> self.matcher1.fst_spec().has_state(self.s1)
            && self.matcher2.fst_spec().has_state(self.s2)
    }

    closed spec fn matcher1_spec(&self) -> M1 {
        self.matcher1
    }

    closed spec fn matcher2_spec(&self) -> M2 {
        self.matcher2
    }

    closed spec fn ready(&self) -> bool {
        self.ready
    }

    closed spec fn at(&self) -> StateTuple<TrivialFilterState> {
        StateTuple { s1: self.s1, s2: self.s2, fs: self.fs }
    }

    open spec fn new_spec(
        fst1: FstModel<W>,
        fst2: FstModel<W>,
        m1: Option<MatcherModel<W>>,
        m2: Option<MatcherModel<W>>,
    ) -> Option<FstError> {
        matchers_spec::<W, M1, M2>(fst1, fst2, m1, m2)
    }

    open spec fn start_spec() -> TrivialFilterState {
        TrivialFilterState { state: true }
    }

    /// A pair is kept if neither label on the matched sides is the empty
    /// string or a sentinel.
    open spec fn filter_tr_spec(
        fst1: FstModel<W>,
        fst2: FstModel<W>,
        at: StateTuple<TrivialFilterState>,
        tr1: Tr<W>,
        tr2: Tr<W>,
    ) -> (TrivialFilterState, Tr<W>, Tr<W>) {
        if is_symbol(tr1.olabel) && is_symbol(tr2.ilabel) {
            (TrivialFilterState { state: true }, tr1, tr2)
        } else {
            (TrivialFilterState { state: false }, tr1, tr2)
        }
    }

    open spec fn filter_final_spec(at: StateTuple<TrivialFilterState>, w1: W, w2: W) -> (W, W) {
        (w1, w2)
    }

    open spec fn valid_fs(fs: TrivialFilterState) -> bool {
        fs.state
    }

    open spec fn fs_index(fs: TrivialFilterState) -> nat {
        if fs.state {
            0
        } else {
            1
        }
    }

    open spec fn fs_count() -> nat {
        2
    }

    proof fn lemma_inv(&self) {
    }

    proof fn lemma_filter_states(a: TrivialFilterState, b: TrivialFilterState) {
    }

    proof fn lemma_filter_tr(
        fst1: FstModel<W>,
        fst2: FstModel<W>,
        at: StateTuple<TrivialFilterState>,
        tr1: Tr<W>,
        tr2: Tr<W>,
    ) {
    }

    fn new(fst1: &'a VectorFst<W>, fst2: &'a VectorFst<W>, m1: Option<M1>, m2: Option<M2>) -> (r: Result<
        Self,
        FstError,
    >) {
        let (matcher1, matcher2) = make_matchers(fst1, fst2, m1, m2)?;
        Ok(
            Self {
                matcher1,
                matcher2,
                s1: 0,
                s2: 0,
                fs: TrivialFilterState::new_no_state(),
                ready: false,
            },
        )
    }

    fn start(&self) -> (fs: TrivialFilterState) {
        TrivialFilterState::new(true)
    }

    fn set_state(&mut self, s1: StateId, s2: StateId, filter_state: &TrivialFilterState) -> (r: Result<
        (),
        FstError,
    >) {
        let n1 = self.matcher1.fst().num_states();
        let n2 = self.matcher2.fst().num_states();
        if s1 >= n1 {
            return Err(FstError::InvalidState(s1));
        }
        if s2 >= n2 {
            return Err(FstError::InvalidState(s2));
        }
        self.s1 = s1;
        self.s2 = s2;
        self.fs = *filter_state;
        self.ready = true;
        Ok(())
    }

    fn filter_tr(&mut self, tr1: &mut Tr<W>, tr2: &mut Tr<W>) -> (r: Result<TrivialFilterState, FstError>) {
        let fs = {
            if label_is_symbol(tr1.olabel) && label_is_symbol(tr2.ilabel) {
                TrivialFilterState::new(true)
            } else {
                TrivialFilterState::new_no_state()
            }
        };
        Ok(fs)
    }

    fn filter_final(&self, _w1: &mut W, _w2: &mut W) {
    }

    fn matcher1(&self) -> (m: &M1) {
        &self.matcher1
    }

    fn matcher2(&self) -> (m: &M2) {
        &self.matcher2
    }
}

} // verus!
