//! The filter that forbids the joint moves on the empty string.

use vstd::prelude::*;

use crate::algorithms::compose::compose_filters::compose_filter::{
    bound_to, make_matchers, matchers_spec, ComposeFilter, MatcherModel,
};
use crate::algorithms::compose::filter_states::{FilterState, IntegerFilterState, PairFilterState};
use crate::algorithms::compose::matchers::Matcher;
use crate::algorithms::compose::state_table::StateTuple;
use crate::error::FstError;
use crate::fst_impls::{FstModel, VectorFst};
use crate::semirings::Semiring;
use crate::tr::Tr;
use crate::{StateId, EPS_LABEL, LOOP_LABEL};

verus! {

/// The filter that keeps every pair but those in which both transducers
/// move on the empty string at once.
pub struct NoMatchComposeFilter<M1, M2> {
    matcher1: M1,
    matcher2: M2,
    s1: StateId,
    s2: StateId,
    fs: PairFilterState<IntegerFilterState, IntegerFilterState>,
    ready: bool,
}

impl<'a, W: Semiring + 'a, M1: Matcher<'a, W>, M2: Matcher<'a, W>> ComposeFilter<'a, W> for NoMatchComposeFilter<
    M1,
    M2,
> {
    type M1 = M1;

    type M2 = M2;

    type FS = PairFilterState<IntegerFilterState, IntegerFilterState>;

    closed spec fn inv(&self) -> bool {
        &&& self.matcher1.inv()
        &&& self.matcher2.inv()
        &&& self.ready ==> self.matcher1.fst_spec().has_state(self.s1)
            && self.matcher2.fst_spec().has_state(self.s2)
    }

    closed spec fn matcher1_spec(&self) -> M1 {
        self.matcher1
    }

    closed spec fn matcher2_spec(&self) -> M2 {
        self.matcher2
    }

    closed spec fn ready(&self) -> bool {
        self.ready
    }

    closed spec fn at(&self) -> StateTuple<PairFilterState<IntegerFilterState, IntegerFilterState>> {
        StateTuple { s1: self.s1, s2: self.s2, fs: self.fs }
    }

    open spec fn new_spec(
        fst1: FstModel<W>,
        fst2: FstModel<W>,
        m1: Option<MatcherModel<W>>,
        m2: Option<MatcherModel<W>>,
    ) -> Option<FstError> {
        matchers_spec::<W, M1, M2>(fst1, fst2, m1, m2)
    }

    open spec fn start_spec() -> PairFilterState<IntegerFilterState, IntegerFilterState> {
        PairFilterState { state1: IntegerFilterState { state: 0 },
            state2: IntegerFilterState { state: 0 } }
    }

    /// A pair in which one transducer stays is kept; any other pair is kept
    /// unless the first transition emits the empty string.
    open spec fn filter_tr_spec(
        fst1: FstModel<W>,
        fst2: FstModel<W>,
        at: StateTuple<PairFilterState<IntegerFilterState, IntegerFilterState>>,
        tr1: Tr<W>,
        tr2: Tr<W>,
    ) -> (PairFilterState<IntegerFilterState, IntegerFilterState>, Tr<W>, Tr<W>) {
        if tr1.olabel == LOOP_LABEL || tr2.ilabel == LOOP_LABEL || tr1.olabel != EPS_LABEL {
            (PairFilterState { state1: IntegerFilterState { state: 0 },
                state2: IntegerFilterState { state: 0 } }, tr1, tr2)
        } else {
            (PairFilterState::<IntegerFilterState, IntegerFilterState>::no_state_spec(), tr1, tr2)
        }
    }

    open spec fn filter_final_spec(at: StateTuple<PairFilterState<IntegerFilterState, IntegerFilterState>>, w1: W, w2: W) -> (W, W) {
        (w1, w2)
    }

    open spec fn valid_fs(fs: PairFilterState<IntegerFilterState, IntegerFilterState>) -> bool {
        fs.state1.state <= 1 && fs.state2.state <= 1
    }

    open spec fn fs_index(fs: PairFilterState<IntegerFilterState, IntegerFilterState>) -> nat {
        (2 * fs.state1.state + fs.state2.state) as nat
    }

    open spec fn fs_count() -> nat {
        4
    }

    proof fn lemma_inv(&self) {
    }

    proof fn lemma_filter_states(a: PairFilterState<IntegerFilterState, IntegerFilterState>, b: PairFilterState<IntegerFilterState, IntegerFilterState>) {
    }

    proof fn lemma_filter_tr(
        fst1: FstModel<W>,
        fst2: FstModel<W>,
        at: StateTuple<PairFilterState<IntegerFilterState, IntegerFilterState>>,
        tr1: Tr<W>,
        tr2: Tr<W>,
    ) {
    }

    fn new(fst1: &'a VectorFst<W>, fst2: &'a VectorFst<W>, m1: Option<M1>, m2: Option<M2>) -> (r: Result<
        Self,
        FstError,
    >) {
        let (matcher1, matcher2) = make_matchers(fst1, fst2, m1, m2)?;
        Ok(
            Self {
                matcher1,
                matcher2,
                s1: 0,
                s2: 0,
                fs: PairFilterState::new_no_state(),
                ready: false,
            },
        )
    }

    fn start(&self) -> (fs: PairFilterState<IntegerFilterState, IntegerFilterState>) {
        PairFilterState::new((IntegerFilterState::new(0), IntegerFilterState::new(0)))
    }

    fn set_state(&mut self, s1: StateId, s2: StateId, filter_state: &PairFilterState<IntegerFilterState, IntegerFilterState>) -> (r: Result<
        (),
        FstError,
    >) {
        let n1 = self.matcher1.fst().num_states();
        let n2 = self.matcher2.fst().num_states();
        if s1 >= n1 {
            return Err(FstError::InvalidState(s1));
        }
        if s2 >= n2 {
            return Err(FstError::InvalidState(s2));
        }
        self.s1 = s1;
        self.s2 = s2;
        self.fs = *filter_state;
        self.ready = true;
        Ok(())
    }

    fn filter_tr(&mut self, tr1: &mut Tr<W>, tr2: &mut Tr<W>) -> (r: Result<PairFilterState<IntegerFilterState, IntegerFilterState>, FstError>) {
        let fs = {
            if tr1.olabel == LOOP_LABEL || tr2.ilabel == LOOP_LABEL || tr1.olabel != EPS_LABEL {
                PairFilterState::new((IntegerFilterState::new(0), IntegerFilterState::new(0)))
            } else {
                PairFilterState::new_no_state()
            }
        };
        Ok(fs)
    }

    fn filter_final(&self, _w1: &mut W, _w2: &mut W) {
    }

    fn matcher1(&self) -> (m: &M1) {
        &self.matcher1
    }

    fn matcher2(&self) -> (m: &M2) {
        &self.matcher2
    }
}

} // verus!
