//! The filter that lets the second transducer move on the empty string
//! before the first.

use vstd::prelude::*;

use crate::algorithms::compose::compose_filters::compose_filter::{
    all_input_epsilons, input_epsilons, no_input_epsilons, bound_to, make_matchers, matchers_spec,
        ComposeFilter, MatcherModel,
};
use crate::algorithms::compose::filter_states::{FilterState, IntegerFilterState};
use crate::algorithms::compose::matchers::Matcher;
use crate::algorithms::compose::state_table::StateTuple;
use crate::error::FstError;
use crate::fst_impls::{FstModel, VectorFst};
use crate::semirings::Semiring;
use crate::tr::Tr;
use crate::{StateId, EPS_LABEL, LOOP_LABEL};

verus! {

/// The filter that puts the moves on the empty string in sequence, the
/// other way round: at a state of the composition, first the moves of the
/// second transducer on transitions that consume the empty string, the first
/// staying, then the moves of the first on transitions that emit it.
pub struct AltSequenceComposeFilter<M1, M2> {
    matcher1: M1,
    matcher2: M2,
    s1: StateId,
    s2: StateId,
    fs: IntegerFilterState,
    alleps2: bool,
    noeps2: bool,
    ready: bool,
}

impl<'a, W: Semiring + 'a, M1: Matcher<'a, W>, M2: Matcher<'a, W>> ComposeFilter<'a, W> for AltSequenceComposeFilter<
    M1,
    M2,
> {
    type M1 = M1;

    type M2 = M2;

    type FS = IntegerFilterState;

    closed spec fn inv(&self) -> bool {
        &&& self.matcher1.inv()
        &&& self.matcher2.inv()
        &&& self.ready ==> self.matcher1.fst_spec().has_state(self.s1)
            && self.matcher2.fst_spec().has_state(self.s2)
        &&& self.ready ==> self.alleps2 == all_input_epsilons(
            self.matcher2.fst_spec().states[self.s2 as int],
        ) && self.noeps2 == no_input_epsilons(self.matcher2.fst_spec().states[self.s2 as int])
    }

    closed spec fn matcher1_spec(&self) -> M1 {
        self.matcher1
    }

    closed spec fn matcher2_spec(&self) -> M2 {
        self.matcher2
    }

    closed spec fn ready(&self) -> bool {
        self.ready
    }

    closed spec fn at(&self) -> StateTuple<IntegerFilterState> {
        StateTuple { s1: self.s1, s2: self.s2, fs: self.fs }
    }

    open spec fn new_spec(
        fst1: FstModel<W>,
        fst2: FstModel<W>,
        m1: Option<MatcherModel<W>>,
        m2: Option<MatcherModel<W>>,
    ) -> Option<FstError> {
        matchers_spec::<W, M1, M2>(fst1, fst2, m1, m2)
    }

    open spec fn start_spec() -> IntegerFilterState {
        IntegerFilterState { state: 0 }
    }

    /// Where the second transducer stays, the pair is forbidden if all that
    /// the second can do is move on the empty string; else the filter goes
    /// to the state 0 if the second has no such move, and to the state 1 if
    /// it has. Where the first transducer stays, the pair is kept unless the
    /// filter is in the state 1, and leads to the state 0. A joint move on
    /// the empty string is forbidden, and a match on a symbol leads to the
    /// state 0.
    open spec fn filter_tr_spec(
        fst1: FstModel<W>,
        fst2: FstModel<W>,
        at: StateTuple<IntegerFilterState>,
        tr1: Tr<W>,
        tr2: Tr<W>,
    ) -> (IntegerFilterState, Tr<W>, Tr<W>) {
        let st2 = fst2.states[at.s2 as int];
        let fs = if tr2.ilabel == LOOP_LABEL {
            if all_input_epsilons(st2) {
                IntegerFilterState::no_state_spec()
            } else if no_input_epsilons(st2) {
                IntegerFilterState { state: 0 }
            } else {
                IntegerFilterState { state: 1 }
            }
        } else if tr1.olabel == LOOP_LABEL {
            if at.fs == (IntegerFilterState { state: 1 }) {
                IntegerFilterState::no_state_spec()
            } else {
                IntegerFilterState { state: 0 }
            }
        } else if tr1.olabel == EPS_LABEL {
            IntegerFilterState::no_state_spec()
        } else {
            IntegerFilterState { state: 0 }
        };
        (fs, tr1, tr2)
    }

    open spec fn filter_final_spec(at: StateTuple<IntegerFilterState>, w1: W, w2: W) -> (W, W) {
        (w1, w2)
    }

    open spec fn valid_fs(fs: IntegerFilterState) -> bool {
        fs.state <= 1
    }

    open spec fn fs_index(fs: IntegerFilterState) -> nat {
        fs.state as nat
    }

    open spec fn fs_count() -> nat {
        2
    }

    proof fn lemma_inv(&self) {
    }

    proof fn lemma_filter_states(a: IntegerFilterState, b: IntegerFilterState) {
    }

    proof fn lemma_filter_tr(
        fst1: FstModel<W>,
        fst2: FstModel<W>,
        at: StateTuple<IntegerFilterState>,
        tr1: Tr<W>,
        tr2: Tr<W>,
    ) {
    }

    fn new(fst1: &'a VectorFst<W>, fst2: &'a VectorFst<W>, m1: Option<M1>, m2: Option<M2>) -> (r: Result<
        Self,
        FstError,
    >) {
        let (matcher1, matcher2) = make_matchers(fst1, fst2, m1, m2)?;
        Ok(
            Self {
                matcher1,
                matcher2,
                s1: 0,
                s2: 0,
                fs: IntegerFilterState::new_no_state(),
                alleps2: false,
                noeps2: false,
                ready: false,
            },
        )
    }

    fn start(&self) -> (fs: IntegerFilterState) {
        IntegerFilterState::new(0)
    }

    fn set_state(&mut self, s1: StateId, s2: StateId, filter_state: &IntegerFilterState) -> (r: Result<
        (),
        FstError,
    >) {
        let n1 = self.matcher1.fst().num_states();
        if s1 >= n1 {
            return Err(FstError::InvalidState(s1));
        }
        let (alleps2, noeps2) = input_epsilons(self.matcher2.fst(), s2)?;
        self.s1 = s1;
        self.s2 = s2;
        self.fs = *filter_state;
        self.alleps2 = alleps2;
        self.noeps2 = noeps2;
        self.ready = true;
        Ok(())
    }

    fn filter_tr(&mut self, tr1: &mut Tr<W>, tr2: &mut Tr<W>) -> (r: Result<IntegerFilterState, FstError>) {
        let fs = {
            if tr2.ilabel == LOOP_LABEL {
                if self.alleps2 {
                    IntegerFilterState::new_no_state()
                } else if self.noeps2 {
                    IntegerFilterState::new(0)
                } else {
                    IntegerFilterState::new(1)
                }
            } else if tr1.olabel == LOOP_LABEL {
                if self.fs.state == 1 {
                    IntegerFilterState::new_no_state()
                } else {
                    IntegerFilterState::new(0)
                }
            } else if tr1.olabel == EPS_LABEL {
                IntegerFilterState::new_no_state()
            } else {
                IntegerFilterState::new(0)
            }
        };
        Ok(fs)
    }

    fn filter_final(&self, _w1: &mut W, _w2: &mut W) {
    }

    fn matcher1(&self) -> (m: &M1) {
        &self.matcher1
    }

    fn matcher2(&self) -> (m: &M2) {
        &self.matcher2
    }
}

} // verus!
