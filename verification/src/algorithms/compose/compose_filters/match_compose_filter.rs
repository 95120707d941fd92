//! The filter that lets either transducer move on the empty string first,
//! and both at once.

use vstd::prelude::*;

use crate::algorithms::compose::compose_filters::compose_filter::{
    all_input_epsilons, all_output_epsilons, input_epsilons, no_input_epsilons,
    no_output_epsilons, output_epsilons, bound_to, make_matchers, matchers_spec, ComposeFilter,
        MatcherModel,
};
use crate::algorithms::compose::filter_states::{FilterState, IntegerFilterState, PairFilterState};
use crate::algorithms::compose::matchers::Matcher;
use crate::algorithms::compose::state_table::StateTuple;
use crate::error::FstError;
use crate::fst_impls::{FstModel, VectorFst};
use crate::semirings::Semiring;
use crate::tr::Tr;
use crate::{StateId, EPS_LABEL, LOOP_LABEL};

verus! {

/// The filter that keeps the joint moves on the empty string and lets
/// either transducer move alone: its state says which of the two has begun
/// to, the first component for the first transducer and the second for the
/// second, and the other one must then wait for a match.
pub struct MatchComposeFilter<M1, M2> {
    matcher1: M1,
    matcher2: M2,
    s1: StateId,
    s2: StateId,
    fs: PairFilterState<IntegerFilterState, IntegerFilterState>,
    alleps1: bool,
    noeps1: bool,
    alleps2: bool,
    noeps2: bool,
    ready: bool,
}

impl<'a, W: Semiring + 'a, M1: Matcher<'a, W>, M2: Matcher<'a, W>> ComposeFilter<'a, W> for MatchComposeFilter<
    M1,
    M2,
> {
    type M1 = M1;

    type M2 = M2;

    type FS = PairFilterState<IntegerFilterState, IntegerFilterState>;

    closed spec fn inv(&self) -> bool {
        &&& self.matcher1.inv()
        &&& self.matcher2.inv()
        &&& self.ready ==> self.matcher1.fst_spec().has_state(self.s1)
            && self.matcher2.fst_spec().has_state(self.s2)
        &&& self.ready ==> self.alleps1 == all_output_epsilons(
            self.matcher1.fst_spec().states[self.s1 as int],
        ) && self.noeps1 == no_output_epsilons(self.matcher1.fst_spec().states[self.s1 as int])
        &&& self.ready ==> self.alleps2 == all_input_epsilons(
            self.matcher2.fst_spec().states[self.s2 as int],
        ) && self.noeps2 == no_input_epsilons(self.matcher2.fst_spec().states[self.s2 as int])
    }

    closed spec fn matcher1_spec(&self) -> M1 {
        self.matcher1
    }

    closed spec fn matcher2_spec(&self) -> M2 {
        self.matcher2
    }

    closed spec fn ready(&self) -> bool {
        self.ready
    }

    closed spec fn at(&self) -> StateTuple<PairFilterState<IntegerFilterState, IntegerFilterState>> {
        StateTuple { s1: self.s1, s2: self.s2, fs: self.fs }
    }

    open spec fn new_spec(
        fst1: FstModel<W>,
        fst2: FstModel<W>,
        m1: Option<MatcherModel<W>>,
        m2: Option<MatcherModel<W>>,
    ) -> Option<FstError> {
        matchers_spec::<W, M1, M2>(fst1, fst2, m1, m2)
    }

    open spec fn start_spec() -> PairFilterState<IntegerFilterState, IntegerFilterState> {
        PairFilterState { state1: IntegerFilterState { state: 0 },
            state2: IntegerFilterState { state: 0 } }
    }

    /// Where the second transducer stays: from the state (0, 0) the pair
    /// is kept in that state if the second has no move on the empty string,
    /// forbidden if it has nothing else, and else leads to (1, 0); from
    /// (1, 0) it leads to (1, 0); from (0, 1) it is forbidden. Where the
    /// first transducer stays, the same with the parts exchanged. A joint
    /// move on the empty string is kept in the state (0, 0) only, and a
    /// match on a symbol leads to (0, 0).
    open spec fn filter_tr_spec(
        fst1: FstModel<W>,
        fst2: FstModel<W>,
        at: StateTuple<PairFilterState<IntegerFilterState, IntegerFilterState>>,
        tr1: Tr<W>,
        tr2: Tr<W>,
    ) -> (PairFilterState<IntegerFilterState, IntegerFilterState>, Tr<W>, Tr<W>) {
        let st1 = fst1.states[at.s1 as int];
        let st2 = fst2.states[at.s2 as int];
        let none = PairFilterState::<IntegerFilterState, IntegerFilterState>::no_state_spec();
        let rest = PairFilterState { state1: IntegerFilterState { state: 0 },
            state2: IntegerFilterState { state: 0 } };
        let first = PairFilterState { state1: IntegerFilterState { state: 1 },
            state2: IntegerFilterState { state: 0 } };
        let second = PairFilterState { state1: IntegerFilterState { state: 0 },
            state2: IntegerFilterState { state: 1 } };
        let fs = if tr2.ilabel == LOOP_LABEL {
            if at.fs == rest {
                if no_input_epsilons(st2) {
                    rest
                } else if all_input_epsilons(st2) {
                    none
                } else {
                    first
                }
            } else if at.fs == first {
                first
            } else {
                none
            }
        } else if tr1.olabel == LOOP_LABEL {
            if at.fs == rest {
                if no_output_epsilons(st1) {
                    rest
                } else if all_output_epsilons(st1) {
                    none
                } else {
                    second
                }
            } else if at.fs == second {
                second
            } else {
                none
            }
        } else if tr1.olabel == EPS_LABEL {
            if at.fs == rest {
                rest
            } else {
                none
            }
        } else {
            rest
        };
        (fs, tr1, tr2)
    }

    open spec fn filter_final_spec(at: StateTuple<PairFilterState<IntegerFilterState, IntegerFilterState>>, w1: W, w2: W) -> (W, W) {
        (w1, w2)
    }

    open spec fn valid_fs(fs: PairFilterState<IntegerFilterState, IntegerFilterState>) -> bool {
        fs.state1.state <= 1 && fs.state2.state <= 1
    }

    open spec fn fs_index(fs: PairFilterState<IntegerFilterState, IntegerFilterState>) -> nat {
        (2 * fs.state1.state + fs.state2.state) as nat
    }

    open spec fn fs_count() -> nat {
        4
    }

    proof fn lemma_inv(&self) {
    }

    proof fn lemma_filter_states(a: PairFilterState<IntegerFilterState, IntegerFilterState>, b: PairFilterState<IntegerFilterState, IntegerFilterState>) {
    }

    proof fn lemma_filter_tr(
        fst1: FstModel<W>,
        fst2: FstModel<W>,
        at: StateTuple<PairFilterState<IntegerFilterState, IntegerFilterState>>,
        tr1: Tr<W>,
        tr2: Tr<W>,
    ) {
    }

    fn new(fst1: &'a VectorFst<W>, fst2: &'a VectorFst<W>, m1: Option<M1>, m2: Option<M2>) -> (r: Result<
        Self,
        FstError,
    >) {
        let (matcher1, matcher2) = make_matchers(fst1, fst2, m1, m2)?;
        Ok(
            Self {
                matcher1,
                matcher2,
                s1: 0,
                s2: 0,
                fs: PairFilterState::new_no_state(),
                alleps1: false,
                noeps1: false,
                alleps2: false,
                noeps2: false,
                ready: false,
            },
        )
    }

    fn start(&self) -> (fs: PairFilterState<IntegerFilterState, IntegerFilterState>) {
        PairFilterState::new((IntegerFilterState::new(0), IntegerFilterState::new(0)))
    }

    fn set_state(&mut self, s1: StateId, s2: StateId, filter_state: &PairFilterState<IntegerFilterState, IntegerFilterState>) -> (r: Result<
        (),
        FstError,
    >) {
        let (alleps1, noeps1) = output_epsilons(self.matcher1.fst(), s1)?;
        let (alleps2, noeps2) = input_epsilons(self.matcher2.fst(), s2)?;
        self.s1 = s1;
        self.s2 = s2;
        self.fs = *filter_state;
        self.alleps1 = alleps1;
        self.noeps1 = noeps1;
        self.alleps2 = alleps2;
        self.noeps2 = noeps2;
        self.ready = true;
        Ok(())
    }

    fn filter_tr(&mut self, tr1: &mut Tr<W>, tr2: &mut Tr<W>) -> (r: Result<PairFilterState<IntegerFilterState, IntegerFilterState>, FstError>) {
        let fs = {
            let at_rest = self.fs.state1.state == 0 && self.fs.state2.state == 0;
            let at_first = self.fs.state1.state == 1 && self.fs.state2.state == 0;
            let at_second = self.fs.state1.state == 0 && self.fs.state2.state == 1;
            let none = PairFilterState::new_no_state();
            let rest = PairFilterState::new((IntegerFilterState::new(0),
                IntegerFilterState::new(0)));
            let first = PairFilterState::new((IntegerFilterState::new(1),
                IntegerFilterState::new(0)));
            let second = PairFilterState::new(
                (IntegerFilterState::new(0), IntegerFilterState::new(1)),
            );
            if tr2.ilabel == LOOP_LABEL {
                if at_rest {
                    if self.noeps2 {
                        rest
                    } else if self.alleps2 {
                        none
                    } else {
                        first
                    }
                } else if at_first {
                    first
                } else {
                    none
                }
            } else if tr1.olabel == LOOP_LABEL {
                if at_rest {
                    if self.noeps1 {
                        rest
                    } else if self.alleps1 {
                        none
                    } else {
                        second
                    }
                } else if at_second {
                    second
                } else {
                    none
                }
            } else if tr1.olabel == EPS_LABEL {
                if at_rest {
                    rest
                } else {
                    none
                }
            } else {
                rest
            }
        };
        Ok(fs)
    }

    fn filter_final(&self, _w1: &mut W, _w2: &mut W) {
    }

    fn matcher1(&self) -> (m: &M1) {
        &self.matcher1
    }

    fn matcher2(&self) -> (m: &M2) {
        &self.matcher2
    }
}

} // verus!
