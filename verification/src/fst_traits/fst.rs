//! What every transducer offers, and what a transducer that can be changed
//! offers.

use vstd::prelude::*;

use crate::error::FstError;
use crate::fst_impls::{FstModel, StateModel, VectorFst};
use crate::fst_properties::{properties_spec, FstProperties};
use crate::semirings::Semiring;
use crate::tr::Tr;
use crate::StateId;

verus! {

/// A transducer that can be read. A state has its transitions in one order,
/// which every reading gives.
pub trait CoreFst<W: Semiring> {
    /// What the transducer holds.
    spec fn model(&self) -> FstModel<W>;

    /// The validity of the transducer.
    spec fn valid(&self) -> bool;

    /// The start state, if there is one.
    fn start(&self) -> (s: Option<StateId>)
        ensures
            s == self.model().start,
    ;

    fn num_states(&self) -> (n: usize)
        ensures
            n == self.model().states.len(),
    ;

    /// How many transitions the state has.
    fn num_trs(&self, state: StateId) -> (r: Result<usize, FstError>)
        ensures
            self.model().has_state(state) ==> r is Ok && r->Ok_0
                == self.model().states[state as int].trs.len(),
            !self.model().has_state(state) ==> r == Err::<usize, FstError>(
                FstError::InvalidState(state),
            ),
    ;

    /// The transitions of the state, in their order.
    fn get_trs(&self, state: StateId) -> (r: Result<&[Tr<W>], FstError>)
        ensures
            self.model().has_state(state) ==> r is Ok && r->Ok_0@
                == self.model().states[state as int].trs,
            !self.model().has_state(state) ==> r == Err::<&[Tr<W>], FstError>(
                FstError::InvalidState(state),
            ),
    ;

    /// The final weight of the state, if it is final.
    fn final_weight(&self, state: StateId) -> (r: Result<Option<W>, FstError>)
        ensures
            self.model().has_state(state) ==> r == Ok::<Option<W>, FstError>(
                self.model().states[state as int].final_weight,
            ),
            !self.model().has_state(state) ==> r == Err::<Option<W>, FstError>(
                FstError::InvalidState(state),
            ),
    ;

    /// How many transitions of the state consume the empty string.
    fn num_input_epsilons(&self, state: StateId) -> (r: Result<usize, FstError>)
        ensures
            self.model().has_state(state) ==> r is Ok && r->Ok_0
                == self.model().states[state as int].num_input_epsilons(),
            !self.model().has_state(state) ==> r == Err::<usize, FstError>(
                FstError::InvalidState(state),
            ),
    ;

    /// How many transitions of the state emit the empty string.
    fn num_output_epsilons(&self, state: StateId) -> (r: Result<usize, FstError>)
        ensures
            self.model().has_state(state) ==> r is Ok && r->Ok_0
                == self.model().states[state as int].num_output_epsilons(),
            !self.model().has_state(state) ==> r == Err::<usize, FstError>(
                FstError::InvalidState(state),
            ),
    ;

    /// The properties of the transducer.
    fn properties(&self) -> (p: FstProperties)
        ensures
            p.bits == properties_spec(self.model()),
    ;
}

/// A transducer that can be changed. Its states have the ids from 0 on,
/// without a gap.
pub trait MutableFst<W: Semiring>: CoreFst<W> {
    /// Appends a state that is not final and has no transition; returns
    /// its id.
    fn add_state(&mut self) -> (s: StateId)
        requires
            old(self).valid(),
        ensures
            final(self).valid(),
            s == old(self).model().num_states(),
            final(self).model() == (FstModel {
                states: old(self).model().states.push(StateModel::empty()),
                ..old(self).model()
            }),
    ;

    /// Appends a transition to those of the state `source`.
    fn add_tr(&mut self, source: StateId, tr: Tr<W>) -> (r: Result<(), FstError>)
        requires
            old(self).valid(),
        ensures
            final(self).valid(),
            old(self).model().has_state(source) && old(self).model().has_state(tr.nextstate) ==> r
                is Ok && final(self).model() == old(self).model().with_state(
                source,
                StateModel {
                    trs: old(self).model().states[source as int].trs.push(tr),
                    ..old(self).model().states[source as int]
                },
            ),
            !old(self).model().has_state(source) ==> r == Err::<(), FstError>(
                FstError::InvalidState(source),
            ),
            old(self).model().has_state(source) && !old(self).model().has_state(tr.nextstate)
                ==> r == Err::<(), FstError>(FstError::InvalidState(tr.nextstate)),
            r is Err ==> final(self).model() == old(self).model(),
    ;

    /// Makes `state` the start state.
    fn set_start(&mut self, state: StateId) -> (r: Result<(), FstError>)
        requires
            old(self).valid(),
        ensures
            final(self).valid(),
            old(self).model().has_state(state) ==> r is Ok && final(self).model() == (FstModel {
                start: Some(state),
                ..old(self).model()
            }),
            !old(self).model().has_state(state) ==> r == Err::<(), FstError>(
                FstError::InvalidState(state),
            ) && final(self).model() == old(self).model(),
    ;

    /// Makes `state` final with the weight `final_weight`.
    fn set_final(&mut self, state: StateId, final_weight: W) -> (r: Result<(), FstError>)
        requires
            old(self).valid(),
        ensures
            final(self).valid(),
            old(self).model().has_state(state) ==> r is Ok && final(self).model() == old(
                self,
            ).model().with_state(
                state,
                StateModel {
                    final_weight: Some(final_weight),
                    ..old(self).model().states[state as int]
                },
            ),
            !old(self).model().has_state(state) ==> r == Err::<(), FstError>(
                FstError::InvalidState(state),
            ) && final(self).model() == old(self).model(),
    ;

    /// Makes `state` a state that is not final.
    fn delete_final_weight(&mut self, state: StateId) -> (r: Result<(), FstError>)
        requires
            old(self).valid(),
        ensures
            final(self).valid(),
            old(self).model().has_state(state) ==> r is Ok && final(self).model() == old(
                self,
            ).model().with_state(
                state,
                StateModel { final_weight: None, ..old(self).model().states[state as int] },
            ),
            !old(self).model().has_state(state) ==> r == Err::<(), FstError>(
                FstError::InvalidState(state),
            ) && final(self).model() == old(self).model(),
    ;

    /// Removes every transition of `state`.
    fn delete_trs(&mut self, state: StateId) -> (r: Result<(), FstError>)
        requires
            old(self).valid(),
        ensures
            final(self).valid(),
            old(self).model().has_state(state) ==> r is Ok && final(self).model() == old(
                self,
            ).model().with_state(
                state,
                StateModel { trs: Seq::empty(), ..old(self).model().states[state as int] },
            ),
            !old(self).model().has_state(state) ==> r == Err::<(), FstError>(
                FstError::InvalidState(state),
            ) && final(self).model() == old(self).model(),
    ;

    /// Makes room for `additional` states; the transducer stays as it is.
    fn reserve_states(&mut self, additional: usize)
        requires
            old(self).valid(),
        ensures
            final(self).valid(),
            final(self).model() == old(self).model(),
    ;

    /// Makes room for `additional` transitions of the state `source`; the
    /// transducer stays as it is.
    fn reserve_trs(&mut self, source: StateId, additional: usize) -> (r: Result<(), FstError>)
        requires
            old(self).valid(),
        ensures
            final(self).valid(),
            final(self).model() == old(self).model(),
            r is Ok <==> old(self).model().has_state(source),
            r is Err ==> r == Err::<(), FstError>(FstError::InvalidState(source)),
    ;
}

impl<W: Semiring> CoreFst<W> for VectorFst<W> {
    open spec fn model(&self) -> FstModel<W> {
        self@
    }

    open spec fn valid(&self) -> bool {
        self.wf()
    }

    fn start(&self) -> (s: Option<StateId>) {
        VectorFst::start(self)
    }

    fn num_states(&self) -> (n: usize) {
        VectorFst::num_states(self)
    }

    fn num_trs(&self, state: StateId) -> (r: Result<usize, FstError>) {
        VectorFst::num_trs(self, state)
    }

    fn get_trs(&self, state: StateId) -> (r: Result<&[Tr<W>], FstError>) {
        VectorFst::get_trs(self, state)
    }

    fn final_weight(&self, state: StateId) -> (r: Result<Option<W>, FstError>) {
        VectorFst::final_weight(self, state)
    }

    fn num_input_epsilons(&self, state: StateId) -> (r: Result<usize, FstError>) {
        VectorFst::num_input_epsilons(self, state)
    }

    fn num_output_epsilons(&self, state: StateId) -> (r: Result<usize, FstError>) {
        VectorFst::num_output_epsilons(self, state)
    }

    fn properties(&self) -> (p: FstProperties) {
        VectorFst::properties(self)
    }
}

impl<W: Semiring> MutableFst<W> for VectorFst<W> {
    fn add_state(&mut self) -> (s: StateId) {
        VectorFst::add_state(self)
    }

    fn add_tr(&mut self, source: StateId, tr: Tr<W>) -> (r: Result<(), FstError>) {
        let r = VectorFst::add_tr(self, source, tr);
        proof {
            if r is Ok {
                assert(self@.states =~= old(self)@.with_state(
                    source,
                    StateModel {
                        trs: old(self)@.states[source as int].trs.push(tr),
                        ..old(self)@.states[source as int]
                    },
                ).states);
            }
        }
        r
    }

    fn set_start(&mut self, state: StateId) -> (r: Result<(), FstError>) {
        VectorFst::set_start(self, state)
    }

    fn set_final(&mut self, state: StateId, final_weight: W) -> (r: Result<(), FstError>) {
        VectorFst::set_final(self, state, final_weight)
    }

    fn delete_final_weight(&mut self, state: StateId) -> (r: Result<(), FstError>) {
        VectorFst::delete_final_weight(self, state)
    }

    fn delete_trs(&mut self, state: StateId) -> (r: Result<(), FstError>) {
        VectorFst::delete_trs(self, state)
    }

    fn reserve_states(&mut self, additional: usize) {
        VectorFst::reserve_states(self, additional)
    }

    fn reserve_trs(&mut self, source: StateId, additional: usize) -> (r: Result<(), FstError>) {
        VectorFst::reserve_trs(self, source, additional)
    }
}

} // verus!
