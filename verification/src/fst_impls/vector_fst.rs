//! A mutable transducer that keeps, for each state, a vector of its
//! outgoing transitions.

use vstd::prelude::*;

use crate::error::FstError;
use crate::semirings::Semiring;
use crate::tr::Tr;
use crate::{StateId, EPS_LABEL};

verus! {

/// How many of `trs` have the empty string as input.
pub open spec fn count_input_epsilons<W>(trs: Seq<Tr<W>>) -> nat
    decreases trs.len(),
{
    if trs.len() == 0 {
        0
    } else {
        count_input_epsilons(trs.drop_last()) + if trs.last().ilabel == EPS_LABEL {
            1nat
        } else {
            0nat
        }
    }
}

/// How many of `trs` have the empty string as output.
pub open spec fn count_output_epsilons<W>(trs: Seq<Tr<W>>) -> nat
    decreases trs.len(),
{
    if trs.len() == 0 {
        0
    } else {
        count_output_epsilons(trs.drop_last()) + if trs.last().olabel == EPS_LABEL {
            1nat
        } else {
            0nat
        }
    }
}

/// What a state is: whether it is final, and with which weight, and its
/// outgoing transitions in order.
pub ghost struct StateModel<W> {
    pub final_weight: Option<W>,
    pub trs: Seq<Tr<W>>,
}

/// What a transducer is: its optional start state and its states, each at
/// the index that is its id.
pub ghost struct FstModel<W> {
    pub start: Option<StateId>,
    pub states: Seq<StateModel<W>>,
}

impl<W> StateModel<W> {
    /// A state that is not final and has no transition.
    pub open spec fn empty() -> Self {
        StateModel { final_weight: None, trs: Seq::empty() }
    }

    /// How many transitions have the empty string as input.
    pub open spec fn num_input_epsilons(self) -> nat {
        count_input_epsilons(self.trs)
    }

    /// How many transitions have the empty string as output.
    pub open spec fn num_output_epsilons(self) -> nat {
        count_output_epsilons(self.trs)
    }
}

impl<W> FstModel<W> {
    /// The transducer without states.
    pub open spec fn empty() -> Self {
        FstModel { start: None, states: Seq::empty() }
    }

    pub open spec fn num_states(self) -> nat {
        self.states.len()
    }

    pub open spec fn has_state(self, s: StateId) -> bool {
        s < self.states.len()
    }

    /// The transducer with the state `s` replaced by `state`.
    pub open spec fn with_state(self, s: StateId, state: StateModel<W>) -> Self {
        FstModel { states: self.states.update(s as int, state), ..self }
    }

    /// The start state, if there is one, is a state, and so is the target of
    /// every transition.
    pub open spec fn wf(self) -> bool {
        &&& self.start matches Some(s) ==> self.has_state(s)
        &&& forall|s: int, i: int|
            0 <= s < self.states.len() && 0 <= i < self.states[s].trs.len() ==> self.has_state(
                (#[trigger] self.states[s].trs[i]).nextstate,
            )
    }
}

/// A state of a `VectorFst`.
pub struct VectorFstState<W> {
    pub final_weight: Option<W>,
    pub trs: Vec<Tr<W>>,
}

impl<W> View for VectorFstState<W> {
    type V = StateModel<W>;

    open spec fn view(&self) -> StateModel<W> {
        StateModel { final_weight: self.final_weight, trs: self.trs@ }
    }
}

/// The states that `states` stand for.
pub open spec fn state_models<W>(states: Seq<VectorFstState<W>>) -> Seq<StateModel<W>> {
    Seq::new(states.len(), |i: int| states[i]@)
}

/// A transducer held in memory, state by state.
pub struct VectorFst<W: Semiring> {
    states: Vec<VectorFstState<W>>,
    start_state: Option<StateId>,
}

impl<W: Semiring> View for VectorFst<W> {
    type V = FstModel<W>;

    closed spec fn view(&self) -> FstModel<W> {
        FstModel { start: self.start_state, states: state_models(self.states@) }
    }
}

impl<W: Semiring> VectorFst<W> {
    /// The validity of the transducer: every state that it names exists.
    pub open spec fn wf(&self) -> bool {
        self@.wf()
    }

    /// The transducer without states.
    pub fn new() -> (fst: Self)
        ensures
            fst.wf(),
            fst@ == FstModel::<W>::empty(),
    {
        let fst = VectorFst { states: Vec::new(), start_state: None };
        assert(fst@.states =~= Seq::empty());
        fst
    }

    /// The transducer with the states `states` and the start state `start`,
    /// unless they name a state that does not exist.
    pub fn from_parts(states: Vec<VectorFstState<W>>, start: Option<StateId>) -> (r: Result<
        Self,
        FstError,
    >)
        ensures
            ({
                let m = FstModel { start, states: state_models(states@) };
                &&& m.wf() ==> r is Ok && r->Ok_0.wf() && r->Ok_0@ == m
                &&& !m.wf() ==> (r matches Err(FstError::InvalidState(s)) && !m.has_state(s))
            }),
    {
        let n = states.len();
        let ghost m = FstModel { start, states: state_models(states@) };
        if let Some(s) = start {
            if s >= n {
                return Err(FstError::InvalidState(s));
            }
        }
        let mut s: usize = 0;
        while s < n
            invariant
                s <= n,
                n == states@.len(),
                m == (FstModel { start, states: state_models(states@) }),
                forall|t: int, i: int|
                    0 <= t < s && 0 <= i < m.states[t].trs.len() ==> m.has_state(
                        (#[trigger] m.states[t].trs[i]).nextstate,
                    ),
            decreases n - s,
        {
            let trs = &states[s].trs;
            let mut i: usize = 0;
            while i < trs.len()
                invariant
                    i <= trs.len(),
                    s < n,
                    n == states@.len(),
                    n == m.states.len(),
                    m == (FstModel { start, states: state_models(states@) }),
                    trs@ == m.states[s as int].trs,
                    forall|j: int| 0 <= j < i ==> m.has_state((#[trigger] trs@[j]).nextstate),
                decreases trs.len() - i,
            {
                if trs[i].nextstate >= n {
                    assert(!m.has_state(m.states[s as int].trs[i as int].nextstate));
                    return Err(FstError::InvalidState(trs[i].nextstate));
                }
                i = i + 1;
            }
            s = s + 1;
        }
        let fst = VectorFst { states, start_state: start };
        assert(fst@.states =~= m.states);
        Ok(fst)
    }

    pub fn start(&self) -> (s: Option<StateId>)
        ensures
            s == self@.start,
    {
        self.start_state
    }

    /// A transducer has no more states than a machine can count.
    pub proof fn lemma_countable(&self)
        ensures
            self@.states.len() <= usize::MAX,
    {
        assert(self.states@.len() == self.states.len());
    }

    pub fn num_states(&self) -> (n: usize)
        ensures
            n == self@.num_states(),
    {
        self.states.len()
    }

    /// Appends a state that is not final and has no transition; returns its id.
    pub fn add_state(&mut self) -> (s: StateId)
        requires
            old(self).wf(),
        ensures
            final(self).wf(),
            s == old(self)@.num_states(),
            final(self)@ == (FstModel {
                states: old(self)@.states.push(StateModel::empty()),
                ..old(self)@
            }),
    {
        let s = self.states.len();
        self.states.push(VectorFstState { final_weight: None, trs: Vec::new() });
        assert(self@.states =~= old(self)@.states.push(StateModel::empty()));
        s
    }

    /// Makes `state` the start state.
    pub fn set_start(&mut self, state: StateId) -> (r: Result<(), FstError>)
        requires
            old(self).wf(),
        ensures
            final(self).wf(),
            old(self)@.has_state(state) ==> r is Ok && final(self)@ == (FstModel {
                start: Some(state),
                ..old(self)@
            }),
            !old(self)@.has_state(state) ==> r == Err::<(), FstError>(
                FstError::InvalidState(state),
            ) && final(self)@ == old(self)@,
    {
        if state < self.states.len() {
            self.start_state = Some(state);
            assert(self@.states =~= old(self)@.states);
            Ok(())
        } else {
            Err(FstError::InvalidState(state))
        }
    }

    /// Appends a transition to those that leave `source`.
    pub fn add_tr(&mut self, source: StateId, tr: Tr<W>) -> (r: Result<(), FstError>)
        requires
            old(self).wf(),
        ensures
            final(self).wf(),
            old(self)@.has_state(source) && old(self)@.has_state(tr.nextstate) ==> r is Ok
                && final(self)@ == (FstModel {
                states: old(self)@.states.update(
                    source as int,
                    StateModel {
                        trs: old(self)@.states[source as int].trs.push(tr),
                        ..old(self)@.states[source as int]
                    },
                ),
                ..old(self)@
            }),
            !old(self)@.has_state(source) ==> r == Err::<(), FstError>(
                FstError::InvalidState(source),
            ),
            old(self)@.has_state(source) && !old(self)@.has_state(tr.nextstate) ==> r == Err::<
                (),
                FstError,
            >(FstError::InvalidState(tr.nextstate)),
            r is Err ==> final(self)@ == old(self)@,
    {
        let n = self.states.len();
        if source >= n {
            return Err(FstError::InvalidState(source));
        }
        if tr.nextstate >= n {
            return Err(FstError::InvalidState(tr.nextstate));
        }
        self.states[source].trs.push(tr);
        assert(self@.states =~= old(self)@.states.update(
            source as int,
            StateModel {
                trs: old(self)@.states[source as int].trs.push(tr),
                ..old(self)@.states[source as int]
            },
        ));
        Ok(())
    }

    /// Appends `n` states that are not final and have no transition.
    pub fn add_states(&mut self, n: usize)
        requires
            old(self).wf(),
        ensures
            final(self).wf(),
            final(self)@.start == old(self)@.start,
            final(self)@.states == old(self)@.states + Seq::new(
                n as nat,
                |i: int| StateModel::<W>::empty(),
            ),
    {
        let mut i: usize = 0;
        while i < n
            invariant
                i <= n,
                self.wf(),
                self@.start == old(self)@.start,
                self@.states == old(self)@.states + Seq::new(
                    i as nat,
                    |j: int| StateModel::<W>::empty(),
                ),
            decreases n - i,
        {
            self.add_state();
            i = i + 1;
            assert(self@.states =~= old(self)@.states + Seq::new(
                i as nat,
                |j: int| StateModel::<W>::empty(),
            ));
        }
    }

    /// Makes `state` final with the weight `final_weight`.
    pub fn set_final(&mut self, state: StateId, final_weight: W) -> (r: Result<(), FstError>)
        requires
            old(self).wf(),
        ensures
            final(self).wf(),
            old(self)@.has_state(state) ==> r is Ok && final(self)@ == old(self)@.with_state(
                state,
                StateModel {
                    final_weight: Some(final_weight),
                    ..old(self)@.states[state as int]
                },
            ),
            !old(self)@.has_state(state) ==> r == Err::<(), FstError>(
                FstError::InvalidState(state),
            ) && final(self)@ == old(self)@,
    {
        if state >= self.states.len() {
            return Err(FstError::InvalidState(state));
        }
        self.states[state].final_weight = Some(final_weight);
        assert(self@.states =~= old(self)@.states.update(
            state as int,
            StateModel { final_weight: Some(final_weight), ..old(self)@.states[state as int] },
        ));
        Ok(())
    }

    /// Makes `state` not final.
    pub fn delete_final_weight(&mut self, state: StateId) -> (r: Result<(), FstError>)
        requires
            old(self).wf(),
        ensures
            final(self).wf(),
            old(self)@.has_state(state) ==> r is Ok && final(self)@ == old(self)@.with_state(
                state,
                StateModel { final_weight: None, ..old(self)@.states[state as int] },
            ),
            !old(self)@.has_state(state) ==> r == Err::<(), FstError>(
                FstError::InvalidState(state),
            ) && final(self)@ == old(self)@,
    {
        if state >= self.states.len() {
            return Err(FstError::InvalidState(state));
        }
        self.states[state].final_weight = None;
        assert(self@.states =~= old(self)@.states.update(
            state as int,
            StateModel { final_weight: None, ..old(self)@.states[state as int] },
        ));
        Ok(())
    }

    /// Removes every transition that leaves `state`.
    pub fn delete_trs(&mut self, state: StateId) -> (r: Result<(), FstError>)
        requires
            old(self).wf(),
        ensures
            final(self).wf(),
            old(self)@.has_state(state) ==> r is Ok && final(self)@ == old(self)@.with_state(
                state,
                StateModel { trs: Seq::empty(), ..old(self)@.states[state as int] },
            ),
            !old(self)@.has_state(state) ==> r == Err::<(), FstError>(
                FstError::InvalidState(state),
            ) && final(self)@ == old(self)@,
    {
        if state >= self.states.len() {
            return Err(FstError::InvalidState(state));
        }
        self.states[state].trs.clear();
        assert(self@.states =~= old(self)@.states.update(
            state as int,
            StateModel { trs: Seq::empty(), ..old(self)@.states[state as int] },
        ));
        Ok(())
    }

    /// Makes room for `additional` more states. The transducer is unchanged.
    pub fn reserve_states(&mut self, additional: usize)
        requires
            old(self).wf(),
        ensures
            final(self).wf(),
            final(self)@ == old(self)@,
    {
        self.states.reserve(additional);
        assert(self@.states =~= old(self)@.states);
    }

    /// Makes room for `additional` more transitions at `source`. The
    /// transducer is unchanged.
    pub fn reserve_trs(&mut self, source: StateId, additional: usize) -> (r: Result<
        (),
        FstError,
    >)
        requires
            old(self).wf(),
        ensures
            final(self).wf(),
            final(self)@ == old(self)@,
            r is Ok <==> old(self)@.has_state(source),
            r is Err ==> r == Err::<(), FstError>(FstError::InvalidState(source)),
    {
        if source >= self.states.len() {
            return Err(FstError::InvalidState(source));
        }
        self.states[source].trs.reserve(additional);
        assert(self@.states =~= old(self)@.states);
        Ok(())
    }

    /// The weight with which `state` is final, if it is.
    pub fn final_weight(&self, state: StateId) -> (r: Result<Option<W>, FstError>)
        ensures
            self@.has_state(state) ==> r == Ok::<Option<W>, FstError>(
                self@.states[state as int].final_weight,
            ),
            !self@.has_state(state) ==> r == Err::<Option<W>, FstError>(
                FstError::InvalidState(state),
            ),
    {
        if state >= self.states.len() {
            return Err(FstError::InvalidState(state));
        }
        Ok(self.states[state].final_weight)
    }

    /// Whether `state` is final.
    pub fn is_final(&self, state: StateId) -> (r: Result<bool, FstError>)
        ensures
            self@.has_state(state) ==> r == Ok::<bool, FstError>(
                self@.states[state as int].final_weight is Some,
            ),
            !self@.has_state(state) ==> r == Err::<bool, FstError>(
                FstError::InvalidState(state),
            ),
    {
        if state >= self.states.len() {
            return Err(FstError::InvalidState(state));
        }
        Ok(self.states[state].final_weight.is_some())
    }

    /// How many transitions leave `state`.
    pub fn num_trs(&self, state: StateId) -> (r: Result<usize, FstError>)
        ensures
            self@.has_state(state) ==> r is Ok && r->Ok_0 == self@.states[state as int].trs.len(),
            !self@.has_state(state) ==> r == Err::<usize, FstError>(
                FstError::InvalidState(state),
            ),
    {
        if state >= self.states.len() {
            return Err(FstError::InvalidState(state));
        }
        Ok(self.states[state].trs.len())
    }

    /// The transitions that leave `state`, in their order.
    pub fn get_trs(&self, state: StateId) -> (r: Result<&[Tr<W>], FstError>)
        ensures
            self@.has_state(state) ==> r is Ok && r->Ok_0@ == self@.states[state as int].trs,
            !self@.has_state(state) ==> r == Err::<&[Tr<W>], FstError>(
                FstError::InvalidState(state),
            ),
    {
        if state >= self.states.len() {
            return Err(FstError::InvalidState(state));
        }
        Ok(self.states[state].trs.as_slice())
    }

    /// The transitions that leave a state that is known to exist.
    pub fn trs(&self, state: StateId) -> (r: &Vec<Tr<W>>)
        requires
            self@.has_state(state),
        ensures
            r@ == self@.states[state as int].trs,
    {
        &self.states[state].trs
    }

    /// Whether `other` is the same transducer.
    pub fn same(&self, other: &Self) -> (b: bool)
        ensures
            b == (self@ == other@),
    {
        let n = self.states.len();
        if n != other.states.len() {
            assert(self@.states.len() != other@.states.len());
            return false;
        }
        match (self.start_state, other.start_state) {
            (None, None) => {},
            (Some(a), Some(b)) => {
                if a != b {
                    return false;
                }
            },
            _ => {
                return false;
            },
        }
        let mut s: usize = 0;
        while s < n
            invariant
                s <= n,
                n == self.states@.len(),
                n == other.states@.len(),
                self@.start == other@.start,
                forall|t: int| 0 <= t < s ==> self@.states[t] == other@.states[t],
            decreases n - s,
        {
            let a = &self.states[s];
            let b = &other.states[s];
            let finals = match (a.final_weight, b.final_weight) {
                (None, None) => true,
                (Some(x), Some(y)) => x.same(&y),
                _ => false,
            };
            if !finals || a.trs.len() != b.trs.len() {
                assert(self@.states[s as int] != other@.states[s as int]);
                return false;
            }
            let mut i: usize = 0;
            while i < a.trs.len()
                invariant
                    i <= a.trs@.len(),
                    a.trs@.len() == b.trs@.len(),
                    s < n,
                    a@ == self@.states[s as int],
                    b@ == other@.states[s as int],
                    forall|j: int| 0 <= j < i ==> a.trs@[j] == b.trs@[j],
                decreases a.trs.len() - i,
            {
                let x = &a.trs[i];
                let y = &b.trs[i];
                if x.ilabel != y.ilabel || x.olabel != y.olabel || x.nextstate != y.nextstate
                    || !x.weight.same(&y.weight) {
                    assert(a@.trs[i as int] != b@.trs[i as int]);
                    return false;
                }
                i = i + 1;
            }
            assert(a@.trs =~= b@.trs);
            s = s + 1;
        }
        assert(self@.states =~= other@.states);
        true
    }

    /// How many transitions of `state` have the empty string as input.
    pub fn num_input_epsilons(&self, state: StateId) -> (r: Result<usize, FstError>)
        ensures
            self@.has_state(state) ==> r is Ok && r->Ok_0
                == self@.states[state as int].num_input_epsilons(),
            !self@.has_state(state) ==> r == Err::<usize, FstError>(
                FstError::InvalidState(state),
            ),
    {
        if state >= self.states.len() {
            return Err(FstError::InvalidState(state));
        }
        let trs = &self.states[state].trs;
        let mut n: usize = 0;
        let mut i: usize = 0;
        while i < trs.len()
            invariant
                i <= trs.len(),
                n <= i,
                n == count_input_epsilons(trs@.take(i as int)),
            decreases trs.len() - i,
        {
            assert(trs@.take(i + 1).drop_last() =~= trs@.take(i as int));
            if trs[i].ilabel == EPS_LABEL {
                n = n + 1;
            }
            i = i + 1;
        }
        assert(trs@.take(i as int) =~= trs@);
        Ok(n)
    }

    /// How many transitions of `state` have the empty string as output.
    pub fn num_output_epsilons(&self, state: StateId) -> (r: Result<usize, FstError>)
        ensures
            self@.has_state(state) ==> r is Ok && r->Ok_0
                == self@.states[state as int].num_output_epsilons(),
            !self@.has_state(state) ==> r == Err::<usize, FstError>(
                FstError::InvalidState(state),
            ),
    {
        if state >= self.states.len() {
            return Err(FstError::InvalidState(state));
        }
        let trs = &self.states[state].trs;
        let mut n: usize = 0;
        let mut i: usize = 0;
        while i < trs.len()
            invariant
                i <= trs.len(),
                n <= i,
                n == count_output_epsilons(trs@.take(i as int)),
            decreases trs.len() - i,
        {
            assert(trs@.take(i + 1).drop_last() =~= trs@.take(i as int));
            if trs[i].olabel == EPS_LABEL {
                n = n + 1;
            }
            i = i + 1;
        }
        assert(trs@.take(i as int) =~= trs@);
        Ok(n)
    }
}

} // verus!
