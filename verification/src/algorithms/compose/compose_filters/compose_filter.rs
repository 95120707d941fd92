//! What a compose filter is.

use vstd::prelude::*;

use crate::algorithms::compose::filter_states::FilterState;
use crate::algorithms::compose::matchers::{MatchType, Matcher};
use crate::algorithms::compose::state_table::StateTuple;
use crate::error::FstError;
use crate::fst_impls::{FstModel, StateModel, VectorFst};
use crate::semirings::Semiring;
use crate::tr::Tr;
use crate::{Label, StateId, EPS_LABEL, LOOP_LABEL, NO_LABEL};

verus! {

/// Whether `label` is the label of a symbol: neither the empty string nor a
/// sentinel.
pub open spec fn is_symbol(label: Label) -> bool {
    label != EPS_LABEL && label != LOOP_LABEL && label != NO_LABEL
}

/// Whether `label` is the label of a symbol.
pub fn label_is_symbol(label: Label) -> (b: bool)
    ensures
        b == is_symbol(label),
{
    label != EPS_LABEL && label != LOOP_LABEL && label != NO_LABEL
}

/// Every transition of the state emits the empty string, and the state is
/// not final.
pub open spec fn all_output_epsilons<W>(state: StateModel<W>) -> bool {
    state.trs.len() == state.num_output_epsilons() && state.final_weight is None
}

/// No transition of the state emits the empty string.
pub open spec fn no_output_epsilons<W>(state: StateModel<W>) -> bool {
    state.num_output_epsilons() == 0
}

/// Every transition of the state consumes the empty string, and the state is
/// not final.
pub open spec fn all_input_epsilons<W>(state: StateModel<W>) -> bool {
    state.trs.len() == state.num_input_epsilons() && state.final_weight is None
}

/// No transition of the state consumes the empty string.
pub open spec fn no_input_epsilons<W>(state: StateModel<W>) -> bool {
    state.num_input_epsilons() == 0
}

/// Whether all, and whether none, of the transitions of `state` emit the
/// empty string.
pub fn output_epsilons<W: Semiring>(fst: &VectorFst<W>, state: StateId) -> (r: Result<
    (bool, bool),
    FstError,
>)
    ensures
        fst@.has_state(state) ==> r == Ok::<(bool, bool), FstError>(
            (
                all_output_epsilons(fst@.states[state as int]),
                no_output_epsilons(fst@.states[state as int]),
            ),
        ),
        !fst@.has_state(state) ==> r == Err::<(bool, bool), FstError>(
            FstError::InvalidState(state),
        ),
{
    let na = fst.num_trs(state)?;
    let ne = fst.num_output_epsilons(state)?;
    let fin = fst.is_final(state)?;
    Ok((na == ne && !fin, ne == 0))
}

/// Whether all, and whether none, of the transitions of `state` consume the
/// empty string.
pub fn input_epsilons<W: Semiring>(fst: &VectorFst<W>, state: StateId) -> (r: Result<
    (bool, bool),
    FstError,
>)
    ensures
        fst@.has_state(state) ==> r == Ok::<(bool, bool), FstError>(
            (
                all_input_epsilons(fst@.states[state as int]),
                no_input_epsilons(fst@.states[state as int]),
            ),
        ),
        !fst@.has_state(state) ==> r == Err::<(bool, bool), FstError>(
            FstError::InvalidState(state),
        ),
{
    let na = fst.num_trs(state)?;
    let ne = fst.num_input_epsilons(state)?;
    let fin = fst.is_final(state)?;
    Ok((na == ne && !fin, ne == 0))
}

/// What counts of a matcher that is handed to a filter: its transducer and
/// the side on which it matches.
pub ghost struct MatcherModel<W> {
    pub fst: FstModel<W>,
    pub match_type: MatchType,
}

/// What counts of the matcher `m`, if there is one.
pub open spec fn model_of<'a, W: Semiring + 'a, M: Matcher<'a, W>>(m: Option<M>) -> Option<
    MatcherModel<W>,
> {
    match m {
        Some(m) => Some(MatcherModel { fst: m.fst_spec(), match_type: m.match_type_spec() }),
        None => None,
    }
}

/// Why the two matchers of a filter cannot be had, if they cannot: a matcher
/// that is not handed in is made for the transducer, the first on the side
/// of the output labels and the second on the side of the input labels.
pub open spec fn matchers_spec<'a, W: Semiring + 'a, M1: Matcher<'a, W>, M2: Matcher<'a, W>>(
    fst1: FstModel<W>,
    fst2: FstModel<W>,
    m1: Option<MatcherModel<W>>,
    m2: Option<MatcherModel<W>>,
) -> Option<FstError> {
    if m1 is None && M1::new_spec(fst1, MatchType::MatchOutput) is Some {
        M1::new_spec(fst1, MatchType::MatchOutput)
    } else if m2 is None {
        M2::new_spec(fst2, MatchType::MatchInput)
    } else {
        None
    }
}

/// The two matchers of a filter.
pub fn make_matchers<'a, W: Semiring + 'a, M1: Matcher<'a, W>, M2: Matcher<'a, W>>(
    fst1: &'a VectorFst<W>,
    fst2: &'a VectorFst<W>,
    m1: Option<M1>,
    m2: Option<M2>,
) -> (r: Result<(M1, M2), FstError>)
    requires
        fst1.wf(),
        fst2.wf(),
        m1 matches Some(m) ==> m.inv(),
        m2 matches Some(m) ==> m.inv(),
    ensures
        match matchers_spec::<W, M1, M2>(fst1@, fst2@, model_of(m1), model_of(m2)) {
            Some(e) => r is Err && r->Err_0 == e,
            None => r is Ok && bound_to(
                r->Ok_0.0,
                r->Ok_0.1,
                fst1@,
                fst2@,
                model_of(m1),
                model_of(m2),
            ),
        },
{
    let matcher1 = match m1 {
        Some(m) => m,
        None => M1::new(fst1, MatchType::MatchOutput)?,
    };
    let matcher2 = match m2 {
        Some(m) => m,
        None => M2::new(fst2, MatchType::MatchInput)?,
    };
    Ok((matcher1, matcher2))
}

/// The matchers `matcher1` and `matcher2` match as those handed in do, or
/// were made for the transducers.
pub open spec fn bound_to<'a, W: Semiring + 'a, M1: Matcher<'a, W>, M2: Matcher<'a, W>>(
    matcher1: M1,
    matcher2: M2,
    fst1: FstModel<W>,
    fst2: FstModel<W>,
    m1: Option<MatcherModel<W>>,
    m2: Option<MatcherModel<W>>,
) -> bool {
    &&& matcher1.inv()
    &&& matcher2.inv()
    &&& match m1 {
        Some(m) => matcher1.fst_spec() == m.fst && matcher1.match_type_spec() == m.match_type,
        None => matcher1.fst_spec() == fst1 && matcher1.match_type_spec()
            == MatchType::MatchOutput,
    }
    &&& match m2 {
        Some(m) => matcher2.fst_spec() == m.fst && matcher2.match_type_spec() == m.match_type,
        None => matcher2.fst_spec() == fst2 && matcher2.match_type_spec() == MatchType::MatchInput,
    }
}

/// A compose filter: a state machine over filter states that says, for each
/// pair of transitions that a composition considers, whether the pair is
/// kept, and in which filter state the composition goes on.
///
/// What a filter decides is a function of the two transducers, of the state
/// of the composition that is expanded, and of the pair: the specification
/// functions give it.
pub trait ComposeFilter<'a, W: Semiring + 'a>: Sized {
    type M1: Matcher<'a, W>;

    type M2: Matcher<'a, W>;

    type FS: FilterState;

    /// The validity of the filter.
    spec fn inv(&self) -> bool;

    spec fn matcher1_spec(&self) -> Self::M1;

    spec fn matcher2_spec(&self) -> Self::M2;

    /// Whether the filter was told of a state of the composition.
    spec fn ready(&self) -> bool;

    /// The state of the composition that the filter was last told of.
    spec fn at(&self) -> StateTuple<Self::FS>;

    /// Why the filter cannot be made, if it cannot.
    spec fn new_spec(
        fst1: FstModel<W>,
        fst2: FstModel<W>,
        m1: Option<MatcherModel<W>>,
        m2: Option<MatcherModel<W>>,
    ) -> Option<FstError>;

    /// The filter state of the start state of a composition.
    spec fn start_spec() -> Self::FS;

    /// What the filter makes of the pair `(tr1, tr2)` at the state `at` of
    /// the composition: the next filter state, or none if the pair is
    /// forbidden, and the two transitions as the filter rewrites them.
    spec fn filter_tr_spec(
        fst1: FstModel<W>,
        fst2: FstModel<W>,
        at: StateTuple<Self::FS>,
        tr1: Tr<W>,
        tr2: Tr<W>,
    ) -> (Self::FS, Tr<W>, Tr<W>);

    /// What the filter makes of the two final weights at the state `at`.
    spec fn filter_final_spec(at: StateTuple<Self::FS>, w1: W, w2: W) -> (W, W);

    /// The filter states that the filter goes through.
    spec fn valid_fs(fs: Self::FS) -> bool;

    /// A number for each of the filter states that the filter goes through.
    spec fn fs_index(fs: Self::FS) -> nat;

    /// How many filter states the filter goes through, at most.
    spec fn fs_count() -> nat;

    /// The filter goes through few filter states, the start state among
    /// them, and numbers them apart.
    proof fn lemma_filter_states(a: Self::FS, b: Self::FS)
        ensures
            Self::valid_fs(Self::start_spec()),
            Self::valid_fs(a) ==> Self::fs_index(a) < Self::fs_count(),
            Self::valid_fs(a) && Self::valid_fs(b) && Self::fs_index(a) == Self::fs_index(b) ==> a
                == b,
    ;

    /// The filter leaves the targets of the two transitions as they are, and
    /// goes on in one of its filter states unless it forbids the pair.
    proof fn lemma_filter_tr(
        fst1: FstModel<W>,
        fst2: FstModel<W>,
        at: StateTuple<Self::FS>,
        tr1: Tr<W>,
        tr2: Tr<W>,
    )
        ensures
            ({
                let (fs, t1, t2) = Self::filter_tr_spec(fst1, fst2, at, tr1, tr2);
                &&& t1.nextstate == tr1.nextstate
                &&& t2.nextstate == tr2.nextstate
                &&& fs == Self::FS::no_state_spec() || Self::valid_fs(fs)
            }),
    ;

    /// The matchers of a valid filter are valid, and a state that the filter
    /// was told of is a state of both transducers.
    proof fn lemma_inv(&self)
        requires
            self.inv(),
        ensures
            self.matcher1_spec().inv(),
            self.matcher2_spec().inv(),
            self.ready() ==> self.matcher1_spec().fst_spec().has_state(self.at().s1)
                && self.matcher2_spec().fst_spec().has_state(self.at().s2),
    ;

    /// The filter for the composition of `fst1` with `fst2`.
    fn new(
        fst1: &'a VectorFst<W>,
        fst2: &'a VectorFst<W>,
        m1: Option<Self::M1>,
        m2: Option<Self::M2>,
    ) -> (r: Result<Self, FstError>)
        requires
            fst1.wf(),
            fst2.wf(),
            m1 matches Some(m) ==> m.inv(),
            m2 matches Some(m) ==> m.inv(),
        ensures
            match Self::new_spec(fst1@, fst2@, model_of(m1), model_of(m2)) {
                Some(e) => r is Err && r->Err_0 == e,
                None => r is Ok && r->Ok_0.inv() && bound_to(
                    r->Ok_0.matcher1_spec(),
                    r->Ok_0.matcher2_spec(),
                    fst1@,
                    fst2@,
                    model_of(m1),
                    model_of(m2),
                ),
            },
    ;

    fn start(&self) -> (fs: Self::FS)
        requires
            self.inv(),
        ensures
            fs == Self::start_spec(),
    ;

    /// Tells the filter which state of the composition is expanded next.
    fn set_state(&mut self, s1: StateId, s2: StateId, filter_state: &Self::FS) -> (r: Result<
        (),
        FstError,
    >)
        requires
            old(self).inv(),
        ensures
            final(self).inv(),
            final(self).matcher1_spec() == old(self).matcher1_spec(),
            final(self).matcher2_spec() == old(self).matcher2_spec(),
            old(self).matcher1_spec().fst_spec().has_state(s1)
                && old(self).matcher2_spec().fst_spec().has_state(s2)
                ==> r is Ok && final(self).ready()
                && final(self).at() == (StateTuple { s1, s2, fs: *filter_state }),
            r is Err ==> !(old(self).matcher1_spec().fst_spec().has_state(s1)
                && old(self).matcher2_spec().fst_spec().has_state(s2)),
    ;

    /// Decides on the pair `(tr1, tr2)`. The decision is owed where the two
    /// transitions lead to states of the two transducers.
    fn filter_tr(&mut self, tr1: &mut Tr<W>, tr2: &mut Tr<W>) -> (r: Result<Self::FS, FstError>)
        requires
            old(self).inv(),
            old(self).ready(),
        ensures
            final(self).inv(),
            final(self).ready(),
            final(self).at() == old(self).at(),
            final(self).matcher1_spec() == old(self).matcher1_spec(),
            final(self).matcher2_spec() == old(self).matcher2_spec(),
            old(self).matcher1_spec().fst_spec().has_state(old(tr1).nextstate)
                && old(self).matcher2_spec().fst_spec().has_state(old(tr2).nextstate) ==> r is Ok,
            r matches Ok(fs) ==> (fs, *final(tr1), *final(tr2)) == Self::filter_tr_spec(
                old(self).matcher1_spec().fst_spec(),
                old(self).matcher2_spec().fst_spec(),
                old(self).at(),
                *old(tr1),
                *old(tr2),
            ),
    ;

    /// Rewrites the two final weights before they are multiplied.
    fn filter_final(&self, w1: &mut W, w2: &mut W)
        requires
            self.inv(),
            self.ready(),
        ensures
            (*final(w1), *final(w2)) == Self::filter_final_spec(self.at(), *old(w1), *old(w2)),
    ;

    fn matcher1(&self) -> (m: &Self::M1)
        requires
            self.inv(),
        ensures
            *m == self.matcher1_spec(),
    ;

    fn matcher2(&self) -> (m: &Self::M2)
        requires
            self.inv(),
        ensures
            *m == self.matcher2_spec(),
    ;
}

} // verus!
