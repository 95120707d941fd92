//! The composition of two transducers, computed on demand.

use vstd::prelude::*;

use crate::algorithms::compose::compose::operands_error;
use crate::algorithms::compose::compose_filters::compose_filter::model_of;
use crate::algorithms::compose::compose_filters::{ComposeFilter, SequenceComposeFilter};
use crate::algorithms::compose::compose_fst_op::{
    all_known, product_final, product_start, product_trs, reached_from_earlier, resolved,
    ComposeFstOp,
};
use crate::algorithms::compose::matchers::{Matcher, SortedMatcher};
use crate::algorithms::compose::state_table::{distinct, StateTuple};
use crate::algorithms::lazy::{is_expansion, FstOp, LazyFst};
use crate::error::FstError;
use crate::fst_impls::{FstModel, StateModel, VectorFst};
use crate::fst_properties::FstProperties;
use crate::semirings::Semiring;
use crate::tr::Tr;
use crate::StateId;

verus! {

/// `m` is the composition of `fst1` with `fst2` under the filter `CF`, with
/// `tuples` as its states in the order of their ids.
///
/// Without a start state in both transducers the composition is empty. Else
/// its start state is the pair of the two start states in the start state
/// of the filter, and has the id 0; each state has the transitions and the
/// final weight that the pairs of transitions of its two states give under
/// the filter; and every state but the start state is the target of a
/// transition of a state with a smaller id.
pub open spec fn is_composition<'a, W: Semiring + 'a, CF: ComposeFilter<'a, W>>(
    fst1: FstModel<W>,
    fst2: FstModel<W>,
    tuples: Seq<StateTuple<CF::FS>>,
    m: FstModel<W>,
) -> bool {
    match product_start::<W, CF>(fst1, fst2) {
        None => m == FstModel::<W>::empty(),
        Some(start) => {
            &&& distinct(tuples)
            &&& tuples.len() > 0
            &&& tuples[0] == start
            &&& m.start == Some(0usize)
            &&& m.states.len() == tuples.len()
            &&& forall|id: int|
                0 <= id < tuples.len() ==> all_known(
                    tuples,
                    product_trs::<W, CF>(fst1, fst2, tuples[id]),
                ) && #[trigger] m.states[id] == (StateModel {
                    final_weight: product_final::<W, CF>(fst1, fst2, tuples[id]),
                    trs: resolved(tuples, product_trs::<W, CF>(fst1, fst2, tuples[id])),
                })
            &&& forall|id: int|
                0 < id < tuples.len() ==> #[trigger] reached_from_earlier::<W, CF>(
                    fst1,
                    fst2,
                    tuples,
                    id,
                )
        },
    }
}

/// The composition of two transducers as a lazy transducer: its states are
/// computed when they are asked for, and remembered.
pub struct ComposeFst<'a, W: Semiring + 'a, CF: ComposeFilter<'a, W>> {
    lazy: LazyFst<W, ComposeFstOp<'a, W, CF>>,
}

impl<'a, W: Semiring + 'a, CF: ComposeFilter<'a, W>> ComposeFst<'a, W, CF> {
    /// The operation behind the composition, as it stands.
    pub closed spec fn op(&self) -> ComposeFstOp<'a, W, CF> {
        self.lazy.op()
    }

    /// The validity of the composition.
    pub closed spec fn inv(&self) -> bool {
        self.lazy.inv()
    }

    /// `self` is `old` after some queries.
    pub closed spec fn after(&self, old: &Self) -> bool {
        self.lazy.after(&old.lazy)
    }

    /// Later queries find what earlier ones made known.
    pub proof fn lemma_after(&self, old: &Self)
        requires
            self.after(old),
        ensures
            self.op().extends(&old.op()),
    {
    }

    /// The composition of `fst1` with `fst2`, each matched by a matcher of
    /// the kind that the filter names.
    pub fn new(fst1: &'a VectorFst<W>, fst2: &'a VectorFst<W>) -> (r: Result<Self, FstError>)
        requires
            fst1.wf(),
            fst2.wf(),
        ensures
            match ComposeFstOp::<W, CF>::new_spec(fst1@, fst2@, None, None) {
                Some(e) => r is Err && r->Err_0 == e,
                None => r is Ok && r->Ok_0.inv() && r->Ok_0.op().num_known() == 0
                    && r->Ok_0.op().fst1() == fst1@ && r->Ok_0.op().fst2() == fst2@,
            },
    {
        let op = ComposeFstOp::<W, CF>::new(fst1, fst2, None, None)?;
        Ok(ComposeFst { lazy: LazyFst::new(op) })
    }

    /// The composition of the transducers of two matchers.
    pub fn new_with_matchers(
        fst1: &'a VectorFst<W>,
        fst2: &'a VectorFst<W>,
        m1: Option<CF::M1>,
        m2: Option<CF::M2>,
    ) -> (r: Result<Self, FstError>)
        requires
            fst1.wf(),
            fst2.wf(),
            m1 matches Some(m) ==> m.inv(),
            m2 matches Some(m) ==> m.inv(),
        ensures
            match ComposeFstOp::<W, CF>::new_spec(fst1@, fst2@, model_of(m1), model_of(m2)) {
                Some(e) => r is Err && r->Err_0 == e,
                None => r is Ok && r->Ok_0.inv() && r->Ok_0.op().num_known() == 0,
            },
    {
        let op = ComposeFstOp::<W, CF>::new(fst1, fst2, m1, m2)?;
        Ok(ComposeFst { lazy: LazyFst::new(op) })
    }

    /// What is known of the shape of the composition.
    pub fn properties(&self) -> (p: FstProperties)
        requires
            self.inv(),
        ensures
            p == self.op().properties_spec(),
    {
        self.lazy.properties()
    }

    /// How many states of the composition have an id.
    pub fn num_known_states(&self) -> (n: usize)
        requires
            self.inv(),
        ensures
            n == self.op().num_known(),
    {
        self.lazy.num_known_states()
    }

    /// The start state: the state 0 if both transducers have a start state.
    pub fn start(&mut self) -> (r: Result<Option<StateId>, FstError>)
        requires
            old(self).inv(),
        ensures
            final(self).inv(),
            final(self).after(old(self)),
            r == Ok::<Option<StateId>, FstError>(old(self).op().start_spec()),
            r matches Ok(Some(s)) ==> s < final(self).op().num_known(),
    {
        self.lazy.start()
    }

    /// The transitions of the state `id`.
    pub fn get_trs(&mut self, id: StateId) -> (r: Result<Vec<Tr<W>>, FstError>)
        requires
            old(self).inv(),
        ensures
            final(self).inv(),
            final(self).after(old(self)),
            id < old(self).op().num_known() ==> r is Ok && final(self).op().expanded(id)
                && r->Ok_0@ == final(self).op().trs_spec(id),
            id >= old(self).op().num_known() ==> r == Err::<Vec<Tr<W>>, FstError>(
                FstError::InvalidState(id),
            ),
    {
        self.lazy.get_trs(id)
    }

    /// How many transitions the state `id` has.
    pub fn num_trs(&mut self, id: StateId) -> (r: Result<usize, FstError>)
        requires
            old(self).inv(),
        ensures
            final(self).inv(),
            final(self).after(old(self)),
            id < old(self).op().num_known() ==> r is Ok && final(self).op().expanded(id)
                && r->Ok_0 == final(self).op().trs_spec(id).len(),
            id >= old(self).op().num_known() ==> r == Err::<usize, FstError>(
                FstError::InvalidState(id),
            ),
    {
        self.lazy.num_trs(id)
    }

    /// The final weight of the state `id`.
    pub fn final_weight(&mut self, id: StateId) -> (r: Result<Option<W>, FstError>)
        requires
            old(self).inv(),
        ensures
            final(self).inv(),
            final(self).after(old(self)),
            id < old(self).op().num_known() ==> r == Ok::<Option<W>, FstError>(
                old(self).op().final_weight_spec(id),
            ),
            id >= old(self).op().num_known() ==> r == Err::<Option<W>, FstError>(
                FstError::InvalidState(id),
            ),
    {
        self.lazy.final_weight(id)
    }

    /// Turns the composition into a static transducer, every state
    /// computed.
    pub fn compute(&mut self) -> (r: Result<VectorFst<W>, FstError>)
        requires
            old(self).inv(),
        ensures
            final(self).inv(),
            final(self).after(old(self)),
            r is Ok,
            r->Ok_0.wf(),
            is_expansion(final(self).op(), r->Ok_0@),
            is_composition::<W, CF>(
                old(self).op().fst1(),
                old(self).op().fst2(),
                final(self).op().tuples(),
                r->Ok_0@,
            ),
    {
        proof {
            self.lazy.lemma_inv();
        }
        let r = self.lazy.compute();
        proof {
            self.lazy.lemma_inv();
            let op = self.lazy.op();
            op.lemma_valid();
            op.lemma_extends(&old(self).lazy.op());
            if op.start_spec() is Some {
                let m = r->Ok_0@;
                assert(op.tuples().len() > 0);
                assert forall|id: int| 0 <= id < op.tuples().len() implies all_known(
                    op.tuples(),
                    product_trs::<W, CF>(op.fst1(), op.fst2(), op.tuples()[id]),
                ) && #[trigger] m.states[id] == (StateModel {
                    final_weight: product_final::<W, CF>(op.fst1(), op.fst2(), op.tuples()[id]),
                    trs: resolved(
                        op.tuples(),
                        product_trs::<W, CF>(op.fst1(), op.fst2(), op.tuples()[id]),
                    ),
                }) by {
                    assert(op.expanded(id as StateId));
                }
            }
        }
        r
    }
}

/// What a composition answered when it was asked for a state is what the
/// static transducer holds that is computed from it later.
pub proof fn lemma_lazy_agrees_with_eager<W: Semiring, Op: FstOp<W>>(
    asked: Op,
    computed: Op,
    m: FstModel<W>,
    id: StateId,
)
    requires
        asked.inv(),
        computed.inv(),
        computed.extends(&asked),
        asked.expanded(id),
        is_expansion(computed, m),
        asked.start_spec() is Some,
    ensures
        m.start == asked.start_spec(),
        m.states[id as int].trs == asked.trs_spec(id),
        m.states[id as int].final_weight == asked.final_weight_spec(id),
{
    computed.lemma_extends(&asked);
    asked.lemma_inv();
    assert(computed.expanded(id));
}

impl<'a, W: Semiring + 'a> ComposeFst<
    'a,
    W,
    SequenceComposeFilter<SortedMatcher<'a, W>, SortedMatcher<'a, W>>,
> {
    /// The composition of `fst1` with `fst2` where no filter is asked for:
    /// under the filter that lets the first transducer move on the empty
    /// string before the second, with matchers that search the sorted
    /// transitions.
    pub fn new_auto(fst1: &'a VectorFst<W>, fst2: &'a VectorFst<W>) -> (r: Result<Self, FstError>)
        requires
            fst1.wf(),
            fst2.wf(),
        ensures
            match operands_error(fst1@, fst2@) {
                Some(e) => r is Err && r->Err_0 == e,
                None => r is Ok && r->Ok_0.inv() && r->Ok_0.op().num_known() == 0
                    && r->Ok_0.op().fst1() == fst1@ && r->Ok_0.op().fst2() == fst2@,
            },
    {
        Self::new(fst1, fst2)
    }
}

/// The composition of `fst1` with `fst2` under the filter `CF`, every state
/// computed.
pub fn compose_with_filter<'a, W: Semiring + 'a, CF: ComposeFilter<'a, W>>(
    fst1: &'a VectorFst<W>,
    fst2: &'a VectorFst<W>,
) -> (r: Result<VectorFst<W>, FstError>)
    requires
        fst1.wf(),
        fst2.wf(),
    ensures
        match ComposeFstOp::<W, CF>::new_spec(fst1@, fst2@, None, None) {
            Some(e) => r is Err && r->Err_0 == e,
            None => r is Ok && r->Ok_0.wf() && exists|tuples: Seq<StateTuple<CF::FS>>|
                is_composition::<W, CF>(fst1@, fst2@, tuples, r->Ok_0@),
        },
{
    let mut lazy = ComposeFst::<W, CF>::new(fst1, fst2)?;
    let r = lazy.compute();
    assert(is_composition::<W, CF>(fst1@, fst2@, lazy.op().tuples(), r->Ok_0@));
    r
}

} // verus!
