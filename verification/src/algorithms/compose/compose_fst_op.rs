//! The operation that computes a composition state by state.

use core::marker::PhantomData;
use vstd::prelude::*;

use crate::algorithms::compose::candidates::{
    all_pairs, candidate_pairs, candidates, epsilon_pairs, loop1, loop2, matched_from_first,
    matched_from_second, matched_pairs, pairs_from, pairs_with, TrPair,
};
use crate::algorithms::compose::compose_filters::compose_filter::{model_of, MatcherModel};
use crate::algorithms::compose::compose_filters::ComposeFilter;
use crate::algorithms::compose::filter_states::FilterState;
use crate::algorithms::compose::matchers::{select_trs, MatchType, Matcher};
use crate::algorithms::compose::state_table::{
    distinct, id_of, is_prefix, known, lemma_distinct_codes, lemma_id_of, lemma_id_of_prefix,
    StateTable, StateTuple,
};
use crate::algorithms::lazy::FstOp;
use crate::error::FstError;
use crate::fst_impls::{FstModel, VectorFst};
use crate::fst_properties::{
    compose_properties, compose_properties_spec, properties_spec, FstProperties,
};
use crate::semirings::Semiring;
use crate::tr::Tr;
use crate::{Label, StateId, EPS_LABEL};

verus! {

/// A transition of a composition, before the state that it leads to has
/// an id.
pub ghost struct ProductTr<W, FS> {
    pub ilabel: Label,
    pub olabel: Label,
    pub weight: W,
    pub next: StateTuple<FS>,
}

/// The transitions that the pairs `pairs` give at the state `at` of the
/// composition of `fst1` with `fst2` under the filter `CF`: a pair that the
/// filter keeps gives the transition that consumes what the first
/// transition consumes, emits what the second emits, has the product of the
/// two weights as weight, and leads to the two targets, in the filter state
/// that the filter says.
pub open spec fn emit<'a, W: Semiring + 'a, CF: ComposeFilter<'a, W>>(
    fst1: FstModel<W>,
    fst2: FstModel<W>,
    at: StateTuple<CF::FS>,
    pairs: Seq<TrPair<W>>,
) -> Seq<ProductTr<W, CF::FS>>
    decreases pairs.len(),
{
    if pairs.len() == 0 {
        Seq::empty()
    } else {
        let rest = emit::<W, CF>(fst1, fst2, at, pairs.drop_last());
        let (fs, t1, t2) = CF::filter_tr_spec(fst1, fst2, at, pairs.last().0, pairs.last().1);
        if fs == CF::FS::no_state_spec() {
            rest
        } else {
            rest.push(
                ProductTr {
                    ilabel: t1.ilabel,
                    olabel: t2.olabel,
                    weight: t1.weight.times_spec(t2.weight),
                    next: StateTuple { s1: t1.nextstate, s2: t2.nextstate, fs },
                },
            )
        }
    }
}

/// The transitions of the state `at` of the composition.
pub open spec fn product_trs<'a, W: Semiring + 'a, CF: ComposeFilter<'a, W>>(
    fst1: FstModel<W>,
    fst2: FstModel<W>,
    at: StateTuple<CF::FS>,
) -> Seq<ProductTr<W, CF::FS>> {
    emit::<W, CF>(fst1, fst2, at, candidates(fst1, fst2, at.s1, at.s2))
}

/// The final weight of the state `at` of the composition: where both states
/// are final, the product of the two final weights as the filter rewrites
/// them.
pub open spec fn product_final<'a, W: Semiring + 'a, CF: ComposeFilter<'a, W>>(
    fst1: FstModel<W>,
    fst2: FstModel<W>,
    at: StateTuple<CF::FS>,
) -> Option<W> {
    match (fst1.states[at.s1 as int].final_weight, fst2.states[at.s2 as int].final_weight) {
        (Some(w1), Some(w2)) => {
            let (f1, f2) = CF::filter_final_spec(at, w1, w2);
            Some(f1.times_spec(f2))
        },
        _ => None,
    }
}

/// The state where a composition starts, if both transducers have a start
/// state.
pub open spec fn product_start<'a, W: Semiring + 'a, CF: ComposeFilter<'a, W>>(
    fst1: FstModel<W>,
    fst2: FstModel<W>,
) -> Option<StateTuple<CF::FS>> {
    match (fst1.start, fst2.start) {
        (Some(s1), Some(s2)) => Some(StateTuple { s1, s2, fs: CF::start_spec() }),
        _ => None,
    }
}

/// `tr` is `ptr` with the id that `tuples` gives to its target.
pub open spec fn resolves_one<W, FS>(
    tuples: Seq<StateTuple<FS>>,
    ptr: ProductTr<W, FS>,
    tr: Tr<W>,
) -> bool {
    &&& tr.ilabel == ptr.ilabel
    &&& tr.olabel == ptr.olabel
    &&& tr.weight == ptr.weight
    &&& tr.nextstate < tuples.len()
    &&& tuples[tr.nextstate as int] == ptr.next
}

/// `trs` are `ptrs`, each with the id that `tuples` gives to its target.
pub open spec fn resolves<W, FS>(
    tuples: Seq<StateTuple<FS>>,
    ptrs: Seq<ProductTr<W, FS>>,
    trs: Seq<Tr<W>>,
) -> bool {
    &&& trs.len() == ptrs.len()
    &&& forall|k: int| 0 <= k < trs.len() ==> resolves_one(tuples, ptrs[k], #[trigger] trs[k])
}

/// `ptrs`, each with the id that `tuples` gives to its target.
pub open spec fn resolved<W, FS>(tuples: Seq<StateTuple<FS>>, ptrs: Seq<ProductTr<W, FS>>) -> Seq<
    Tr<W>,
> {
    Seq::new(
        ptrs.len(),
        |k: int|
            Tr {
                ilabel: ptrs[k].ilabel,
                olabel: ptrs[k].olabel,
                weight: ptrs[k].weight,
                nextstate: id_of(tuples, ptrs[k].next) as StateId,
            },
    )
}

/// Every target of `ptrs` has an id in `tuples`.
pub open spec fn all_known<W, FS>(tuples: Seq<StateTuple<FS>>, ptrs: Seq<ProductTr<W, FS>>) -> bool {
    forall|k: int| 0 <= k < ptrs.len() ==> known(tuples, (#[trigger] ptrs[k]).next)
}

/// Where no tuple has two ids, the transitions with ids are determined.
pub proof fn lemma_resolves<W, FS>(
    tuples: Seq<StateTuple<FS>>,
    ptrs: Seq<ProductTr<W, FS>>,
    trs: Seq<Tr<W>>,
)
    requires
        distinct(tuples),
        tuples.len() <= usize::MAX,
    ensures
        resolves(tuples, ptrs, trs) <==> all_known(tuples, ptrs) && trs == resolved(tuples, ptrs),
{
    if resolves(tuples, ptrs, trs) {
        assert forall|k: int| 0 <= k < ptrs.len() implies known(
            tuples,
            (#[trigger] ptrs[k]).next,
        ) && trs[k] == resolved(tuples, ptrs)[k] by {
            assert(resolves_one(tuples, ptrs[k], trs[k]));
            lemma_id_of(tuples, trs[k].nextstate as int);
        }
        assert(trs =~= resolved(tuples, ptrs));
    }
    if all_known(tuples, ptrs) && trs == resolved(tuples, ptrs) {
        assert forall|k: int| 0 <= k < trs.len() implies resolves_one(
            tuples,
            ptrs[k],
            #[trigger] trs[k],
        ) by {
            assert(known(tuples, ptrs[k].next));
            assert(0 <= id_of(tuples, ptrs[k].next) < tuples.len());
        }
    }
}

/// Every transition of `trs` leads to a state below `n`.
pub open spec fn leads_below<W>(trs: Seq<Tr<W>>, n: nat) -> bool {
    forall|i: int| 0 <= i < trs.len() ==> (#[trigger] trs[i]).nextstate < n
}

/// In every pair, the first transition leads to a state below `n1` and the
/// second to a state below `n2`.
pub open spec fn pairs_below<W>(pairs: Seq<TrPair<W>>, n1: nat, n2: nat) -> bool {
    forall|k: int|
        0 <= k < pairs.len() ==> (#[trigger] pairs[k]).0.nextstate < n1 && pairs[k].1.nextstate
            < n2
}

proof fn lemma_select_below<W>(trs: Seq<Tr<W>>, match_type: MatchType, label: Label, n: nat)
    requires
        leads_below(trs, n),
    ensures
        leads_below(select_trs(trs, match_type, label), n),
    decreases trs.len(),
{
    if trs.len() > 0 {
        assert(leads_below(trs.drop_last(), n)) by {
            assert forall|i: int| 0 <= i < trs.drop_last().len() implies (
            #[trigger] trs.drop_last()[i]).nextstate < n by {
                assert(trs.drop_last()[i] == trs[i]);
            }
        }
        lemma_select_below(trs.drop_last(), match_type, label, n);
        let _ = trs[trs.len() - 1];
    }
}

proof fn lemma_all_pairs_below<W>(trs1: Seq<Tr<W>>, trs2: Seq<Tr<W>>, n1: nat, n2: nat)
    requires
        leads_below(trs1, n1),
        leads_below(trs2, n2),
    ensures
        pairs_below(all_pairs(trs1, trs2), n1, n2),
    decreases trs1.len(),
{
    if trs1.len() > 0 {
        assert(leads_below(trs1.drop_last(), n1)) by {
            assert forall|i: int| 0 <= i < trs1.drop_last().len() implies (
            #[trigger] trs1.drop_last()[i]).nextstate < n1 by {
                assert(trs1.drop_last()[i] == trs1[i]);
            }
        }
        lemma_all_pairs_below(trs1.drop_last(), trs2, n1, n2);
        let _ = trs1[trs1.len() - 1];
    }
}

proof fn lemma_matched_first_below<W>(
    trs1: Seq<Tr<W>>,
    trs2: Seq<Tr<W>>,
    k: nat,
    n1: nat,
    n2: nat,
)
    requires
        k <= trs1.len(),
        leads_below(trs1, n1),
        leads_below(trs2, n2),
    ensures
        pairs_below(matched_from_first(trs1, trs2, k), n1, n2),
    decreases k,
{
    if k > 0 {
        lemma_matched_first_below(trs1, trs2, (k - 1) as nat, n1, n2);
        let tr1 = trs1[k - 1];
        lemma_select_below(trs2, MatchType::MatchInput, tr1.olabel, n2);
    }
}

proof fn lemma_matched_second_below<W>(
    trs1: Seq<Tr<W>>,
    trs2: Seq<Tr<W>>,
    k: nat,
    n1: nat,
    n2: nat,
)
    requires
        k <= trs2.len(),
        leads_below(trs1, n1),
        leads_below(trs2, n2),
    ensures
        pairs_below(matched_from_second(trs1, trs2, k), n1, n2),
    decreases k,
{
    if k > 0 {
        lemma_matched_second_below(trs1, trs2, (k - 1) as nat, n1, n2);
        let tr2 = trs2[k - 1];
        lemma_select_below(trs1, MatchType::MatchOutput, tr2.ilabel, n1);
    }
}

/// The pairs that a composition considers lead to states of the two
/// transducers.
pub proof fn lemma_candidates_below<W: Semiring>(
    fst1: FstModel<W>,
    fst2: FstModel<W>,
    s1: StateId,
    s2: StateId,
)
    requires
        fst1.wf(),
        fst2.wf(),
        fst1.has_state(s1),
        fst2.has_state(s2),
    ensures
        pairs_below(candidates(fst1, fst2, s1, s2), fst1.states.len(), fst2.states.len()),
{
    let trs1 = fst1.states[s1 as int].trs;
    let trs2 = fst2.states[s2 as int].trs;
    let n1 = fst1.states.len();
    let n2 = fst2.states.len();
    assert(leads_below(trs1, n1)) by {
        assert forall|i: int| 0 <= i < trs1.len() implies (#[trigger] trs1[i]).nextstate < n1 by {
            assert(fst1.has_state(fst1.states[s1 as int].trs[i].nextstate));
        }
    }
    assert(leads_below(trs2, n2)) by {
        assert forall|i: int| 0 <= i < trs2.len() implies (#[trigger] trs2[i]).nextstate < n2 by {
            assert(fst2.has_state(fst2.states[s2 as int].trs[i].nextstate));
        }
    }
    lemma_matched_first_below(trs1, trs2, trs1.len(), n1, n2);
    lemma_matched_second_below(trs1, trs2, trs2.len(), n1, n2);
    lemma_select_below(trs1, MatchType::MatchOutput, EPS_LABEL, n1);
    lemma_select_below(trs2, MatchType::MatchInput, EPS_LABEL, n2);
    let eps1 = select_trs(trs1, MatchType::MatchOutput, EPS_LABEL);
    let eps2 = select_trs(trs2, MatchType::MatchInput, EPS_LABEL);
    lemma_all_pairs_below(eps1, eps2, n1, n2);
    assert(pairs_below(matched_pairs(trs1, trs2), n1, n2));
    assert(pairs_below(pairs_with(eps1, loop2::<W>(s2)), n1, n2));
    assert(pairs_below(pairs_from(loop1::<W>(s1), eps2), n1, n2));
}

/// The transitions that the first pairs give are the first transitions that
/// all the pairs give.
pub proof fn lemma_emit_prefix<'a, W: Semiring + 'a, CF: ComposeFilter<'a, W>>(
    fst1: FstModel<W>,
    fst2: FstModel<W>,
    at: StateTuple<CF::FS>,
    pairs: Seq<TrPair<W>>,
    j: int,
)
    requires
        0 <= j <= pairs.len(),
    ensures
        is_prefix(emit::<W, CF>(fst1, fst2, at, pairs.take(j)), emit::<W, CF>(fst1, fst2, at,
            pairs)),
    decreases pairs.len(),
{
    if j == pairs.len() {
        assert(pairs.take(j) =~= pairs);
    } else {
        lemma_emit_prefix::<W, CF>(fst1, fst2, at, pairs.drop_last(), j);
        assert(pairs.drop_last().take(j) =~= pairs.take(j));
    }
}

/// The state with the id `id` is the target of a transition of a state
/// with a smaller id.
pub open spec fn reached_from_earlier<'a, W: Semiring + 'a, CF: ComposeFilter<'a, W>>(
    fst1: FstModel<W>,
    fst2: FstModel<W>,
    tuples: Seq<StateTuple<CF::FS>>,
    id: int,
) -> bool {
    exists|p: int, k: int|
        0 <= p < id && 0 <= k < product_trs::<W, CF>(fst1, fst2, tuples[p]).len()
            && #[trigger] product_trs::<W, CF>(fst1, fst2, tuples[p])[k].next == tuples[id]
}

/// The number of a state of a composition among `n1 * n2 * count` numbers,
/// from its two states, below `n1` and `n2`, and the number of its filter
/// state, below `count`.
pub open spec fn tuple_code(s1: int, s2: int, index: int, n2: int, count: int) -> int {
    (s1 * n2 + s2) * count + index
}

/// The numbers of the states of a composition are below the product of the
/// three counts, and tell the states apart.
proof fn lemma_tuple_code(
    s1: int,
    s2: int,
    index: int,
    t1: int,
    t2: int,
    jndex: int,
    n1: int,
    n2: int,
    count: int,
)
    requires
        0 <= s1 < n1,
        0 <= s2 < n2,
        0 <= index < count,
        0 <= t1 < n1,
        0 <= t2 < n2,
        0 <= jndex < count,
    ensures
        0 <= tuple_code(s1, s2, index, n2, count) < n1 * n2 * count,
        tuple_code(s1, s2, index, n2, count) == tuple_code(t1, t2, jndex, n2, count) ==> s1 == t1
            && s2 == t2 && index == jndex,
{
    let a = s1 * n2 + s2;
    let b = t1 * n2 + t2;
    assert(0 <= a < n1 * n2) by (nonlinear_arith)
        requires
            0 <= s1 < n1,
            0 <= s2 < n2,
            a == s1 * n2 + s2,
    ;
    assert(0 <= a * count + index < n1 * n2 * count) by (nonlinear_arith)
        requires
            0 <= a < n1 * n2,
            0 <= index < count,
    ;
    if tuple_code(s1, s2, index, n2, count) == tuple_code(t1, t2, jndex, n2, count) {
        assert(a == b && index == jndex) by (nonlinear_arith)
            requires
                a * count + index == b * count + jndex,
                0 <= index < count,
                0 <= jndex < count,
        ;
        assert(s1 == t1 && s2 == t2) by (nonlinear_arith)
            requires
                s1 * n2 + s2 == t1 * n2 + t2,
                0 <= s2 < n2,
                0 <= t2 < n2,
        ;
    }
}

/// The operation that computes the composition of two transducers under the
/// filter `CF`. Its states are the triples of a state of the first
/// transducer, a state of the second and a filter state that are reached
/// from the start; each gets an id when it is first met.
pub struct ComposeFstOp<'a, W: Semiring + 'a, CF: ComposeFilter<'a, W>> {
    compose_filter: CF,
    state_table: StateTable<CF::FS>,
    properties: FstProperties,
    marker: PhantomData<&'a W>,
}

impl<'a, W: Semiring + 'a, CF: ComposeFilter<'a, W>> ComposeFstOp<'a, W, CF> {
    /// The first transducer.
    pub closed spec fn fst1(&self) -> FstModel<W> {
        self.compose_filter.matcher1_spec().fst_spec()
    }

    /// The second transducer.
    pub closed spec fn fst2(&self) -> FstModel<W> {
        self.compose_filter.matcher2_spec().fst_spec()
    }

    /// The states of the composition that have an id, in the order of their
    /// ids.
    pub closed spec fn tuples(&self) -> Seq<StateTuple<CF::FS>> {
        self.state_table@
    }

    /// The validity of the operation: no state has two ids, every state
    /// with an id is made of a state of each transducer and of a filter
    /// state of the filter, and the start state is the one with the id 0.
    pub closed spec fn valid(&self) -> bool {
        &&& self.compose_filter.inv()
        &&& self.state_table.inv()
        &&& self.compose_filter.matcher1_spec().match_type_spec() == MatchType::MatchOutput
        &&& self.compose_filter.matcher2_spec().match_type_spec() == MatchType::MatchInput
        &&& forall|i: int|
            0 <= i < self.tuples().len() ==> self.fst1().has_state((#[trigger] self.tuples()[i]).s1)
                && self.fst2().has_state(self.tuples()[i].s2) && CF::valid_fs(
                self.tuples()[i].fs,
            )
        &&& self.tuples().len() > 0 ==> product_start::<W, CF>(self.fst1(), self.fst2()) == Some(
            self.tuples()[0],
        )
        &&& forall|id: int|
            0 < id < self.tuples().len() ==> #[trigger] reached_from_earlier::<W, CF>(
                self.fst1(),
                self.fst2(),
                self.tuples(),
                id,
            )
    }

    /// Unfolds the validity of the operation.
    pub proof fn lemma_valid(&self)
        requires
            self.valid(),
        ensures
            distinct(self.tuples()),
            self.tuples().len() <= usize::MAX,
            forall|i: int|
                0 <= i < self.tuples().len() ==> self.fst1().has_state(
                    (#[trigger] self.tuples()[i]).s1,
                ) && self.fst2().has_state(self.tuples()[i].s2),
            self.tuples().len() > 0 ==> product_start::<W, CF>(self.fst1(), self.fst2()) == Some(
                self.tuples()[0],
            ),
            forall|id: int|
                0 < id < self.tuples().len() ==> #[trigger] reached_from_earlier::<W, CF>(
                    self.fst1(),
                    self.fst2(),
                    self.tuples(),
                    id,
                ),
    {
        self.state_table.lemma_inv();
    }

    /// Why the operation cannot be made, if it cannot: the filter cannot, or
    /// a matcher that was handed in matches on the wrong side.
    pub open spec fn new_spec(
        fst1: FstModel<W>,
        fst2: FstModel<W>,
        m1: Option<MatcherModel<W>>,
        m2: Option<MatcherModel<W>>,
    ) -> Option<FstError> {
        if CF::new_spec(fst1, fst2, m1, m2) is Some {
            CF::new_spec(fst1, fst2, m1, m2)
        } else if (m1 matches Some(m) && m.match_type != MatchType::MatchOutput) || (
        m2 matches Some(m) && m.match_type != MatchType::MatchInput) {
            Some(FstError::IncompatibleMatchType)
        } else {
            None
        }
    }

    /// The operation for the composition of `fst1` with `fst2`, or of the
    /// transducers of the matchers that are handed in.
    pub fn new(
        fst1: &'a VectorFst<W>,
        fst2: &'a VectorFst<W>,
        m1: Option<CF::M1>,
        m2: Option<CF::M2>,
    ) -> (r: Result<Self, FstError>)
        requires
            fst1.wf(),
            fst2.wf(),
            m1 matches Some(m) ==> m.inv(),
            m2 matches Some(m) ==> m.inv(),
        ensures
            match Self::new_spec(fst1@, fst2@, model_of(m1), model_of(m2)) {
                Some(e) => r is Err && r->Err_0 == e,
                None => r is Ok && r->Ok_0.valid() && r->Ok_0.tuples().len() == 0 && r->Ok_0.fst1()
                    == (match m1 {
                    Some(m) => m.fst_spec(),
                    None => fst1@,
                }) && r->Ok_0.fst2() == (match m2 {
                    Some(m) => m.fst_spec(),
                    None => fst2@,
                }) && r->Ok_0.properties_spec().bits == compose_properties_spec(
                    properties_spec(r->Ok_0.fst1()),
                    properties_spec(r->Ok_0.fst2()),
                ),
            },
    {
        let compose_filter = CF::new(fst1, fst2, m1, m2)?;
        proof {
            compose_filter.lemma_inv();
        }
        if compose_filter.matcher1().match_type() != MatchType::MatchOutput {
            return Err(FstError::IncompatibleMatchType);
        }
        if compose_filter.matcher2().match_type() != MatchType::MatchInput {
            return Err(FstError::IncompatibleMatchType);
        }
        let properties = compose_properties(
            compose_filter.matcher1().fst().properties(),
            compose_filter.matcher2().fst().properties(),
        );
        Ok(
            ComposeFstOp {
                compose_filter,
                state_table: StateTable::new(),
                properties,
                marker: PhantomData,
            },
        )
    }

    /// The state of the composition that has the id `id`.
    pub fn tuple(&self, id: StateId) -> (r: Option<StateTuple<CF::FS>>)
        ensures
            id < self.tuples().len() ==> r == Some(self.tuples()[id as int]),
            id >= self.tuples().len() ==> r is None,
    {
        self.state_table.tuple(id)
    }
}

impl<'a, W: Semiring + 'a, CF: ComposeFilter<'a, W>> FstOp<W> for ComposeFstOp<'a, W, CF> {
    open spec fn inv(&self) -> bool {
        self.valid() && self.tuples().len() <= usize::MAX
    }

    open spec fn num_known(&self) -> nat {
        self.tuples().len()
    }

    open spec fn max_states(&self) -> nat {
        self.fst1().states.len() * self.fst2().states.len() * CF::fs_count()
    }

    open spec fn extends(&self, old: &Self) -> bool {
        &&& self.fst1() == old.fst1()
        &&& self.fst2() == old.fst2()
        &&& self.properties_spec() == old.properties_spec()
        &&& is_prefix(old.tuples(), self.tuples())
    }

    closed spec fn properties_spec(&self) -> FstProperties {
        self.properties
    }

    /// The start state has the id 0.
    open spec fn start_spec(&self) -> Option<StateId> {
        match product_start::<W, CF>(self.fst1(), self.fst2()) {
            Some(_) => Some(0),
            None => None,
        }
    }

    open spec fn expanded(&self, id: StateId) -> bool {
        id < self.tuples().len() && all_known(
            self.tuples(),
            product_trs::<W, CF>(self.fst1(), self.fst2(), self.tuples()[id as int]),
        )
    }

    open spec fn trs_spec(&self, id: StateId) -> Seq<Tr<W>> {
        resolved(
            self.tuples(),
            product_trs::<W, CF>(self.fst1(), self.fst2(), self.tuples()[id as int]),
        )
    }

    open spec fn final_weight_spec(&self, id: StateId) -> Option<W> {
        product_final::<W, CF>(self.fst1(), self.fst2(), self.tuples()[id as int])
    }

    proof fn lemma_inv(&self) {
        let tuples = self.tuples();
        let n1 = self.fst1().states.len() as int;
        let n2 = self.fst2().states.len() as int;
        let count = CF::fs_count() as int;
        let codes = Seq::new(
            tuples.len(),
            |i: int| tuple_code(tuples[i].s1 as int, tuples[i].s2 as int,
                CF::fs_index(tuples[i].fs) as int, n2, count),
        );
        self.state_table.lemma_inv();
        assert forall|i: int, j: int| 0 <= i < codes.len() && 0 <= j < codes.len() implies 0
            <= #[trigger] codes[i] < n1 * n2 * count && (i != j ==> codes[i]
            != #[trigger] codes[j]) by {
            let a = tuples[i];
            let b = tuples[j];
            CF::lemma_filter_states(a.fs, b.fs);
            CF::lemma_filter_states(b.fs, a.fs);
            lemma_tuple_code(
                a.s1 as int,
                a.s2 as int,
                CF::fs_index(a.fs) as int,
                b.s1 as int,
                b.s2 as int,
                CF::fs_index(b.fs) as int,
                n1,
                n2,
                count,
            );
            if i != j {
                assert(tuples[i] != tuples[j]);
            }
        }
        if tuples.len() > 0 {
            let _ = codes[0];
            assert(n1 * n2 * count >= 0);
        } else {
            assert(n1 * n2 * count >= 0) by (nonlinear_arith)
                requires
                    n1 >= 0,
                    n2 >= 0,
                    count >= 0,
            ;
        }
        lemma_distinct_codes(codes, (n1 * n2 * count) as nat);
        assert forall|id: StateId, i: int|
            self.expanded(id) && 0 <= i < self.trs_spec(id).len() implies (
        #[trigger] self.trs_spec(id)[i]).nextstate < self.num_known() by {
            let ptrs = product_trs::<W, CF>(self.fst1(), self.fst2(), tuples[id as int]);
            assert(known(tuples, ptrs[i].next));
        }
    }

    proof fn lemma_extends(&self, old: &Self) {
        self.state_table.lemma_inv();
        old.state_table.lemma_inv();
        assert forall|id: StateId| old.expanded(id) implies #[trigger] self.expanded(id)
            && self.trs_spec(id) == old.trs_spec(id) by {
            assert(old.tuples()[id as int] == self.tuples()[id as int]);
            let ptrs = product_trs::<W, CF>(self.fst1(), self.fst2(), self.tuples()[id as int]);
            assert forall|k: int| 0 <= k < ptrs.len() implies known(
                self.tuples(),
                (#[trigger] ptrs[k]).next,
            ) && id_of(self.tuples(), ptrs[k].next) == id_of(old.tuples(), ptrs[k].next) by {
                assert(known(old.tuples(), ptrs[k].next));
                lemma_id_of_prefix(old.tuples(), self.tuples(), ptrs[k].next);
            }
            assert(self.trs_spec(id) =~= old.trs_spec(id));
        }
        assert forall|id: StateId| id < old.num_known() implies #[trigger] self.final_weight_spec(
            id,
        ) == old.final_weight_spec(id) by {
            assert(old.tuples()[id as int] == self.tuples()[id as int]);
        }
    }

    proof fn lemma_extends_reflexive(&self) {
    }

    proof fn lemma_extends_transitive(&self, mid: &Self, old: &Self) {
    }

    fn compute_start(&mut self) -> (r: Result<Option<StateId>, FstError>) {
        proof {
            self.compose_filter.lemma_inv();
            self.state_table.lemma_inv();
            CF::lemma_filter_states(CF::start_spec(), CF::start_spec());
            self.lemma_inv();
        }
        let fst1 = self.compose_filter.matcher1().fst();
        let fst2 = self.compose_filter.matcher2().fst();
        let s1 = match fst1.start() {
            Some(s) => s,
            None => {
                return Ok(None);
            },
        };
        let s2 = match fst2.start() {
            Some(s) => s,
            None => {
                return Ok(None);
            },
        };
        let fs = self.compose_filter.start();
        let tuple = StateTuple { s1, s2, fs };
        let id = self.state_table.find_or_insert(tuple);
        proof {
            self.state_table.lemma_inv();
            if old(self).tuples().len() > 0 {
                assert(old(self).tuples()[0] == tuple);
                assert(known(old(self).tuples(), tuple));
            }
            assert(self.tuples()[0] == tuple);
            assert(id == 0) by {
                if id != 0 {
                    assert(self.tuples()[id as int] != self.tuples()[0]);
                }
            }
            assert(self.tuples().len() <= old(self).tuples().len() + 1);
            assert(self.max_states() == old(self).max_states());
            assert forall|other: int| 0 < other < self.tuples().len() implies #[trigger]
                reached_from_earlier::<W, CF>(self.fst1(), self.fst2(), self.tuples(), other) by {
                assert(reached_from_earlier::<W, CF>(
                    old(self).fst1(),
                    old(self).fst2(),
                    old(self).tuples(),
                    other,
                ));
            }
            assert(self.valid());
            self.lemma_valid_bound();
        }
        Ok(Some(id))
    }

    fn compute_trs(&mut self, id: StateId) -> (r: Result<Vec<Tr<W>>, FstError>) {
        let tuple = match self.state_table.tuple(id) {
            Some(tuple) => tuple,
            None => {
                return Err(FstError::InvalidState(id));
            },
        };
        proof {
            self.compose_filter.lemma_inv();
        }
        if let Err(e) = self.compose_filter.set_state(tuple.s1, tuple.s2, &tuple.fs) {
            return Err(e);
        }
        proof {
            self.compose_filter.lemma_inv();
        }
        let pairs = candidate_pairs(
            self.compose_filter.matcher1(),
            self.compose_filter.matcher2(),
            tuple.s1,
            tuple.s2,
        )?;
        let ghost fst1 = self.fst1();
        let ghost fst2 = self.fst2();
        proof {
            self.compose_filter.matcher1_spec().lemma_inv();
            self.compose_filter.matcher2_spec().lemma_inv();
            lemma_candidates_below(fst1, fst2, tuple.s1, tuple.s2);
        }
        let mut out: Vec<Tr<W>> = Vec::new();
        let mut i: usize = 0;
        while i < pairs.len()
            invariant
                i <= pairs.len(),
                self.valid(),
                self.fst1() == fst1,
                self.fst2() == fst2,
                fst1 == old(self).fst1(),
                fst2 == old(self).fst2(),
                self.properties == old(self).properties,
                is_prefix(old(self).tuples(), self.tuples()),
                id < old(self).tuples().len(),
                tuple == old(self).tuples()[id as int],
                self.compose_filter.ready(),
                self.compose_filter.at() == tuple,
                pairs@ == candidates(fst1, fst2, tuple.s1, tuple.s2),
                pairs_below(pairs@, fst1.states.len(), fst2.states.len()),
                resolves(self.tuples(), emit::<W, CF>(fst1, fst2, tuple, pairs@.take(i as int)),
                    out@),
            decreases pairs.len() - i,
        {
            let (tr1, tr2) = pairs[i];
            let mut tr1 = tr1;
            let mut tr2 = tr2;
            let ghost emitted = emit::<W, CF>(fst1, fst2, tuple, pairs@.take(i as int));
            let ghost before = self.tuples();
            proof {
                assert(pairs@.take(i + 1).drop_last() =~= pairs@.take(i as int));
                CF::lemma_filter_tr(fst1, fst2, tuple, tr1, tr2);
                let _ = pairs@[i as int];
            }
            let fs = self.compose_filter.filter_tr(&mut tr1, &mut tr2)?;
            if !fs.is_no_state() {
                let next = StateTuple { s1: tr1.nextstate, s2: tr2.nextstate, fs };
                let next_id = self.state_table.find_or_insert(next);
                out.push(Tr::new(tr1.ilabel, tr2.olabel, tr1.weight.times(&tr2.weight), next_id));
                proof {
                    self.state_table.lemma_inv();
                    assert(is_prefix(before, self.tuples()));
                    let now = emit::<W, CF>(fst1, fst2, tuple, pairs@.take(i + 1));
                    lemma_emit_prefix::<W, CF>(fst1, fst2, tuple, pairs@, i + 1);
                    assert(now.len() == emitted.len() + 1);
                    assert(now[now.len() - 1].next == next);
                    assert(now[now.len() - 1] == product_trs::<W, CF>(fst1, fst2, tuple)[now.len()
                        - 1]);
                    assert forall|other: int| 0 < other < self.tuples().len() implies #[trigger]
                        reached_from_earlier::<W, CF>(fst1, fst2, self.tuples(), other) by {
                        if other < before.len() {
                            assert(reached_from_earlier::<W, CF>(fst1, fst2, before, other));
                            let (p, k) = choose|p: int, k: int|
                                0 <= p < other && 0 <= k < product_trs::<W, CF>(
                                    fst1,
                                    fst2,
                                    before[p],
                                ).len() && #[trigger] product_trs::<W, CF>(
                                    fst1,
                                    fst2,
                                    before[p],
                                )[k].next == before[other];
                            assert(self.tuples()[p] == before[p]);
                            assert(product_trs::<W, CF>(fst1, fst2, self.tuples()[p])[k].next
                                == self.tuples()[other]);
                        } else {
                            assert(self.tuples()[id as int] == tuple);
                            assert(product_trs::<W, CF>(fst1, fst2,
                                self.tuples()[id as int])[now.len()
                                - 1].next == self.tuples()[other]);
                        }
                    }
                    assert forall|k: int| 0 <= k < out@.len() implies resolves_one(
                        self.tuples(),
                        emit::<W, CF>(fst1, fst2, tuple, pairs@.take(i + 1))[k],
                        #[trigger] out@[k],
                    ) by {
                        if k < out@.len() - 1 {
                            assert(resolves_one(before, emitted[k], out@[k]));
                        }
                    }
                }
            }
            i = i + 1;
        }
        proof {
            assert(pairs@.take(i as int) =~= pairs@);
            self.state_table.lemma_inv();
            lemma_resolves(
                self.tuples(),
                product_trs::<W, CF>(fst1, fst2, tuple),
                out@,
            );
            self.lemma_valid_bound();
        }
        Ok(out)
    }

    fn compute_final_weight(&mut self, id: StateId) -> (r: Result<Option<W>, FstError>) {
        let tuple = match self.state_table.tuple(id) {
            Some(tuple) => tuple,
            None => {
                return Err(FstError::InvalidState(id));
            },
        };
        proof {
            self.compose_filter.lemma_inv();
        }
        if let Err(e) = self.compose_filter.set_state(tuple.s1, tuple.s2, &tuple.fs) {
            return Err(e);
        }
        proof {
            self.compose_filter.lemma_inv();
        }
        let final1 = self.compose_filter.matcher1().final_weight(tuple.s1)?;
        let final2 = self.compose_filter.matcher2().final_weight(tuple.s2)?;
        match (final1, final2) {
            (Some(w1), Some(w2)) => {
                let mut w1 = w1;
                let mut w2 = w2;
                self.compose_filter.filter_final(&mut w1, &mut w2);
                Ok(Some(w1.times(&w2)))
            },
            _ => Ok(None),
        }
    }

    fn num_states(&self) -> (n: usize) {
        self.state_table.size()
    }

    fn properties(&self) -> (p: FstProperties) {
        self.properties
    }
}

impl<'a, W: Semiring + 'a, CF: ComposeFilter<'a, W>> ComposeFstOp<'a, W, CF> {
    /// The table of a valid operation holds no more states than a `usize`
    /// counts.
    proof fn lemma_valid_bound(&self)
        requires
            self.valid(),
        ensures
            self.tuples().len() <= usize::MAX,
    {
        self.state_table.lemma_inv();
    }
}

} // verus!
