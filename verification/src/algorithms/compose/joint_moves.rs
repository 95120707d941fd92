//! The pairs of transitions that a composition considers, and the
//! transitions that they give.

use vstd::prelude::*;

use crate::algorithms::compose::candidates::{
    all_pairs, candidates, epsilon_pairs, loop1, loop2, matched_from_first, matched_from_second,
    matched_pairs, pairs_from, pairs_with, TrPair,
};
use crate::algorithms::compose::compose_filters::compose_filter::is_symbol;
use crate::algorithms::compose::compose_filters::ComposeFilter;
use crate::algorithms::compose::compose_fst::is_composition;
use crate::algorithms::compose::filter_states::FilterState;
use crate::algorithms::compose::compose_fst_op::{emit, product_trs, resolved};
use crate::algorithms::compose::matchers::{select_trs, tr_matches, MatchType};
use crate::algorithms::compose::paths::{given_by, gives};
use crate::fst_traits::paths::among;
use crate::algorithms::compose::state_table::{id_of, known, StateTuple};
use crate::fst_impls::vector_fst::{count_input_epsilons, count_output_epsilons};
use crate::fst_impls::FstModel;
use crate::semirings::Semiring;
use crate::tr::Tr;
use crate::{Label, StateId, EPS_LABEL, LOOP_LABEL, NO_LABEL};

verus! {

/// A request finds every transition of the state that has the label asked
/// for on the matched side.
pub proof fn lemma_select_finds<W>(
    trs: Seq<Tr<W>>,
    match_type: MatchType,
    label: Label,
    tr: Tr<W>,
)
    requires
        among(trs, tr),
        tr_matches(tr, match_type, label),
    ensures
        among(select_trs(trs, match_type, label), tr),
    decreases trs.len(),
{
    let i = choose|i: int| 0 <= i < trs.len() && #[trigger] trs[i] == tr;
    let init = trs.drop_last();
    let found = select_trs(trs, match_type, label);
    if i == trs.len() - 1 {
        assert(found[found.len() - 1] == tr);
    } else {
        assert(init[i] == tr);
        lemma_select_finds(init, match_type, label, tr);
        let j = choose|j: int|
            0 <= j < select_trs(init, match_type, label).len() && #[trigger] select_trs(
                init,
                match_type,
                label,
            )[j] == tr;
        assert(found[j] == tr);
    }
}

/// What is in one of two sequences is in the two put together.
proof fn lemma_contains_concat<T>(a: Seq<T>, b: Seq<T>, x: T)
    requires
        a.contains(x) || b.contains(x),
    ensures
        (a + b).contains(x),
{
    if a.contains(x) {
        let i = choose|i: int| 0 <= i < a.len() && a[i] == x;
        assert((a + b)[i] == x);
    } else {
        let j = choose|j: int| 0 <= j < b.len() && b[j] == x;
        assert((a + b)[a.len() + j] == x);
    }
}

proof fn lemma_matched_first_finds<W>(
    trs1: Seq<Tr<W>>,
    trs2: Seq<Tr<W>>,
    k: nat,
    i: int,
    tr2: Tr<W>,
)
    requires
        0 <= i < k <= trs1.len(),
        is_symbol(trs1[i].olabel),
        among(trs2, tr2),
        tr2.ilabel == trs1[i].olabel,
    ensures
        matched_from_first(trs1, trs2, k).contains((trs1[i], tr2)),
    decreases k,
{
    let before = matched_from_first(trs1, trs2, (k - 1) as nat);
    if i == k - 1 {
        let tr1 = trs1[i];
        let found = select_trs(trs2, MatchType::MatchInput, tr1.olabel);
        lemma_select_finds(trs2, MatchType::MatchInput, tr1.olabel, tr2);
        let j = choose|j: int| 0 <= j < found.len() && #[trigger] found[j] == tr2;
        assert(pairs_from(tr1, found)[j] == (tr1, tr2));
        lemma_contains_concat(before, pairs_from(tr1, found), (tr1, tr2));
    } else {
        lemma_matched_first_finds(trs1, trs2, (k - 1) as nat, i, tr2);
        let tr = trs1[k - 1];
        let more = if is_symbol(tr.olabel) {
            pairs_from(tr, select_trs(trs2, MatchType::MatchInput, tr.olabel))
        } else {
            Seq::empty()
        };
        lemma_contains_concat(before, more, (trs1[i], tr2));
    }
}

proof fn lemma_matched_second_finds<W>(
    trs1: Seq<Tr<W>>,
    trs2: Seq<Tr<W>>,
    k: nat,
    tr1: Tr<W>,
    j: int,
)
    requires
        0 <= j < k <= trs2.len(),
        is_symbol(trs2[j].ilabel),
        among(trs1, tr1),
        tr1.olabel == trs2[j].ilabel,
    ensures
        matched_from_second(trs1, trs2, k).contains((tr1, trs2[j])),
    decreases k,
{
    let before = matched_from_second(trs1, trs2, (k - 1) as nat);
    if j == k - 1 {
        let tr2 = trs2[j];
        let found = select_trs(trs1, MatchType::MatchOutput, tr2.ilabel);
        lemma_select_finds(trs1, MatchType::MatchOutput, tr2.ilabel, tr1);
        let i = choose|i: int| 0 <= i < found.len() && #[trigger] found[i] == tr1;
        assert(pairs_with(found, tr2)[i] == (tr1, tr2));
        lemma_contains_concat(before, pairs_with(found, tr2), (tr1, tr2));
    } else {
        lemma_matched_second_finds(trs1, trs2, (k - 1) as nat, tr1, j);
        let tr = trs2[k - 1];
        let more = if is_symbol(tr.ilabel) {
            pairs_with(select_trs(trs1, MatchType::MatchOutput, tr.ilabel), tr)
        } else {
            Seq::empty()
        };
        lemma_contains_concat(before, more, (tr1, trs2[j]));
    }
}

/// A composition considers every pair of transitions of its two states
/// that match on a symbol.
pub proof fn lemma_candidates_hold_match<W: Semiring>(
    fst1: FstModel<W>,
    fst2: FstModel<W>,
    s1: StateId,
    s2: StateId,
    tr1: Tr<W>,
    tr2: Tr<W>,
)
    requires
        among(fst1.states[s1 as int].trs, tr1),
        among(fst2.states[s2 as int].trs, tr2),
        is_symbol(tr1.olabel),
        tr1.olabel == tr2.ilabel,
    ensures
        candidates(fst1, fst2, s1, s2).contains((tr1, tr2)),
{
    let trs1 = fst1.states[s1 as int].trs;
    let trs2 = fst2.states[s2 as int].trs;
    if trs1.len() <= trs2.len() {
        let i = choose|i: int| 0 <= i < trs1.len() && #[trigger] trs1[i] == tr1;
        lemma_matched_first_finds(trs1, trs2, trs1.len(), i, tr2);
    } else {
        let j = choose|j: int| 0 <= j < trs2.len() && #[trigger] trs2[j] == tr2;
        lemma_matched_second_finds(trs1, trs2, trs2.len(), tr1, j);
    }
    lemma_contains_concat(
        matched_pairs(trs1, trs2),
        epsilon_pairs(trs1, trs2, s1, s2),
        (tr1, tr2),
    );
}

/// A composition considers every move of the first transducer on a
/// transition that emits the empty string, the second staying.
pub proof fn lemma_candidates_hold_first_alone<W: Semiring>(
    fst1: FstModel<W>,
    fst2: FstModel<W>,
    s1: StateId,
    s2: StateId,
    tr1: Tr<W>,
)
    requires
        among(fst1.states[s1 as int].trs, tr1),
        tr1.olabel == EPS_LABEL,
    ensures
        candidates(fst1, fst2, s1, s2).contains((tr1, loop2::<W>(s2))),
{
    let trs1 = fst1.states[s1 as int].trs;
    let trs2 = fst2.states[s2 as int].trs;
    let eps1 = select_trs(trs1, MatchType::MatchOutput, EPS_LABEL);
    let eps2 = select_trs(trs2, MatchType::MatchInput, EPS_LABEL);
    lemma_select_finds(trs1, MatchType::MatchOutput, EPS_LABEL, tr1);
    let i = choose|i: int| 0 <= i < eps1.len() && #[trigger] eps1[i] == tr1;
    let pair = (tr1, loop2::<W>(s2));
    assert(pairs_with(eps1, loop2::<W>(s2))[i] == pair);
    lemma_contains_concat(pairs_with(eps1, loop2::<W>(s2)), pairs_from(loop1::<W>(s1), eps2), pair);
    lemma_contains_concat(
        pairs_with(eps1, loop2::<W>(s2)) + pairs_from(loop1::<W>(s1), eps2),
        all_pairs(eps1, eps2),
        pair,
    );
    lemma_contains_concat(matched_pairs(trs1, trs2), epsilon_pairs(trs1, trs2, s1, s2), pair);
}

/// A composition considers every move of the second transducer on a
/// transition that consumes the empty string, the first staying.
pub proof fn lemma_candidates_hold_second_alone<W: Semiring>(
    fst1: FstModel<W>,
    fst2: FstModel<W>,
    s1: StateId,
    s2: StateId,
    tr2: Tr<W>,
)
    requires
        among(fst2.states[s2 as int].trs, tr2),
        tr2.ilabel == EPS_LABEL,
    ensures
        candidates(fst1, fst2, s1, s2).contains((loop1::<W>(s1), tr2)),
{
    let trs1 = fst1.states[s1 as int].trs;
    let trs2 = fst2.states[s2 as int].trs;
    let eps1 = select_trs(trs1, MatchType::MatchOutput, EPS_LABEL);
    let eps2 = select_trs(trs2, MatchType::MatchInput, EPS_LABEL);
    lemma_select_finds(trs2, MatchType::MatchInput, EPS_LABEL, tr2);
    let j = choose|j: int| 0 <= j < eps2.len() && #[trigger] eps2[j] == tr2;
    let pair = (loop1::<W>(s1), tr2);
    assert(pairs_from(loop1::<W>(s1), eps2)[j] == pair);
    lemma_contains_concat(pairs_with(eps1, loop2::<W>(s2)), pairs_from(loop1::<W>(s1), eps2), pair);
    lemma_contains_concat(
        pairs_with(eps1, loop2::<W>(s2)) + pairs_from(loop1::<W>(s1), eps2),
        all_pairs(eps1, eps2),
        pair,
    );
    lemma_contains_concat(matched_pairs(trs1, trs2), epsilon_pairs(trs1, trs2, s1, s2), pair);
}

/// A pair that the filter keeps gives one of the transitions; the result
/// is the place of that transition.
pub proof fn lemma_emit_target<'a, W: Semiring + 'a, CF: ComposeFilter<'a, W>>(
    fst1: FstModel<W>,
    fst2: FstModel<W>,
    at: StateTuple<CF::FS>,
    pairs: Seq<TrPair<W>>,
    n: int,
) -> (k: int)
    requires
        0 <= n < pairs.len(),
        CF::filter_tr_spec(fst1, fst2, at, pairs[n].0, pairs[n].1).0 != CF::FS::no_state_spec(),
    ensures
        0 <= k < emit::<W, CF>(fst1, fst2, at, pairs).len(),
        given_by::<W, CF>(fst1, fst2, at, pairs[n], emit::<W, CF>(fst1, fst2, at, pairs)[k]),
    decreases pairs.len(),
{
    let rest = emit::<W, CF>(fst1, fst2, at, pairs.drop_last());
    if n == pairs.len() - 1 {
        rest.len() as int
    } else {
        assert(pairs.drop_last()[n] == pairs[n]);
        lemma_emit_target::<W, CF>(fst1, fst2, at, pairs.drop_last(), n)
    }
}

/// A state with a transition that emits a symbol has fewer transitions
/// that emit the empty string than it has transitions.
pub proof fn lemma_count_output_epsilons<W>(trs: Seq<Tr<W>>)
    ensures
        count_output_epsilons(trs) <= trs.len(),
        (exists|i: int| 0 <= i < trs.len() && (#[trigger] trs[i]).olabel != EPS_LABEL)
            ==> count_output_epsilons(trs) < trs.len(),
    decreases trs.len(),
{
    if trs.len() > 0 {
        let init = trs.drop_last();
        lemma_count_output_epsilons(init);
        if exists|i: int| 0 <= i < trs.len() && (#[trigger] trs[i]).olabel != EPS_LABEL {
            let i = choose|i: int| 0 <= i < trs.len() && (#[trigger] trs[i]).olabel != EPS_LABEL;
            if i < trs.len() - 1 {
                assert(init[i].olabel != EPS_LABEL);
            }
        }
    }
}

/// A pair that a composition considers at a state and that the filter keeps
/// gives a transition of that state: the result.
pub proof fn lemma_kept_pair_is_transition<'a, W: Semiring + 'a, CF: ComposeFilter<'a, W>>(
    fst1: FstModel<W>,
    fst2: FstModel<W>,
    tuples: Seq<StateTuple<CF::FS>>,
    m: FstModel<W>,
    from: StateId,
    pair: TrPair<W>,
) -> (tr: Tr<W>)
    requires
        is_composition::<W, CF>(fst1, fst2, tuples, m),
        m.states.len() <= usize::MAX,
        from < m.states.len(),
        candidates(fst1, fst2, tuples[from as int].s1, tuples[from as int].s2).contains(pair),
        CF::filter_tr_spec(fst1, fst2, tuples[from as int], pair.0, pair.1).0
            != CF::FS::no_state_spec(),
    ensures
        among(m.states[from as int].trs, tr),
        gives::<W, CF>(fst1, fst2, tuples, from, pair, tr),
{
    let at = tuples[from as int];
    let pairs = candidates(fst1, fst2, at.s1, at.s2);
    let n = choose|n: int| 0 <= n < pairs.len() && pairs[n] == pair;
    let k = lemma_emit_target::<W, CF>(fst1, fst2, at, pairs, n);
    let ptrs = product_trs::<W, CF>(fst1, fst2, at);
    assert(m.states[from as int].trs == resolved(tuples, ptrs));
    assert(known(tuples, ptrs[k].next));
    let tr = m.states[from as int].trs[k];
    assert(tr.nextstate == id_of(tuples, ptrs[k].next));
    tr
}

/// None of the transitions emits a sentinel.
pub open spec fn no_sentinel_outputs<W>(trs: Seq<Tr<W>>) -> bool {
    forall|i: int|
        0 <= i < trs.len() ==> (#[trigger] trs[i]).olabel != LOOP_LABEL && trs[i].olabel
            != NO_LABEL
}

/// None of the transitions consumes a sentinel.
pub open spec fn no_sentinel_inputs<W>(trs: Seq<Tr<W>>) -> bool {
    forall|i: int|
        0 <= i < trs.len() ==> (#[trigger] trs[i]).ilabel != LOOP_LABEL && trs[i].ilabel
            != NO_LABEL
}

/// What follows the first of transitions that emit no sentinel emits
/// none.
pub proof fn lemma_rest_outputs<W>(trs: Seq<Tr<W>>)
    requires
        no_sentinel_outputs(trs),
        trs.len() > 0,
    ensures
        no_sentinel_outputs(trs.drop_first()),
{
    let rest = trs.drop_first();
    assert forall|i: int| 0 <= i < rest.len() implies (#[trigger] rest[i]).olabel != LOOP_LABEL
        && rest[i].olabel != NO_LABEL by {
        assert(rest[i] == trs[i + 1]);
    }
}

/// What follows the first of transitions that consume no sentinel consumes
/// none.
pub proof fn lemma_rest_inputs<W>(trs: Seq<Tr<W>>)
    requires
        no_sentinel_inputs(trs),
        trs.len() > 0,
    ensures
        no_sentinel_inputs(trs.drop_first()),
{
    let rest = trs.drop_first();
    assert forall|i: int| 0 <= i < rest.len() implies (#[trigger] rest[i]).ilabel != LOOP_LABEL
        && rest[i].ilabel != NO_LABEL by {
        assert(rest[i] == trs[i + 1]);
    }
}

/// A state with a transition that emits the empty string has such a
/// transition.
pub proof fn lemma_some_output_epsilon<W>(trs: Seq<Tr<W>>, tr: Tr<W>)
    requires
        among(trs, tr),
        tr.olabel == EPS_LABEL,
    ensures
        count_output_epsilons(trs) > 0,
    decreases trs.len(),
{
    let i = choose|i: int| 0 <= i < trs.len() && #[trigger] trs[i] == tr;
    if i < trs.len() - 1 {
        assert(trs.drop_last()[i] == tr);
        lemma_some_output_epsilon(trs.drop_last(), tr);
    }
}
/// A state with a transition that consumes a symbol has fewer transitions
/// that consume the empty string than it has transitions.
pub proof fn lemma_count_input_epsilons<W>(trs: Seq<Tr<W>>)
    ensures
        count_input_epsilons(trs) <= trs.len(),
        (exists|i: int| 0 <= i < trs.len() && (#[trigger] trs[i]).ilabel != EPS_LABEL)
            ==> count_input_epsilons(trs) < trs.len(),
    decreases trs.len(),
{
    if trs.len() > 0 {
        let init = trs.drop_last();
        lemma_count_input_epsilons(init);
        if exists|i: int| 0 <= i < trs.len() && (#[trigger] trs[i]).ilabel != EPS_LABEL {
            let i = choose|i: int| 0 <= i < trs.len() && (#[trigger] trs[i]).ilabel != EPS_LABEL;
            if i < trs.len() - 1 {
                assert(init[i].ilabel != EPS_LABEL);
            }
        }
    }
}

/// A state with a transition that consumes the empty string has such a
/// transition.
pub proof fn lemma_some_input_epsilon<W>(trs: Seq<Tr<W>>, tr: Tr<W>)
    requires
        among(trs, tr),
        tr.ilabel == EPS_LABEL,
    ensures
        count_input_epsilons(trs) > 0,
    decreases trs.len(),
{
    let i = choose|i: int| 0 <= i < trs.len() && #[trigger] trs[i] == tr;
    if i < trs.len() - 1 {
        assert(trs.drop_last()[i] == tr);
        lemma_some_input_epsilon(trs.drop_last(), tr);
    }
}

/// A composition considers every joint move of the two transducers on the
/// empty string.
pub proof fn lemma_candidates_hold_joint_epsilon<W: Semiring>(
    fst1: FstModel<W>,
    fst2: FstModel<W>,
    s1: StateId,
    s2: StateId,
    tr1: Tr<W>,
    tr2: Tr<W>,
)
    requires
        among(fst1.states[s1 as int].trs, tr1),
        among(fst2.states[s2 as int].trs, tr2),
        tr1.olabel == EPS_LABEL,
        tr2.ilabel == EPS_LABEL,
    ensures
        candidates(fst1, fst2, s1, s2).contains((tr1, tr2)),
{
    let trs1 = fst1.states[s1 as int].trs;
    let trs2 = fst2.states[s2 as int].trs;
    let eps1 = select_trs(trs1, MatchType::MatchOutput, EPS_LABEL);
    let eps2 = select_trs(trs2, MatchType::MatchInput, EPS_LABEL);
    lemma_select_finds(trs1, MatchType::MatchOutput, EPS_LABEL, tr1);
    lemma_select_finds(trs2, MatchType::MatchInput, EPS_LABEL, tr2);
    lemma_all_pairs_hold(eps1, eps2, tr1, tr2);
    let pair = (tr1, tr2);
    lemma_contains_concat(
        pairs_with(eps1, loop2::<W>(s2)) + pairs_from(loop1::<W>(s1), eps2),
        all_pairs(eps1, eps2),
        pair,
    );
    lemma_contains_concat(matched_pairs(trs1, trs2), epsilon_pairs(trs1, trs2, s1, s2), pair);
}

proof fn lemma_all_pairs_hold<W>(trs1: Seq<Tr<W>>, trs2: Seq<Tr<W>>, tr1: Tr<W>, tr2: Tr<W>)
    requires
        among(trs1, tr1),
        among(trs2, tr2),
    ensures
        all_pairs(trs1, trs2).contains((tr1, tr2)),
    decreases trs1.len(),
{
    let i = choose|i: int| 0 <= i < trs1.len() && #[trigger] trs1[i] == tr1;
    let init = trs1.drop_last();
    if i == trs1.len() - 1 {
        let j = choose|j: int| 0 <= j < trs2.len() && #[trigger] trs2[j] == tr2;
        assert(pairs_from(tr1, trs2)[j] == (tr1, tr2));
    } else {
        assert(init[i] == tr1);
        lemma_all_pairs_hold(init, trs2, tr1, tr2);
    }
    lemma_contains_concat(all_pairs(init, trs2), pairs_from(trs1.last(), trs2), (tr1, tr2));
}

} // verus!
