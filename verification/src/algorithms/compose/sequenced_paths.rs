//! The paths of two transducers in the composition that lets the first
//! transducer move on the empty string before the second.

use vstd::prelude::*;

use crate::algorithms::compose::candidates::{candidates, loop1, loop2};
use crate::algorithms::compose::compose_filters::compose_filter::{all_output_epsilons, is_symbol};
use crate::algorithms::compose::compose_filters::SequenceComposeFilter;
use crate::algorithms::compose::compose_fst::is_composition;
use crate::algorithms::compose::filter_states::IntegerFilterState;
use crate::algorithms::compose::joint_moves::{
    lemma_candidates_hold_first_alone, lemma_candidates_hold_match,
    lemma_candidates_hold_second_alone, lemma_count_output_epsilons, lemma_kept_pair_is_transition,
    lemma_rest_inputs, lemma_rest_outputs, lemma_some_output_epsilon, no_sentinel_inputs,
    no_sentinel_outputs,
};
use crate::algorithms::compose::matchers::Matcher;
use crate::algorithms::compose::paths::{
    gives, joint_step, lemma_candidates_joint, lemma_times_interchange, projects,
};
use crate::fst_traits::paths::{
    among, input_string, is_path, is_successful, output_string, path_weight, total_weight,
};
use crate::algorithms::compose::state_table::{distinct, StateTuple};
use crate::fst_impls::FstModel;
use crate::semirings::{Semiring, COMMUTATIVE};
use crate::tr::Tr;
use crate::{StateId, EPS_LABEL};

verus! {

/// Under the filter that puts the moves on the empty string in sequence, a
/// path of the first transducer to a final state and a path of the second,
/// of which the second consumes what the first emits, make a path of the
/// composition: from a state of the two states where they begin to a state
/// of the two states where they end, which consumes what the first
/// consumes and emits what the second emits. In a commutative semiring its
/// weight is the product of the weights of the two.
///
/// The state of the composition where the path begins is in the filter state
/// 0, or the first path does not begin on a transition that emits the empty
/// string. The result holds the path and the state where it ends.
pub proof fn lemma_sequenced_path<
    'a,
    W: Semiring + 'a,
    M1: Matcher<'a, W>,
    M2: Matcher<'a, W>,
>(
    fst1: FstModel<W>,
    fst2: FstModel<W>,
    tuples: Seq<StateTuple<IntegerFilterState>>,
    m: FstModel<W>,
    from: StateId,
    path1: Seq<Tr<W>>,
    to1: StateId,
    path2: Seq<Tr<W>>,
    to2: StateId,
) -> (r: (Seq<Tr<W>>, StateId))
    requires
        fst1.wf(),
        fst2.wf(),
        is_composition::<W, SequenceComposeFilter<M1, M2>>(fst1, fst2, tuples, m),
        m.states.len() <= usize::MAX,
        from < m.states.len(),
        is_path(fst1, tuples[from as int].s1, path1, to1),
        is_path(fst2, tuples[from as int].s2, path2, to2),
        fst1.states[to1 as int].final_weight is Some,
        output_string(path1) == input_string(path2),
        no_sentinel_outputs(path1),
        no_sentinel_inputs(path2),
        tuples[from as int].fs.state == 0 || path1.len() == 0 || path1[0].olabel != EPS_LABEL,
    ensures
        is_path(m, from, r.0, r.1),
        projects::<W, SequenceComposeFilter<M1, M2>>(fst1, fst2, tuples, from, r.0, path1, path2),
        r.1 < tuples.len(),
        tuples[r.1 as int].s1 == to1,
        tuples[r.1 as int].s2 == to2,
        input_string(r.0) == input_string(path1),
        output_string(r.0) == output_string(path2),
        W::properties_spec().contains_spec(COMMUTATIVE) ==> path_weight(r.0) == path_weight(
            path1,
        ).times_spec(path_weight(path2)),
    decreases path1.len() + path2.len(),
{
    let at = tuples[from as int];
    let st1 = fst1.states[at.s1 as int];
    let w1 = path_weight(path1);
    let w2 = path_weight(path2);
    if path1.len() > 0 && path1[0].olabel == EPS_LABEL {
        let tr1 = path1[0];
        let rest1 = path1.drop_first();
        lemma_candidates_hold_first_alone(fst1, fst2, at.s1, at.s2, tr1);
        let tr = lemma_kept_pair_is_transition::<W, SequenceComposeFilter<M1, M2>>(
            fst1,
            fst2,
            tuples,
            m,
            from,
            (tr1, loop2::<W>(at.s2)),
        );
        if path1.len() > 0 {
            lemma_rest_outputs(path1);
        }
        let (q, to) = lemma_sequenced_path::<W, M1, M2>(
            fst1,
            fst2,
            tuples,
            m,
            tr.nextstate,
            rest1,
            to1,
            path2,
            to2,
        );
        let path = seq![tr] + q;
        assert(path.drop_first() =~= q);
        W::lemma_identities(tr1.weight);
        W::lemma_times_associative(tr1.weight, path_weight(rest1), w2);
        (path, to)
    } else if path2.len() > 0 && path2[0].ilabel == EPS_LABEL {
        let tr2 = path2[0];
        let rest2 = path2.drop_first();
        lemma_candidates_hold_second_alone(fst1, fst2, at.s1, at.s2, tr2);
        lemma_count_output_epsilons(st1.trs);
        if path1.len() > 0 {
            let i = choose|i: int| 0 <= i < st1.trs.len() && #[trigger] st1.trs[i] == path1[0];
            assert(st1.trs[i].olabel != EPS_LABEL);
        }
        assert(!all_output_epsilons(st1));
        let tr = lemma_kept_pair_is_transition::<W, SequenceComposeFilter<M1, M2>>(
            fst1,
            fst2,
            tuples,
            m,
            from,
            (loop1::<W>(at.s1), tr2),
        );
        if path2.len() > 0 {
            lemma_rest_inputs(path2);
        }
        let (q, to) = lemma_sequenced_path::<W, M1, M2>(
            fst1,
            fst2,
            tuples,
            m,
            tr.nextstate,
            path1,
            to1,
            rest2,
            to2,
        );
        let path = seq![tr] + q;
        assert(path.drop_first() =~= q);
        W::lemma_identities(tr2.weight);
        if W::properties_spec().contains_spec(COMMUTATIVE) {
            W::lemma_times_associative(tr2.weight, w1, path_weight(rest2));
            W::lemma_properties(tr2.weight, w1);
            W::lemma_times_associative(w1, tr2.weight, path_weight(rest2));
        }
        (path, to)
    } else if path1.len() == 0 && path2.len() == 0 {
        W::lemma_identities(W::one_spec());
        (Seq::empty(), from)
    } else {
        let o1 = output_string(path1);
        let i2 = input_string(path2);
        if path1.len() == 0 {
            assert(i2[0] == path2[0].ilabel);
        }
        if path2.len() == 0 {
            assert(o1[0] == path1[0].olabel);
        }
        let tr1 = path1[0];
        let tr2 = path2[0];
        let rest1 = path1.drop_first();
        let rest2 = path2.drop_first();
        assert(o1[0] == tr1.olabel);
        assert(i2[0] == tr2.ilabel);
        assert(output_string(rest1) =~= o1.drop_first());
        assert(input_string(rest2) =~= i2.drop_first());
        lemma_candidates_hold_match(fst1, fst2, at.s1, at.s2, tr1, tr2);
        let tr = lemma_kept_pair_is_transition::<W, SequenceComposeFilter<M1, M2>>(
            fst1,
            fst2,
            tuples,
            m,
            from,
            (tr1, tr2),
        );
        if path1.len() > 0 {
            lemma_rest_outputs(path1);
        }
        if path2.len() > 0 {
            lemma_rest_inputs(path2);
        }
        let (q, to) = lemma_sequenced_path::<W, M1, M2>(
            fst1,
            fst2,
            tuples,
            m,
            tr.nextstate,
            rest1,
            to1,
            rest2,
            to2,
        );
        let path = seq![tr] + q;
        assert(path.drop_first() =~= q);
        if W::properties_spec().contains_spec(COMMUTATIVE) {
            lemma_times_interchange(
                tr1.weight,
                tr2.weight,
                path_weight(rest1),
                path_weight(rest2),
            );
        }
        (path, to)
    }
}

/// Once the second transducer has moved alone where the first could have
/// moved on the empty string, the first cannot make that move any more: in
/// the filter state 1 no path of the composition is made of a path of the
/// first that begins on a transition that emits the empty string.
pub proof fn lemma_sequence_blocks<'a, W: Semiring + 'a, M1: Matcher<'a, W>, M2: Matcher<'a, W>>(
    fst1: FstModel<W>,
    fst2: FstModel<W>,
    tuples: Seq<StateTuple<IntegerFilterState>>,
    from: StateId,
    path: Seq<Tr<W>>,
    path1: Seq<Tr<W>>,
    path2: Seq<Tr<W>>,
)
    requires
        tuples[from as int].fs.state == 1,
        path1.len() > 0,
        path1[0].olabel == EPS_LABEL,
        among(fst1.states[tuples[from as int].s1 as int].trs, path1[0]),
        no_sentinel_inputs(path2),
    ensures
        !projects::<W, SequenceComposeFilter<M1, M2>>(fst1, fst2, tuples, from, path, path1, path2),
    decreases path.len(),
{
    if path.len() > 0 && path2.len() > 0 {
        let at = tuples[from as int];
        let rest2 = path2.drop_first();
        if gives::<W, SequenceComposeFilter<M1, M2>>(
            fst1,
            fst2,
            tuples,
            from,
            (loop1::<W>(at.s1), path2[0]),
            path[0],
        ) {
            lemma_some_output_epsilon(fst1.states[at.s1 as int].trs, path1[0]);
            lemma_rest_inputs(path2);
            lemma_sequence_blocks::<W, M1, M2>(
                fst1,
                fst2,
                tuples,
                path[0].nextstate,
                path.drop_first(),
                path1,
                rest2,
            );
        }
    }
}

/// Under the filter that puts the moves on the empty string in sequence,
/// a path of the first transducer and a path of the second make one path
/// of the composition at most: two paths of the composition from one state
/// that are made of the same two paths are the same path.
pub proof fn lemma_sequenced_path_unique<
    'a,
    W: Semiring + 'a,
    M1: Matcher<'a, W>,
    M2: Matcher<'a, W>,
>(
    fst1: FstModel<W>,
    fst2: FstModel<W>,
    tuples: Seq<StateTuple<IntegerFilterState>>,
    from: StateId,
    a: Seq<Tr<W>>,
    b: Seq<Tr<W>>,
    path1: Seq<Tr<W>>,
    path2: Seq<Tr<W>>,
)
    requires
        distinct(tuples),
        no_sentinel_outputs(path1),
        no_sentinel_inputs(path2),
        projects::<W, SequenceComposeFilter<M1, M2>>(fst1, fst2, tuples, from, a, path1, path2),
        projects::<W, SequenceComposeFilter<M1, M2>>(fst1, fst2, tuples, from, b, path1, path2),
    ensures
        a == b,
    decreases a.len(),
{
    if a.len() == 0 || b.len() == 0 {
        assert(a =~= b);
    } else {
        let at = tuples[from as int];
        let trs1 = fst1.states[at.s1 as int].trs;
        let trs2 = fst2.states[at.s2 as int].trs;
        let rest1 = path1.drop_first();
        let rest2 = path2.drop_first();
        let both = (path1[0], path2[0]);
        let first = (path1[0], loop2::<W>(at.s2));
        let second = (loop1::<W>(at.s1), path2[0]);
        lemma_candidates_joint(fst1, fst2, at.s1, at.s2);
        if path1.len() > 0 {
            lemma_rest_outputs(path1);
        }
        if path2.len() > 0 {
            lemma_rest_inputs(path2);
        }
        let a_both = path1.len() > 0 && path2.len() > 0
            && gives::<W, SequenceComposeFilter<M1, M2>>(
            fst1,
            fst2,
            tuples,
            from,
            both,
            a[0],
        );
        let b_both = path1.len() > 0 && path2.len() > 0
            && gives::<W, SequenceComposeFilter<M1, M2>>(
            fst1,
            fst2,
            tuples,
            from,
            both,
            b[0],
        );
        let a_first = path1.len() > 0 && gives::<W, SequenceComposeFilter<M1, M2>>(
            fst1,
            fst2,
            tuples,
            from,
            first,
            a[0],
        ) && projects::<W, SequenceComposeFilter<M1, M2>>(
            fst1,
            fst2,
            tuples,
            a[0].nextstate,
            a.drop_first(),
            rest1,
            path2,
        );
        let b_first = path1.len() > 0 && gives::<W, SequenceComposeFilter<M1, M2>>(
            fst1,
            fst2,
            tuples,
            from,
            first,
            b[0],
        ) && projects::<W, SequenceComposeFilter<M1, M2>>(
            fst1,
            fst2,
            tuples,
            b[0].nextstate,
            b.drop_first(),
            rest1,
            path2,
        );
        let a_second = path2.len() > 0 && gives::<W, SequenceComposeFilter<M1, M2>>(
            fst1,
            fst2,
            tuples,
            from,
            second,
            a[0],
        ) && projects::<W, SequenceComposeFilter<M1, M2>>(
            fst1,
            fst2,
            tuples,
            a[0].nextstate,
            a.drop_first(),
            path1,
            rest2,
        );
        let b_second = path2.len() > 0 && gives::<W, SequenceComposeFilter<M1, M2>>(
            fst1,
            fst2,
            tuples,
            from,
            second,
            b[0],
        ) && projects::<W, SequenceComposeFilter<M1, M2>>(
            fst1,
            fst2,
            tuples,
            b[0].nextstate,
            b.drop_first(),
            path1,
            rest2,
        );
        // A joint move on a symbol leaves no other move.
        if a_both || b_both {
            let n = choose|n: int|
                0 <= n < candidates(fst1, fst2, at.s1, at.s2).len() && candidates(
                    fst1,
                    fst2,
                    at.s1,
                    at.s2,
                )[n] == both;
            assert(joint_step(trs1, trs2, at.s1, at.s2, candidates(fst1, fst2, at.s1, at.s2)[n]));
            assert(is_symbol(path1[0].olabel));
            assert(is_symbol(path2[0].ilabel));
        }
        if a_first || b_first {
            let n = choose|n: int|
                0 <= n < candidates(fst1, fst2, at.s1, at.s2).len() && candidates(
                    fst1,
                    fst2,
                    at.s1,
                    at.s2,
                )[n] == first;
            assert(joint_step(trs1, trs2, at.s1, at.s2, candidates(fst1, fst2, at.s1, at.s2)[n]));
            assert(path1[0].olabel == EPS_LABEL);
            assert(among(trs1, path1[0]));
            assert(at.fs.state == 0);
        }
        if a_second || b_second {
            let n = choose|n: int|
                0 <= n < candidates(fst1, fst2, at.s1, at.s2).len() && candidates(
                    fst1,
                    fst2,
                    at.s1,
                    at.s2,
                )[n] == second;
            assert(joint_step(trs1, trs2, at.s1, at.s2, candidates(fst1, fst2, at.s1, at.s2)[n]));
            assert(path2[0].ilabel == EPS_LABEL);
        }
        // Where both transducers can move on the empty string, the second
        // cannot go first.
        if (a_first || b_first) && a_second {
            lemma_some_output_epsilon(trs1, path1[0]);
            lemma_sequence_blocks::<W, M1, M2>(
                fst1,
                fst2,
                tuples,
                a[0].nextstate,
                a.drop_first(),
                path1,
                rest2,
            );
        }
        if (a_first || b_first) && b_second {
            lemma_some_output_epsilon(trs1, path1[0]);
            lemma_sequence_blocks::<W, M1, M2>(
                fst1,
                fst2,
                tuples,
                b[0].nextstate,
                b.drop_first(),
                path1,
                rest2,
            );
        }
        assert(a[0] == b[0]);
        if a_both {
            lemma_sequenced_path_unique::<W, M1, M2>(
                fst1,
                fst2,
                tuples,
                a[0].nextstate,
                a.drop_first(),
                b.drop_first(),
                rest1,
                rest2,
            );
        } else if a_first {
            lemma_sequenced_path_unique::<W, M1, M2>(
                fst1,
                fst2,
                tuples,
                a[0].nextstate,
                a.drop_first(),
                b.drop_first(),
                rest1,
                path2,
            );
        } else {
            lemma_sequenced_path_unique::<W, M1, M2>(
                fst1,
                fst2,
                tuples,
                a[0].nextstate,
                a.drop_first(),
                b.drop_first(),
                path1,
                rest2,
            );
        }
        assert(a =~= seq![a[0]] + a.drop_first());
        assert(b =~= seq![b[0]] + b.drop_first());
    }
}

/// Under the filter that puts the moves on the empty string in sequence,
/// a path that the first transducer accepts and a path that the second
/// accepts, of which the second consumes what the first emits, make a path
/// that the composition accepts: it consumes what the first consumes and
/// emits what the second emits, and in a commutative semiring its weight
/// is the product of the weights of the two.
///
/// The result holds the path and the state where it ends.
pub proof fn lemma_accepted_in_sequence<
    'a,
    W: Semiring + 'a,
    M1: Matcher<'a, W>,
    M2: Matcher<'a, W>,
>(
    fst1: FstModel<W>,
    fst2: FstModel<W>,
    tuples: Seq<StateTuple<IntegerFilterState>>,
    m: FstModel<W>,
    path1: Seq<Tr<W>>,
    to1: StateId,
    path2: Seq<Tr<W>>,
    to2: StateId,
) -> (r: (Seq<Tr<W>>, StateId))
    requires
        fst1.wf(),
        fst2.wf(),
        is_composition::<W, SequenceComposeFilter<M1, M2>>(fst1, fst2, tuples, m),
        m.states.len() <= usize::MAX,
        is_successful(fst1, path1, to1),
        is_successful(fst2, path2, to2),
        output_string(path1) == input_string(path2),
        no_sentinel_outputs(path1),
        no_sentinel_inputs(path2),
    ensures
        is_successful(m, r.0, r.1),
        projects::<W, SequenceComposeFilter<M1, M2>>(fst1, fst2, tuples, 0, r.0, path1, path2),
        input_string(r.0) == input_string(path1),
        output_string(r.0) == output_string(path2),
        W::properties_spec().contains_spec(COMMUTATIVE) ==> total_weight(m, r.0, r.1)
            == total_weight(fst1, path1, to1).times_spec(total_weight(fst2, path2, to2)),
{
    let r = lemma_sequenced_path::<W, M1, M2>(fst1, fst2, tuples, m, 0, path1, to1, path2, to2);
    let f1 = fst1.states[to1 as int].final_weight->0;
    let f2 = fst2.states[to2 as int].final_weight->0;
    if W::properties_spec().contains_spec(COMMUTATIVE) {
        lemma_times_interchange(path_weight(path1), path_weight(path2), f1, f2);
    }
    r
}

} // verus!
