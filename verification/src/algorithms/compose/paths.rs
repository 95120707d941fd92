//! The paths of a composition and the paths of its operands.

use vstd::prelude::*;

use crate::algorithms::compose::candidates::{
    all_pairs, candidates, loop1, loop2, matched_from_first, matched_from_second, matched_pairs,
    pairs_from, pairs_with, TrPair,
};
use crate::algorithms::compose::compose_filters::{
    AltSequenceComposeFilter, ComposeFilter, MatchComposeFilter, NoMatchComposeFilter,
    NullComposeFilter, SequenceComposeFilter, TrivialComposeFilter,
};
use crate::algorithms::compose::compose_fst::is_composition;
use crate::algorithms::compose::compose_fst_op::{
    emit, lemma_candidates_below, product_trs, reached_from_earlier, resolved, ProductTr,
};
use crate::algorithms::compose::filter_states::FilterState;
use crate::algorithms::compose::lookahead_filters::{LookAheadComposeFilter, MatchTypeTrait};
use crate::algorithms::compose::lookahead_matchers::LookaheadMatcher;
use crate::algorithms::compose::matchers::{select_trs, tr_matches, MatchType, Matcher};
use crate::algorithms::compose::state_table::{id_of, known, StateTuple};
use crate::fst_impls::FstModel;
use crate::fst_traits::paths::{
    input_string, is_path, is_successful, output_string, path_weight, total_weight, among,
};
use crate::semirings::{Semiring, COMMUTATIVE};
use crate::tr::Tr;
use crate::{Label, StateId, EPS_LABEL};

verus! {

/// The pair `(tr1, tr2)` is a step that the two transducers can take
/// together at the states `s1` and `s2`: each of them takes a transition or
/// stays, not both stay, and what the first emits is what the second
/// consumes.
pub open spec fn joint_step<W: Semiring>(
    trs1: Seq<Tr<W>>,
    trs2: Seq<Tr<W>>,
    s1: StateId,
    s2: StateId,
    pair: TrPair<W>,
) -> bool {
    ||| among(trs1, pair.0) && among(trs2, pair.1) && pair.0.olabel == pair.1.ilabel
    ||| among(trs1, pair.0) && pair.0.olabel == EPS_LABEL && pair.1 == loop2::<W>(s2)
    ||| pair.0 == loop1::<W>(s1) && among(trs2, pair.1) && pair.1.ilabel == EPS_LABEL
}

/// Every pair of `pairs` is a joint step.
pub open spec fn joint_steps<W: Semiring>(
    trs1: Seq<Tr<W>>,
    trs2: Seq<Tr<W>>,
    s1: StateId,
    s2: StateId,
    pairs: Seq<TrPair<W>>,
) -> bool {
    forall|k: int| 0 <= k < pairs.len() ==> joint_step(trs1, trs2, s1, s2, #[trigger] pairs[k])
}

/// What a request finds are transitions of the state, with the label asked
/// for on the matched side.
pub proof fn lemma_select_among<W>(trs: Seq<Tr<W>>, match_type: MatchType, label: Label)
    ensures
        forall|j: int|
            0 <= j < select_trs(trs, match_type, label).len() ==> among(
                trs,
                #[trigger] select_trs(trs, match_type, label)[j],
            ) && tr_matches(select_trs(trs, match_type, label)[j], match_type, label),
    decreases trs.len(),
{
    if trs.len() > 0 {
        let init = trs.drop_last();
        lemma_select_among(init, match_type, label);
        let found = select_trs(trs, match_type, label);
        assert forall|j: int| 0 <= j < found.len() implies among(trs, #[trigger] found[j])
            && tr_matches(found[j], match_type, label) by {
            if j < select_trs(init, match_type, label).len() {
                let tr = select_trs(init, match_type, label)[j];
                assert(found[j] == tr);
                let i = choose|i: int| 0 <= i < init.len() && #[trigger] init[i] == tr;
                assert(trs[i] == tr);
            } else {
                assert(found[j] == trs[trs.len() - 1]);
            }
        }
    }
}

proof fn lemma_all_pairs_joint<W: Semiring>(
    trs1: Seq<Tr<W>>,
    trs2: Seq<Tr<W>>,
    s1: StateId,
    s2: StateId,
    eps1: Seq<Tr<W>>,
    eps2: Seq<Tr<W>>,
)
    requires
        forall|i: int| 0 <= i < eps1.len() ==> among(trs1, #[trigger] eps1[i]) && eps1[i].olabel
            == EPS_LABEL,
        forall|j: int| 0 <= j < eps2.len() ==> among(trs2, #[trigger] eps2[j]) && eps2[j].ilabel
            == EPS_LABEL,
    ensures
        joint_steps(trs1, trs2, s1, s2, all_pairs(eps1, eps2)),
    decreases eps1.len(),
{
    if eps1.len() > 0 {
        let init = eps1.drop_last();
        assert forall|i: int| 0 <= i < init.len() implies among(trs1, #[trigger] init[i])
            && init[i].olabel == EPS_LABEL by {
            assert(init[i] == eps1[i]);
        }
        lemma_all_pairs_joint(trs1, trs2, s1, s2, init, eps2);
        let last = eps1[eps1.len() - 1];
        let pairs = all_pairs(eps1, eps2);
        assert forall|k: int| 0 <= k < pairs.len() implies joint_step(
            trs1,
            trs2,
            s1,
            s2,
            #[trigger] pairs[k],
        ) by {
            let before = all_pairs(init, eps2);
            if k < before.len() {
                assert(pairs[k] == before[k]);
            } else {
                assert(pairs[k] == (last, eps2[k - before.len()]));
            }
        }
    }
}

proof fn lemma_matched_first_joint<W: Semiring>(
    trs1: Seq<Tr<W>>,
    trs2: Seq<Tr<W>>,
    s1: StateId,
    s2: StateId,
    k: nat,
)
    requires
        k <= trs1.len(),
    ensures
        joint_steps(trs1, trs2, s1, s2, matched_from_first(trs1, trs2, k)),
    decreases k,
{
    if k > 0 {
        lemma_matched_first_joint(trs1, trs2, s1, s2, (k - 1) as nat);
        let tr1 = trs1[k - 1];
        let found = select_trs(trs2, MatchType::MatchInput, tr1.olabel);
        lemma_select_among(trs2, MatchType::MatchInput, tr1.olabel);
        let pairs = matched_from_first(trs1, trs2, k);
        let before = matched_from_first(trs1, trs2, (k - 1) as nat);
        assert forall|n: int| 0 <= n < pairs.len() implies joint_step(
            trs1,
            trs2,
            s1,
            s2,
            #[trigger] pairs[n],
        ) by {
            if n < before.len() {
                assert(pairs[n] == before[n]);
            } else {
                let tr2 = found[n - before.len()];
                assert(pairs[n] == (tr1, tr2));
                assert(among(trs2, tr2));
            }
        }
    }
}

proof fn lemma_matched_second_joint<W: Semiring>(
    trs1: Seq<Tr<W>>,
    trs2: Seq<Tr<W>>,
    s1: StateId,
    s2: StateId,
    k: nat,
)
    requires
        k <= trs2.len(),
    ensures
        joint_steps(trs1, trs2, s1, s2, matched_from_second(trs1, trs2, k)),
    decreases k,
{
    if k > 0 {
        lemma_matched_second_joint(trs1, trs2, s1, s2, (k - 1) as nat);
        let tr2 = trs2[k - 1];
        let found = select_trs(trs1, MatchType::MatchOutput, tr2.ilabel);
        lemma_select_among(trs1, MatchType::MatchOutput, tr2.ilabel);
        let pairs = matched_from_second(trs1, trs2, k);
        let before = matched_from_second(trs1, trs2, (k - 1) as nat);
        assert forall|n: int| 0 <= n < pairs.len() implies joint_step(
            trs1,
            trs2,
            s1,
            s2,
            #[trigger] pairs[n],
        ) by {
            if n < before.len() {
                assert(pairs[n] == before[n]);
            } else {
                let tr1 = found[n - before.len()];
                assert(pairs[n] == (tr1, tr2));
                assert(among(trs1, tr1));
            }
        }
    }
}

/// Every pair that a composition considers is a step that the two
/// transducers can take together.
pub proof fn lemma_candidates_joint<W: Semiring>(
    fst1: FstModel<W>,
    fst2: FstModel<W>,
    s1: StateId,
    s2: StateId,
)
    ensures
        joint_steps(
            fst1.states[s1 as int].trs,
            fst2.states[s2 as int].trs,
            s1,
            s2,
            candidates(fst1, fst2, s1, s2),
        ),
{
    let trs1 = fst1.states[s1 as int].trs;
    let trs2 = fst2.states[s2 as int].trs;
    lemma_matched_first_joint(trs1, trs2, s1, s2, trs1.len());
    lemma_matched_second_joint(trs1, trs2, s1, s2, trs2.len());
    let eps1 = select_trs(trs1, MatchType::MatchOutput, EPS_LABEL);
    let eps2 = select_trs(trs2, MatchType::MatchInput, EPS_LABEL);
    lemma_select_among(trs1, MatchType::MatchOutput, EPS_LABEL);
    lemma_select_among(trs2, MatchType::MatchInput, EPS_LABEL);
    lemma_all_pairs_joint(trs1, trs2, s1, s2, eps1, eps2);
    let matched = matched_pairs(trs1, trs2);
    let alone1 = pairs_with(eps1, loop2::<W>(s2));
    let alone2 = pairs_from(loop1::<W>(s1), eps2);
    let both = all_pairs(eps1, eps2);
    let pairs = candidates(fst1, fst2, s1, s2);
    assert forall|k: int| 0 <= k < pairs.len() implies joint_step(
        trs1,
        trs2,
        s1,
        s2,
        #[trigger] pairs[k],
    ) by {
        if k < matched.len() {
            assert(pairs[k] == matched[k]);
        } else if k < matched.len() + alone1.len() {
            let i = k - matched.len();
            assert(pairs[k] == alone1[i]);
            assert(among(trs1, eps1[i]));
        } else if k < matched.len() + alone1.len() + alone2.len() {
            let j = k - matched.len() - alone1.len();
            assert(pairs[k] == alone2[j]);
            assert(among(trs2, eps2[j]));
        } else {
            assert(pairs[k] == both[k - matched.len() - alone1.len() - alone2.len()]);
        }
    }
}

/// The filter hands on the pairs that it keeps, and the final weights, as
/// they are.
pub open spec fn plain<'a, W: Semiring + 'a, CF: ComposeFilter<'a, W>>() -> bool {
    &&& forall|
        fst1: FstModel<W>,
        fst2: FstModel<W>,
        at: StateTuple<CF::FS>,
        tr1: Tr<W>,
        tr2: Tr<W>,
    |
        {
            let r = #[trigger] CF::filter_tr_spec(fst1, fst2, at, tr1, tr2);
            r.0 == CF::FS::no_state_spec() || (r.1 == tr1 && r.2 == tr2)
        }
    &&& forall|at: StateTuple<CF::FS>, w1: W, w2: W| #[trigger]
        CF::filter_final_spec(at, w1, w2) == (w1, w2)
}

/// The filter keeps the pair `pair` at `at`, and `ptr` is the transition
/// that the pair gives.
pub open spec fn given_by<'a, W: Semiring + 'a, CF: ComposeFilter<'a, W>>(
    fst1: FstModel<W>,
    fst2: FstModel<W>,
    at: StateTuple<CF::FS>,
    pair: TrPair<W>,
    ptr: ProductTr<W, CF::FS>,
) -> bool {
    let (fs, t1, t2) = CF::filter_tr_spec(fst1, fst2, at, pair.0, pair.1);
    &&& fs != CF::FS::no_state_spec()
    &&& ptr == (ProductTr {
        ilabel: t1.ilabel,
        olabel: t2.olabel,
        weight: t1.weight.times_spec(t2.weight),
        next: StateTuple { s1: t1.nextstate, s2: t2.nextstate, fs },
    })
}

/// Every transition that pairs give is given by one of them; the result is
/// the place of that pair.
pub proof fn lemma_emit_source<'a, W: Semiring + 'a, CF: ComposeFilter<'a, W>>(
    fst1: FstModel<W>,
    fst2: FstModel<W>,
    at: StateTuple<CF::FS>,
    pairs: Seq<TrPair<W>>,
    k: int,
) -> (n: int)
    requires
        0 <= k < emit::<W, CF>(fst1, fst2, at, pairs).len(),
    ensures
        0 <= n < pairs.len(),
        given_by::<W, CF>(fst1, fst2, at, pairs[n], emit::<W, CF>(fst1, fst2, at, pairs)[k]),
    decreases pairs.len(),
{
    let rest = emit::<W, CF>(fst1, fst2, at, pairs.drop_last());
    if k < rest.len() {
        let n = lemma_emit_source::<W, CF>(fst1, fst2, at, pairs.drop_last(), k);
        assert(pairs.drop_last()[n] == pairs[n]);
        n
    } else {
        pairs.len() - 1
    }
}

/// The states of a composition are pairs of states of the two transducers.
pub proof fn lemma_tuples_are_states<'a, W: Semiring + 'a, CF: ComposeFilter<'a, W>>(
    fst1: FstModel<W>,
    fst2: FstModel<W>,
    tuples: Seq<StateTuple<CF::FS>>,
    m: FstModel<W>,
    id: int,
)
    requires
        fst1.wf(),
        fst2.wf(),
        is_composition::<W, CF>(fst1, fst2, tuples, m),
        0 <= id < m.states.len(),
    ensures
        id < tuples.len(),
        fst1.has_state(tuples[id].s1),
        fst2.has_state(tuples[id].s2),
    decreases id,
{
    if id > 0 {
        assert(reached_from_earlier::<W, CF>(fst1, fst2, tuples, id));
        let (p, k) = choose|p: int, k: int|
            0 <= p < id && 0 <= k < product_trs::<W, CF>(fst1, fst2, tuples[p]).len()
                && #[trigger] product_trs::<W, CF>(fst1, fst2, tuples[p])[k].next == tuples[id];
        lemma_tuples_are_states::<W, CF>(fst1, fst2, tuples, m, p);
        let at = tuples[p];
        let pairs = candidates(fst1, fst2, at.s1, at.s2);
        let n = lemma_emit_source::<W, CF>(fst1, fst2, at, pairs, k);
        lemma_candidates_below(fst1, fst2, at.s1, at.s2);
        CF::lemma_filter_tr(fst1, fst2, at, pairs[n].0, pairs[n].1);
    }
}

/// At the state `from` of the composition, the filter keeps the pair
/// `pair`, one of those that the composition considers there, and `tr` is
/// the transition that the pair gives.
pub open spec fn gives<'a, W: Semiring + 'a, CF: ComposeFilter<'a, W>>(
    fst1: FstModel<W>,
    fst2: FstModel<W>,
    tuples: Seq<StateTuple<CF::FS>>,
    from: StateId,
    pair: TrPair<W>,
    tr: Tr<W>,
) -> bool {
    let at = tuples[from as int];
    let (fs, t1, t2) = CF::filter_tr_spec(fst1, fst2, at, pair.0, pair.1);
    &&& candidates(fst1, fst2, at.s1, at.s2).contains(pair)
    &&& fs != CF::FS::no_state_spec()
    &&& tr.ilabel == t1.ilabel
    &&& tr.olabel == t2.olabel
    &&& tr.weight == t1.weight.times_spec(t2.weight)
    &&& tr.nextstate < tuples.len()
    &&& tuples[tr.nextstate as int] == (StateTuple { s1: t1.nextstate, s2: t2.nextstate, fs })
}

/// The path `path` of the composition, from its state `from`, is the path
/// `path1` of the first transducer taken together with the path `path2` of the
/// second: each transition of `path` is given by the next transitions of
/// both, or by the next transition of the first while the second stays, or
/// by the next transition of the second while the first stays, and with
/// the last transition of `path` both `path1` and `path2` are at their end.
pub open spec fn projects<'a, W: Semiring + 'a, CF: ComposeFilter<'a, W>>(
    fst1: FstModel<W>,
    fst2: FstModel<W>,
    tuples: Seq<StateTuple<CF::FS>>,
    from: StateId,
    path: Seq<Tr<W>>,
    path1: Seq<Tr<W>>,
    path2: Seq<Tr<W>>,
) -> bool
    decreases path.len(),
{
    if path.len() == 0 {
        path1.len() == 0 && path2.len() == 0
    } else {
        let at = tuples[from as int];
        let next = path[0].nextstate;
        let rest = path.drop_first();
        ||| path1.len() > 0 && path2.len() > 0 && gives::<W, CF>(
            fst1,
            fst2,
            tuples,
            from,
            (path1[0], path2[0]),
            path[0],
        ) && projects::<W, CF>(fst1, fst2, tuples, next, rest, path1.drop_first(),
            path2.drop_first())
        ||| path1.len() > 0 && gives::<W, CF>(
            fst1,
            fst2,
            tuples,
            from,
            (path1[0], loop2::<W>(at.s2)),
            path[0],
        ) && projects::<W, CF>(fst1, fst2, tuples, next, rest, path1.drop_first(), path2)
        ||| path2.len() > 0 && gives::<W, CF>(
            fst1,
            fst2,
            tuples,
            from,
            (loop1::<W>(at.s1), path2[0]),
            path[0],
        ) && projects::<W, CF>(fst1, fst2, tuples, next, rest, path1, path2.drop_first())
    }
}

/// In a commutative semiring the product of two products can be taken
/// factor by factor.
pub proof fn lemma_times_interchange<W: Semiring>(a: W, b: W, c: W, d: W)
    requires
        W::properties_spec().contains_spec(COMMUTATIVE),
    ensures
        a.times_spec(b).times_spec(c.times_spec(d)) == a.times_spec(c).times_spec(b.times_spec(d)),
{
    W::lemma_times_associative(a, b, c.times_spec(d));
    W::lemma_times_associative(b, c, d);
    W::lemma_properties(b, c);
    W::lemma_times_associative(c, b, d);
    W::lemma_times_associative(a, c, b.times_spec(d));
}

/// Every path of a composition is made of a path of the first transducer
/// and a path of the second: the two lead from the two states of the
/// path's first state to the two states of its last state; the first
/// consumes what the path consumes, the second emits what the path emits,
/// and the second consumes what the first emits. In a commutative semiring
/// the weight of the path is the product of the weights of the two.
///
/// The result holds the two paths, of which the path is made step by step.
pub proof fn lemma_path_of_composition<'a, W: Semiring + 'a, CF: ComposeFilter<'a, W>>(
    fst1: FstModel<W>,
    fst2: FstModel<W>,
    tuples: Seq<StateTuple<CF::FS>>,
    m: FstModel<W>,
    from: StateId,
    path: Seq<Tr<W>>,
    to: StateId,
) -> (r: (Seq<Tr<W>>, Seq<Tr<W>>))
    requires
        fst1.wf(),
        fst2.wf(),
        plain::<W, CF>(),
        is_composition::<W, CF>(fst1, fst2, tuples, m),
        m.states.len() <= usize::MAX,
        is_path(m, from, path, to),
    ensures
        from < tuples.len(),
        to < tuples.len(),
        is_path(fst1, tuples[from as int].s1, r.0, tuples[to as int].s1),
        is_path(fst2, tuples[from as int].s2, r.1, tuples[to as int].s2),
        projects::<W, CF>(fst1, fst2, tuples, from, path, r.0, r.1),
        input_string(r.0) == input_string(path),
        output_string(r.1) == output_string(path),
        output_string(r.0) == input_string(r.1),
        W::properties_spec().contains_spec(COMMUTATIVE) ==> path_weight(path) == path_weight(
            r.0,
        ).times_spec(path_weight(r.1)),
    decreases path.len(),
{
    lemma_tuples_are_states::<W, CF>(fst1, fst2, tuples, m, from as int);
    let at = tuples[from as int];
    if path.len() == 0 {
        W::lemma_identities(W::one_spec());
        (Seq::empty(), Seq::empty())
    } else {
        let tr = path[0];
        let rest = path.drop_first();
        let (rest1, rest2) = lemma_path_of_composition::<W, CF>(
            fst1,
            fst2,
            tuples,
            m,
            tr.nextstate,
            rest,
            to,
        );
        let ptrs = product_trs::<W, CF>(fst1, fst2, at);
        let k = choose|k: int|
            0 <= k < m.states[from as int].trs.len() && #[trigger] m.states[from as int].trs[k]
                == tr;
        assert(m.states[from as int].trs == resolved(tuples, ptrs));
        assert(known(tuples, ptrs[k].next));
        assert(tr.nextstate == id_of(tuples, ptrs[k].next));
        let pairs = candidates(fst1, fst2, at.s1, at.s2);
        let n = lemma_emit_source::<W, CF>(fst1, fst2, at, pairs, k);
        let (tr1, tr2) = pairs[n];
        lemma_candidates_joint(fst1, fst2, at.s1, at.s2);
        assert(joint_step(
            fst1.states[at.s1 as int].trs,
            fst2.states[at.s2 as int].trs,
            at.s1,
            at.s2,
            pairs[n],
        ));
        let r = CF::filter_tr_spec(fst1, fst2, at, tr1, tr2);
        assert(r.1 == tr1 && r.2 == tr2);
        assert(gives::<W, CF>(fst1, fst2, tuples, from, pairs[n], tr));
        let trs1 = fst1.states[at.s1 as int].trs;
        let trs2 = fst2.states[at.s2 as int].trs;
        let w1 = path_weight(rest1);
        let w2 = path_weight(rest2);
        if among(trs1, tr1) && among(trs2, tr2) && tr1.olabel == tr2.ilabel {
            let path1 = seq![tr1] + rest1;
            let path2 = seq![tr2] + rest2;
            assert(path1.drop_first() =~= rest1);
            assert(path2.drop_first() =~= rest2);
            if W::properties_spec().contains_spec(COMMUTATIVE) {
                lemma_times_interchange(tr1.weight, tr2.weight, w1, w2);
            }
            (path1, path2)
        } else if among(trs1, tr1) && tr1.olabel == EPS_LABEL && tr2 == loop2::<W>(at.s2) {
            let path1 = seq![tr1] + rest1;
            assert(path1.drop_first() =~= rest1);
            W::lemma_identities(tr1.weight);
            W::lemma_times_associative(tr1.weight, w1, w2);
            (path1, rest2)
        } else {
            let path2 = seq![tr2] + rest2;
            assert(path2.drop_first() =~= rest2);
            W::lemma_identities(tr2.weight);
            if W::properties_spec().contains_spec(COMMUTATIVE) {
                W::lemma_times_associative(tr2.weight, w1, w2);
                W::lemma_properties(tr2.weight, w1);
                W::lemma_times_associative(w1, tr2.weight, w2);
            }
            (rest1, path2)
        }
    }
}

/// Every path that a composition accepts is made of a path that the first
/// transducer accepts and a path that the second accepts: the first
/// consumes what the path consumes, the second emits what the path emits,
/// and the second consumes what the first emits. In a commutative semiring
/// the weight of the path is the product of the weights of the two.
///
/// The result holds the two paths.
pub proof fn lemma_accepted_by_composition<'a, W: Semiring + 'a, CF: ComposeFilter<'a, W>>(
    fst1: FstModel<W>,
    fst2: FstModel<W>,
    tuples: Seq<StateTuple<CF::FS>>,
    m: FstModel<W>,
    path: Seq<Tr<W>>,
    to: StateId,
) -> (r: (Seq<Tr<W>>, Seq<Tr<W>>))
    requires
        fst1.wf(),
        fst2.wf(),
        plain::<W, CF>(),
        is_composition::<W, CF>(fst1, fst2, tuples, m),
        m.states.len() <= usize::MAX,
        is_successful(m, path, to),
    ensures
        to < tuples.len(),
        is_successful(fst1, r.0, tuples[to as int].s1),
        is_successful(fst2, r.1, tuples[to as int].s2),
        projects::<W, CF>(fst1, fst2, tuples, 0, path, r.0, r.1),
        input_string(r.0) == input_string(path),
        output_string(r.1) == output_string(path),
        output_string(r.0) == input_string(r.1),
        W::properties_spec().contains_spec(COMMUTATIVE) ==> total_weight(m, path, to)
            == total_weight(fst1, r.0, tuples[to as int].s1).times_spec(
            total_weight(fst2, r.1, tuples[to as int].s2),
        ),
{
    let r = lemma_path_of_composition::<W, CF>(fst1, fst2, tuples, m, 0, path, to);
    lemma_tuples_are_states::<W, CF>(fst1, fst2, tuples, m, to as int);
    let end = tuples[to as int];
    let f1 = fst1.states[end.s1 as int].final_weight->0;
    let f2 = fst2.states[end.s2 as int].final_weight->0;
    assert(CF::filter_final_spec(end, f1, f2) == (f1, f2));
    if W::properties_spec().contains_spec(COMMUTATIVE) {
        lemma_times_interchange(path_weight(r.0), path_weight(r.1), f1, f2);
    }
    r
}

/// The filter that keeps the matches on a symbol only hands on what it keeps as it is.
pub proof fn lemma_null_filter_plain<
    'a,
    W: Semiring + 'a,
    M1: Matcher<'a, W>,
    M2: Matcher<'a, W>,
>()
    ensures
        plain::<W, NullComposeFilter<M1, M2>>(),
{
}

/// The filter that keeps every pair hands on what it keeps as it is.
pub proof fn lemma_trivial_filter_plain<
    'a,
    W: Semiring + 'a,
    M1: Matcher<'a, W>,
    M2: Matcher<'a, W>,
>()
    ensures
        plain::<W, TrivialComposeFilter<M1, M2>>(),
{
}

/// The filter that lets the first transducer move on the empty string
/// before the second hands on what it keeps as it is.
pub proof fn lemma_sequence_filter_plain<
    'a,
    W: Semiring + 'a,
    M1: Matcher<'a, W>,
    M2: Matcher<'a, W>,
>()
    ensures
        plain::<W, SequenceComposeFilter<M1, M2>>(),
{
}

/// The filter that lets the second transducer move on the empty string
/// before the first hands on what it keeps as it is.
pub proof fn lemma_alt_sequence_filter_plain<
    'a,
    W: Semiring + 'a,
    M1: Matcher<'a, W>,
    M2: Matcher<'a, W>,
>()
    ensures
        plain::<W, AltSequenceComposeFilter<M1, M2>>(),
{
}

/// The filter that prefers a joint move on the empty string hands on what it keeps as it is.
pub proof fn lemma_match_filter_plain<
    'a,
    W: Semiring + 'a,
    M1: Matcher<'a, W>,
    M2: Matcher<'a, W>,
>()
    ensures
        plain::<W, MatchComposeFilter<M1, M2>>(),
{
}

/// The filter that forbids a joint move on the empty string hands on what it keeps as it is.
pub proof fn lemma_no_match_filter_plain<
    'a,
    W: Semiring + 'a,
    M1: Matcher<'a, W>,
    M2: Matcher<'a, W>,
>()
    ensures
        plain::<W, NoMatchComposeFilter<M1, M2>>(),
{
}

/// A filter with a look-ahead hands on what it keeps as it is if the filter
/// that it looks ahead for does.
pub proof fn lemma_lookahead_filter_plain<
    'a,
    W: Semiring + 'a,
    CF: ComposeFilter<'a, W>,
    SMT: MatchTypeTrait,
>()
    where
        CF::M1: LookaheadMatcher<'a, W>,
        CF::M2: LookaheadMatcher<'a, W>,
    requires
        plain::<W, CF>(),
    ensures
        plain::<W, LookAheadComposeFilter<'a, W, CF, SMT>>(),
{
}

} // verus!
