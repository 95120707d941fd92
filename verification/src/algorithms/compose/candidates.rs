//! The pairs of transitions that a composition considers at one of its
//! states.

use vstd::prelude::*;

use crate::algorithms::compose::compose_filters::compose_filter::{is_symbol, label_is_symbol};
use crate::algorithms::compose::matchers::{select_trs, MatchType, Matcher};
use crate::error::FstError;
use crate::fst_impls::FstModel;
use crate::semirings::Semiring;
use crate::tr::Tr;
use crate::{StateId, EPS_LABEL, LOOP_LABEL};

verus! {

/// A transition of the first transducer with one of the second.
pub type TrPair<W> = (Tr<W>, Tr<W>);

/// The transition that stands for "the first transducer stays at `s1`".
pub open spec fn loop1<W: Semiring>(s1: StateId) -> Tr<W> {
    Tr { ilabel: EPS_LABEL, olabel: LOOP_LABEL, weight: W::one_spec(), nextstate: s1 }
}

/// The transition that stands for "the second transducer stays at `s2`".
pub open spec fn loop2<W: Semiring>(s2: StateId) -> Tr<W> {
    Tr { ilabel: LOOP_LABEL, olabel: EPS_LABEL, weight: W::one_spec(), nextstate: s2 }
}

/// `tr1` with each of `trs2`.
pub open spec fn pairs_from<W>(tr1: Tr<W>, trs2: Seq<Tr<W>>) -> Seq<TrPair<W>> {
    Seq::new(trs2.len(), |j: int| (tr1, trs2[j]))
}

/// Each of `trs1` with `tr2`.
pub open spec fn pairs_with<W>(trs1: Seq<Tr<W>>, tr2: Tr<W>) -> Seq<TrPair<W>> {
    Seq::new(trs1.len(), |i: int| (trs1[i], tr2))
}

/// Each of `trs1` with each of `trs2`, in the order of `trs1` first.
pub open spec fn all_pairs<W>(trs1: Seq<Tr<W>>, trs2: Seq<Tr<W>>) -> Seq<TrPair<W>>
    decreases trs1.len(),
{
    if trs1.len() == 0 {
        Seq::empty()
    } else {
        all_pairs(trs1.drop_last(), trs2) + pairs_from(trs1.last(), trs2)
    }
}

/// The pairs that match on a symbol, found from the first `k` transitions of
/// the first transducer: each that emits a symbol, with the transitions of
/// the second that consume that symbol.
pub open spec fn matched_from_first<W>(trs1: Seq<Tr<W>>, trs2: Seq<Tr<W>>, k: nat) -> Seq<
    TrPair<W>,
>
    decreases k,
{
    if k == 0 {
        Seq::empty()
    } else {
        let tr1 = trs1[k - 1];
        matched_from_first(trs1, trs2, (k - 1) as nat) + if is_symbol(tr1.olabel) {
            pairs_from(tr1, select_trs(trs2, MatchType::MatchInput, tr1.olabel))
        } else {
            Seq::empty()
        }
    }
}

/// The pairs that match on a symbol, found from the first `k` transitions of
/// the second transducer: each that consumes a symbol, with the transitions
/// of the first that emit that symbol.
pub open spec fn matched_from_second<W>(trs1: Seq<Tr<W>>, trs2: Seq<Tr<W>>, k: nat) -> Seq<
    TrPair<W>,
>
    decreases k,
{
    if k == 0 {
        Seq::empty()
    } else {
        let tr2 = trs2[k - 1];
        matched_from_second(trs1, trs2, (k - 1) as nat) + if is_symbol(tr2.ilabel) {
            pairs_with(select_trs(trs1, MatchType::MatchOutput, tr2.ilabel), tr2)
        } else {
            Seq::empty()
        }
    }
}

/// The pairs that match on a symbol. The transducer whose state has fewer
/// transitions is walked, the first one if they have as many, and the other
/// one is asked for the matches.
pub open spec fn matched_pairs<W>(trs1: Seq<Tr<W>>, trs2: Seq<Tr<W>>) -> Seq<TrPair<W>> {
    if trs1.len() <= trs2.len() {
        matched_from_first(trs1, trs2, trs1.len())
    } else {
        matched_from_second(trs1, trs2, trs2.len())
    }
}

/// The pairs in which a transducer moves on the empty string: those in which
/// the first moves and the second stays, then those in which the second
/// moves and the first stays, then those in which both move.
pub open spec fn epsilon_pairs<W: Semiring>(
    trs1: Seq<Tr<W>>,
    trs2: Seq<Tr<W>>,
    s1: StateId,
    s2: StateId,
) -> Seq<TrPair<W>> {
    let eps1 = select_trs(trs1, MatchType::MatchOutput, EPS_LABEL);
    let eps2 = select_trs(trs2, MatchType::MatchInput, EPS_LABEL);
    pairs_with(eps1, loop2(s2)) + pairs_from(loop1(s1), eps2) + all_pairs(eps1, eps2)
}

/// The pairs of transitions that the composition of `fst1` with `fst2`
/// considers at the state `(s1, s2)`: those that match on a symbol, then
/// those in which a transducer moves on the empty string.
pub open spec fn candidates<W: Semiring>(
    fst1: FstModel<W>,
    fst2: FstModel<W>,
    s1: StateId,
    s2: StateId,
) -> Seq<TrPair<W>> {
    let trs1 = fst1.states[s1 as int].trs;
    let trs2 = fst2.states[s2 as int].trs;
    matched_pairs(trs1, trs2) + epsilon_pairs(trs1, trs2, s1, s2)
}

/// Appends `tr1` with each of `trs2`.
fn push_pairs_from<W: Semiring>(out: &mut Vec<TrPair<W>>, tr1: Tr<W>, trs2: &Vec<Tr<W>>)
    ensures
        final(out)@ == old(out)@ + pairs_from(tr1, trs2@),
{
    let mut j: usize = 0;
    while j < trs2.len()
        invariant
            j <= trs2.len(),
            out@ == old(out)@ + pairs_from(tr1, trs2@.take(j as int)),
        decreases trs2.len() - j,
    {
        out.push((tr1, trs2[j]));
        j = j + 1;
        assert(out@ =~= old(out)@ + pairs_from(tr1, trs2@.take(j as int)));
    }
    assert(trs2@.take(j as int) =~= trs2@);
}

/// Appends each of `trs1` with `tr2`.
fn push_pairs_with<W: Semiring>(out: &mut Vec<TrPair<W>>, trs1: &Vec<Tr<W>>, tr2: Tr<W>)
    ensures
        final(out)@ == old(out)@ + pairs_with(trs1@, tr2),
{
    let mut i: usize = 0;
    while i < trs1.len()
        invariant
            i <= trs1.len(),
            out@ == old(out)@ + pairs_with(trs1@.take(i as int), tr2),
        decreases trs1.len() - i,
    {
        out.push((trs1[i], tr2));
        i = i + 1;
        assert(out@ =~= old(out)@ + pairs_with(trs1@.take(i as int), tr2));
    }
    assert(trs1@.take(i as int) =~= trs1@);
}

/// The pairs of transitions that the composition of the transducers of the
/// two matchers considers at the state `(s1, s2)`.
pub fn candidate_pairs<'a, W: Semiring + 'a, M1: Matcher<'a, W>, M2: Matcher<'a, W>>(
    matcher1: &M1,
    matcher2: &M2,
    s1: StateId,
    s2: StateId,
) -> (r: Result<Vec<TrPair<W>>, FstError>)
    requires
        matcher1.inv(),
        matcher2.inv(),
        matcher1.match_type_spec() == MatchType::MatchOutput,
        matcher2.match_type_spec() == MatchType::MatchInput,
    ensures
        matcher1.fst_spec().has_state(s1) && matcher2.fst_spec().has_state(s2) ==> r is Ok
            && r->Ok_0@ == candidates(matcher1.fst_spec(), matcher2.fst_spec(), s1, s2),
        !matcher1.fst_spec().has_state(s1) ==> r == Err::<Vec<TrPair<W>>, FstError>(
            FstError::InvalidState(s1),
        ),
        matcher1.fst_spec().has_state(s1) && !matcher2.fst_spec().has_state(s2) ==> r == Err::<
            Vec<TrPair<W>>,
            FstError,
        >(FstError::InvalidState(s2)),
{
    let fst1 = matcher1.fst();
    let fst2 = matcher2.fst();
    if s1 >= fst1.num_states() {
        return Err(FstError::InvalidState(s1));
    }
    if s2 >= fst2.num_states() {
        return Err(FstError::InvalidState(s2));
    }
    let trs1 = fst1.trs(s1);
    let trs2 = fst2.trs(s2);
    let mut out: Vec<TrPair<W>> = Vec::new();

    // Matches on a symbol.
    if trs1.len() <= trs2.len() {
        let mut k: usize = 0;
        while k < trs1.len()
            invariant
                k <= trs1.len(),
                matcher2.inv(),
                matcher2.match_type_spec() == MatchType::MatchInput,
                matcher2.fst_spec().has_state(s2),
                trs2@ == matcher2.fst_spec().states[s2 as int].trs,
                out@ == matched_from_first(trs1@, trs2@, k as nat),
            decreases trs1.len() - k,
        {
            let tr1 = trs1[k];
            if label_is_symbol(tr1.olabel) {
                let found = matcher2.iter(s2, tr1.olabel)?;
                push_pairs_from(&mut out, tr1, &found);
            } else {
                assert(out@ + Seq::<TrPair<W>>::empty() =~= out@);
            }
            k = k + 1;
        }
    } else {
        let mut k: usize = 0;
        while k < trs2.len()
            invariant
                k <= trs2.len(),
                matcher1.inv(),
                matcher1.match_type_spec() == MatchType::MatchOutput,
                matcher1.fst_spec().has_state(s1),
                trs1@ == matcher1.fst_spec().states[s1 as int].trs,
                out@ == matched_from_second(trs1@, trs2@, k as nat),
            decreases trs2.len() - k,
        {
            let tr2 = trs2[k];
            if label_is_symbol(tr2.ilabel) {
                let found = matcher1.iter(s1, tr2.ilabel)?;
                push_pairs_with(&mut out, &found, tr2);
            } else {
                assert(out@ + Seq::<TrPair<W>>::empty() =~= out@);
            }
            k = k + 1;
        }
    }
    let ghost matched = out@;

    // Moves on the empty string.
    let eps1 = matcher1.iter(s1, EPS_LABEL)?;
    let eps2 = matcher2.iter(s2, EPS_LABEL)?;
    push_pairs_with(&mut out, &eps1, Tr::new(LOOP_LABEL, EPS_LABEL, W::one(), s2));
    push_pairs_from(&mut out, Tr::new(EPS_LABEL, LOOP_LABEL, W::one(), s1), &eps2);
    let ghost alone = out@;
    let mut i: usize = 0;
    while i < eps1.len()
        invariant
            i <= eps1.len(),
            out@ == alone + all_pairs(eps1@.take(i as int), eps2@),
        decreases eps1.len() - i,
    {
        assert(eps1@.take(i + 1).drop_last() =~= eps1@.take(i as int));
        push_pairs_from(&mut out, eps1[i], &eps2);
        i = i + 1;
        assert(out@ =~= alone + all_pairs(eps1@.take(i as int), eps2@));
    }
    assert(eps1@.take(i as int) =~= eps1@);
    assert(out@ =~= matched + epsilon_pairs(trs1@, trs2@, s1, s2));
    Ok(out)
}

} // verus!
