//! What a composition accepts, and what its operands accept.

use vstd::prelude::*;

use crate::algorithms::compose::alt_sequenced_paths::lemma_accepted_in_alt_sequence;
use crate::algorithms::compose::compose::composed_with;
use crate::algorithms::compose::compose_filters::{
    AltSequenceComposeFilter, ComposeFilter, MatchComposeFilter, SequenceComposeFilter,
};
use crate::algorithms::compose::compose_fst::is_composition;
use crate::algorithms::compose::filter_states::IntegerFilterState;
use crate::algorithms::compose::joint_moves::{no_sentinel_inputs, no_sentinel_outputs};
use crate::algorithms::compose::matched_paths::{lemma_accepted_with_joint_moves, MatchState};
use crate::algorithms::compose::matchers::Matcher;
use crate::algorithms::compose::paths::{lemma_accepted_by_composition, plain};
use crate::algorithms::compose::sequenced_paths::lemma_accepted_in_sequence;
use crate::algorithms::compose::state_table::StateTuple;
use crate::algorithms::connect::{
    connect_spec, kept_below, lemma_connect_adds_nothing, lemma_connect_keeps_accepted,
    renumbered_path, useful_states,
};
use crate::error::FstError;
use crate::fst_impls::{FstModel, VectorFst};
use crate::fst_traits::paths::{input_string, is_successful, output_string, total_weight};
use crate::semirings::{Semiring, COMMUTATIVE};
use crate::tr::Tr;
use crate::StateId;

verus! {

/// A path with the state where it ends.
pub type EndedPath<W> = (Seq<Tr<W>>, StateId);

/// Whatever a composition accepts, its operands accept: for every path from
/// the start state to a final state of the composition of `fst1` with
/// `fst2` under a filter that hands on what it keeps as it is, trimmed or
/// not, there are such a path of `fst1` and such a path of `fst2`, of which
/// the first consumes what the path consumes, the second emits what the
/// path emits, and the second consumes what the first emits. In a
/// commutative semiring the weight of the path is the product of the
/// weights of the two.
///
/// The result holds the two paths.
pub proof fn lemma_composition_accepts_pairs_only<'a, W: Semiring + 'a, CF: ComposeFilter<'a, W>>(
    fst1: FstModel<W>,
    fst2: FstModel<W>,
    trim: bool,
    r: Result<VectorFst<W>, FstError>,
    path: Seq<Tr<W>>,
    to: StateId,
) -> (found: (EndedPath<W>, EndedPath<W>))
    requires
        fst1.wf(),
        fst2.wf(),
        plain::<W, CF>(),
        composed_with::<W, CF>(fst1, fst2, trim, r),
        r is Ok,
        is_successful(r->Ok_0@, path, to),
    ensures
        is_successful(fst1, found.0.0, found.0.1),
        is_successful(fst2, found.1.0, found.1.1),
        input_string(found.0.0) == input_string(path),
        output_string(found.1.0) == output_string(path),
        output_string(found.0.0) == input_string(found.1.0),
        W::properties_spec().contains_spec(COMMUTATIVE) ==> total_weight(r->Ok_0@, path, to)
            == total_weight(fst1, found.0.0, found.0.1).times_spec(
            total_weight(fst2, found.1.0, found.1.1),
        ),
{
    let (tuples, m) = choose|tuples: Seq<StateTuple<CF::FS>>, m: FstModel<W>|
        #[trigger] is_composition::<W, CF>(fst1, fst2, tuples, m) && m.wf() && m.states.len()
            <= usize::MAX && r->Ok_0@ == (if trim {
            connect_spec(m)
        } else {
            m
        });
    let (whole, end) = if trim {
        lemma_connect_adds_nothing(m, path, to)
    } else {
        (path, to)
    };
    let (path1, path2) = lemma_accepted_by_composition::<W, CF>(fst1, fst2, tuples, m, whole, end);
    ((path1, tuples[end as int].s1), (path2, tuples[end as int].s2))
}

/// `found` is a path from the start state to a final state of `r` that
/// consumes what `path1` consumes and emits what `path2` emits, and in a
/// commutative semiring has the product of the weights of `path1` in `fst1`
/// and of `path2` in `fst2` as its weight.
pub open spec fn accepts_pair<W: Semiring>(
    fst1: FstModel<W>,
    fst2: FstModel<W>,
    r: FstModel<W>,
    path1: EndedPath<W>,
    path2: EndedPath<W>,
    found: EndedPath<W>,
) -> bool {
    &&& is_successful(r, found.0, found.1)
    &&& input_string(found.0) == input_string(path1.0)
    &&& output_string(found.0) == output_string(path2.0)
    &&& W::properties_spec().contains_spec(COMMUTATIVE) ==> total_weight(r, found.0, found.1)
        == total_weight(fst1, path1.0, path1.1).times_spec(total_weight(fst2, path2.0, path2.1))
}

/// `path1` and `path2` are paths from the start state to a final state of `fst1`
/// and of `fst2`, of which the second consumes what the first emits, and
/// neither has a sentinel as a label where they meet.
pub open spec fn accepted_pair<W: Semiring>(
    fst1: FstModel<W>,
    fst2: FstModel<W>,
    path1: EndedPath<W>,
    path2: EndedPath<W>,
) -> bool {
    &&& is_successful(fst1, path1.0, path1.1)
    &&& is_successful(fst2, path2.0, path2.1)
    &&& output_string(path1.0) == input_string(path2.0)
    &&& no_sentinel_outputs(path1.0)
    &&& no_sentinel_inputs(path2.0)
}

/// A path that the composition `m` accepts is accepted by what `r` holds:
/// `m` itself, or `m` trimmed.
proof fn lemma_kept_if_trimmed<W: Semiring>(
    fst1: FstModel<W>,
    fst2: FstModel<W>,
    m: FstModel<W>,
    trim: bool,
    path1: EndedPath<W>,
    path2: EndedPath<W>,
    found: EndedPath<W>,
) -> (kept: EndedPath<W>)
    requires
        m.wf(),
        m.states.len() <= usize::MAX,
        accepts_pair(fst1, fst2, m, path1, path2, found),
    ensures
        accepts_pair(
            fst1,
            fst2,
            if trim { connect_spec(m) } else { m },
            path1,
            path2,
            kept,
        ),
{
    if trim {
        lemma_connect_keeps_accepted(m, found.0, found.1);
        (
            renumbered_path(found.0, useful_states(m)),
            kept_below(useful_states(m), found.1 as nat) as StateId,
        )
    } else {
        found
    }
}

/// Under the filter that lets the first transducer move on the empty
/// string before the second, the composition, trimmed or not, accepts
/// whatever its operands accept together: the result is a path of it for
/// the paths `path1` and `path2`.
pub proof fn lemma_sequence_composition_accepts<
    'a,
    W: Semiring + 'a,
    M1: Matcher<'a, W>,
    M2: Matcher<'a, W>,
>(
    fst1: FstModel<W>,
    fst2: FstModel<W>,
    trim: bool,
    r: Result<VectorFst<W>, FstError>,
    path1: EndedPath<W>,
    path2: EndedPath<W>,
) -> (found: EndedPath<W>)
    requires
        fst1.wf(),
        fst2.wf(),
        composed_with::<W, SequenceComposeFilter<M1, M2>>(fst1, fst2, trim, r),
        r is Ok,
        accepted_pair(fst1, fst2, path1, path2),
    ensures
        accepts_pair(fst1, fst2, r->Ok_0@, path1, path2, found),
{
    let (tuples, m) = choose|tuples: Seq<StateTuple<IntegerFilterState>>, m: FstModel<W>|
        #[trigger] is_composition::<W, SequenceComposeFilter<M1, M2>>(fst1, fst2, tuples, m)
            && m.wf() && m.states.len() <= usize::MAX && r->Ok_0@ == (if trim {
            connect_spec(m)
        } else {
            m
        });
    let found = lemma_accepted_in_sequence::<W, M1, M2>(
        fst1,
        fst2,
        tuples,
        m,
        path1.0,
        path1.1,
        path2.0,
        path2.1,
    );
    lemma_kept_if_trimmed(fst1, fst2, m, trim, path1, path2, found)
}

/// Under the filter that lets the second transducer move on the empty
/// string before the first, the composition, trimmed or not, accepts
/// whatever its operands accept together: the result is a path of it for
/// the paths `path1` and `path2`.
pub proof fn lemma_alt_sequence_composition_accepts<
    'a,
    W: Semiring + 'a,
    M1: Matcher<'a, W>,
    M2: Matcher<'a, W>,
>(
    fst1: FstModel<W>,
    fst2: FstModel<W>,
    trim: bool,
    r: Result<VectorFst<W>, FstError>,
    path1: EndedPath<W>,
    path2: EndedPath<W>,
) -> (found: EndedPath<W>)
    requires
        fst1.wf(),
        fst2.wf(),
        composed_with::<W, AltSequenceComposeFilter<M1, M2>>(fst1, fst2, trim, r),
        r is Ok,
        accepted_pair(fst1, fst2, path1, path2),
    ensures
        accepts_pair(fst1, fst2, r->Ok_0@, path1, path2, found),
{
    let (tuples, m) = choose|tuples: Seq<StateTuple<IntegerFilterState>>, m: FstModel<W>|
        #[trigger] is_composition::<W, AltSequenceComposeFilter<M1, M2>>(fst1, fst2, tuples, m)
            && m.wf() && m.states.len() <= usize::MAX && r->Ok_0@ == (if trim {
            connect_spec(m)
        } else {
            m
        });
    let found = lemma_accepted_in_alt_sequence::<W, M1, M2>(
        fst1,
        fst2,
        tuples,
        m,
        path1.0,
        path1.1,
        path2.0,
        path2.1,
    );
    lemma_kept_if_trimmed(fst1, fst2, m, trim, path1, path2, found)
}

/// Under the filter that prefers a joint move on the empty string, the
/// composition, trimmed or not, accepts whatever its operands accept
/// together: the result is a path of it for the paths `path1` and `path2`.
pub proof fn lemma_match_composition_accepts<
    'a,
    W: Semiring + 'a,
    M1: Matcher<'a, W>,
    M2: Matcher<'a, W>,
>(
    fst1: FstModel<W>,
    fst2: FstModel<W>,
    trim: bool,
    r: Result<VectorFst<W>, FstError>,
    path1: EndedPath<W>,
    path2: EndedPath<W>,
) -> (found: EndedPath<W>)
    requires
        fst1.wf(),
        fst2.wf(),
        composed_with::<W, MatchComposeFilter<M1, M2>>(fst1, fst2, trim, r),
        r is Ok,
        accepted_pair(fst1, fst2, path1, path2),
    ensures
        accepts_pair(fst1, fst2, r->Ok_0@, path1, path2, found),
{
    let (tuples, m) = choose|tuples: Seq<StateTuple<MatchState>>, m: FstModel<W>|
        #[trigger] is_composition::<W, MatchComposeFilter<M1, M2>>(fst1, fst2, tuples, m)
            && m.wf() && m.states.len() <= usize::MAX && r->Ok_0@ == (if trim {
            connect_spec(m)
        } else {
            m
        });
    let found = lemma_accepted_with_joint_moves::<W, M1, M2>(
        fst1,
        fst2,
        tuples,
        m,
        path1.0,
        path1.1,
        path2.0,
        path2.1,
    );
    lemma_kept_if_trimmed(fst1, fst2, m, trim, path1, path2, found)
}

} // verus!
