//! The paths of a transducer.

use vstd::prelude::*;

use crate::fst_impls::FstModel;
use crate::fst_path::PathModel;
use crate::semirings::Semiring;
use crate::tr::Tr;
use crate::{Label, StateId, EPS_LABEL};

verus! {

/// `tr` is one of `trs`.
pub open spec fn among<W>(trs: Seq<Tr<W>>, tr: Tr<W>) -> bool {
    exists|i: int| 0 <= i < trs.len() && #[trigger] trs[i] == tr
}

/// The transitions `trs`, one after the other, lead from `from` to `to`
/// in `m`.
pub open spec fn is_path<W>(m: FstModel<W>, from: StateId, trs: Seq<Tr<W>>, to: StateId) -> bool
    decreases trs.len(),
{
    if trs.len() == 0 {
        from == to && m.has_state(from)
    } else {
        m.has_state(from) && among(m.states[from as int].trs, trs[0]) && is_path(
            m,
            trs[0].nextstate,
            trs.drop_first(),
            to,
        )
    }
}

/// The string that the transitions consume: their input labels, the empty
/// string left out.
pub open spec fn input_string<W>(trs: Seq<Tr<W>>) -> Seq<Label>
    decreases trs.len(),
{
    if trs.len() == 0 {
        Seq::empty()
    } else if trs[0].ilabel == EPS_LABEL {
        input_string(trs.drop_first())
    } else {
        seq![trs[0].ilabel] + input_string(trs.drop_first())
    }
}

/// The string that the transitions emit: their output labels, the empty
/// string left out.
pub open spec fn output_string<W>(trs: Seq<Tr<W>>) -> Seq<Label>
    decreases trs.len(),
{
    if trs.len() == 0 {
        Seq::empty()
    } else if trs[0].olabel == EPS_LABEL {
        output_string(trs.drop_first())
    } else {
        seq![trs[0].olabel] + output_string(trs.drop_first())
    }
}

/// The weight of the transitions taken one after the other: the product of
/// their weights, in their order.
pub open spec fn path_weight<W: Semiring>(trs: Seq<Tr<W>>) -> W
    decreases trs.len(),
{
    if trs.len() == 0 {
        W::one_spec()
    } else {
        trs[0].weight.times_spec(path_weight(trs.drop_first()))
    }
}

/// `path` leads from the start state of `m` to its final state `to`.
pub open spec fn is_successful<W>(m: FstModel<W>, path: Seq<Tr<W>>, to: StateId) -> bool {
    &&& m.start matches Some(s) && is_path(m, s, path, to)
    &&& to < m.states.len()
    &&& m.states[to as int].final_weight is Some
}

/// The weight of the path `path` to the final state `to` of `m`: the
/// weight of its transitions times the final weight of `to`.
pub open spec fn total_weight<W: Semiring>(m: FstModel<W>, path: Seq<Tr<W>>, to: StateId) -> W {
    path_weight(path).times_spec(m.states[to as int].final_weight->0)
}

/// What the transitions of a path show from outside: what they consume,
/// what they emit, and their weight.
pub open spec fn path_model<W: Semiring>(trs: Seq<Tr<W>>) -> PathModel<W> {
    PathModel {
        ilabels: input_string(trs),
        olabels: output_string(trs),
        weight: path_weight(trs),
    }
}

/// `walk` is what a path from the start state to a final state of `m`
/// shows from outside, with the final weight in its weight.
pub open spec fn is_accepted<W: Semiring>(m: FstModel<W>, walk: PathModel<W>) -> bool {
    exists|trs: Seq<Tr<W>>, to: StateId| #[trigger]
        is_successful(m, trs, to) && walk == path_model(trs).finish(
            m.states[to as int].final_weight->0,
        )
}

/// A path with one more transition shows what it showed, and then what the
/// transition shows.
pub proof fn lemma_path_model_push<W: Semiring>(trs: Seq<Tr<W>>, tr: Tr<W>)
    ensures
        path_model(trs.push(tr)) == path_model(trs).extend(tr.ilabel, tr.olabel, tr.weight),
    decreases trs.len(),
{
    let longer = trs.push(tr);
    if trs.len() == 0 {
        let none = Seq::<Tr<W>>::empty();
        assert(longer.drop_first() =~= none);
        assert(trs =~= none);
        assert(input_string(none) =~= Seq::<Label>::empty());
        assert(output_string(none) =~= Seq::<Label>::empty());
        assert(path_weight(none) == W::one_spec());
        assert(longer[0] == tr);
        W::lemma_identities(tr.weight);
        assert(input_string(longer) =~= path_model(trs).extend(
            tr.ilabel,
            tr.olabel,
            tr.weight,
        ).ilabels);
        assert(output_string(longer) =~= path_model(trs).extend(
            tr.ilabel,
            tr.olabel,
            tr.weight,
        ).olabels);
    } else {
        let rest = trs.drop_first();
        assert(longer.drop_first() =~= rest.push(tr));
        lemma_path_model_push(rest, tr);
        W::lemma_times_associative(trs[0].weight, path_weight(rest), tr.weight);
        assert(input_string(longer) =~= path_model(trs).extend(
            tr.ilabel,
            tr.olabel,
            tr.weight,
        ).ilabels);
        assert(output_string(longer) =~= path_model(trs).extend(
            tr.ilabel,
            tr.olabel,
            tr.weight,
        ).olabels);
    }
}

/// A path begins and ends in states of the transducer.
pub proof fn lemma_path_ends_in_state<W>(
    m: FstModel<W>,
    from: StateId,
    trs: Seq<Tr<W>>,
    to: StateId,
)
    requires
        is_path(m, from, trs, to),
    ensures
        m.has_state(from),
        m.has_state(to),
    decreases trs.len(),
{
    if trs.len() > 0 {
        lemma_path_ends_in_state(m, trs[0].nextstate, trs.drop_first(), to);
    }
}

/// A path goes on by a transition of the state where it ends.
pub proof fn lemma_path_push<W>(
    m: FstModel<W>,
    from: StateId,
    trs: Seq<Tr<W>>,
    to: StateId,
    tr: Tr<W>,
)
    requires
        m.wf(),
        is_path(m, from, trs, to),
        among(m.states[to as int].trs, tr),
    ensures
        is_path(m, from, trs.push(tr), tr.nextstate),
    decreases trs.len(),
{
    let longer = trs.push(tr);
    if trs.len() == 0 {
        let i = choose|i: int|
            0 <= i < m.states[to as int].trs.len() && #[trigger] m.states[to as int].trs[i] == tr;
        assert(m.has_state(m.states[to as int].trs[i].nextstate));
        assert(longer.drop_first() =~= Seq::<Tr<W>>::empty());
        assert(is_path(m, tr.nextstate, longer.drop_first(), tr.nextstate));
    } else {
        assert(longer.drop_first() =~= trs.drop_first().push(tr));
        lemma_path_push(m, trs[0].nextstate, trs.drop_first(), to, tr);
    }
}

} // verus!
