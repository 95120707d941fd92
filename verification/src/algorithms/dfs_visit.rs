//! Walking a transducer depth first.

use vstd::prelude::*;

use crate::algorithms::tr_filters::TrFilter;
use crate::fst_impls::{FstModel, VectorFst};
use crate::semirings::Semiring;
use crate::tr::Tr;
use crate::StateId;

verus! {

/// How far a walk has come with a state.
#[derive(Clone, Copy, Debug, PartialEq, Eq, Structural, Hash)]
pub enum DfsStateColor {
    /// Undiscovered.
    White,
    /// Discovered but unfinished.
    Grey,
    /// Finished.
    Black,
}

/// What is told of a depth-first walk, step by step. A visitor is bound to
/// the transducer that is walked; `discovered` says of which states it was
/// told.
pub trait Visitor<W: Semiring> {
    /// The validity of the visitor.
    spec fn inv(&self) -> bool;

    /// The transducer that the visitor is bound to.
    spec fn fst_spec(&self) -> FstModel<W>;

    /// Whether the visitor was told that `s` was discovered.
    spec fn discovered(&self, s: StateId) -> bool;

    /// Whether the visitor has asked for the walk to end.
    spec fn stopped(&self) -> bool;

    /// Invoked before the walk.
    fn init_visit(&mut self, fst: &VectorFst<W>)
        requires
            old(self).inv(),
            fst@ == old(self).fst_spec(),
        ensures
            final(self).inv(),
            final(self).fst_spec() == old(self).fst_spec(),
            forall|t: StateId| old(self).discovered(t) ==> final(self).discovered(t),
            old(self).stopped() ==> final(self).stopped(),
    ;

    /// Invoked when the state `s` is discovered; `root` is the root of the
    /// tree of the walk that `s` is in. The walk ends if the result is
    /// false, as it does for each of the steps that have a result: a
    /// visitor that gives that result has asked for the walk to end.
    fn init_state(&mut self, s: StateId, root: StateId) -> (dfs: bool)
        requires
            old(self).inv(),
            old(self).fst_spec().has_state(s),
        ensures
            final(self).inv(),
            final(self).fst_spec() == old(self).fst_spec(),
            final(self).discovered(s),
            forall|t: StateId| old(self).discovered(t) ==> final(self).discovered(t),
            old(self).stopped() ==> final(self).stopped(),
            !dfs ==> final(self).stopped(),
    ;

    /// Invoked when a transition to an undiscovered state is examined.
    fn tree_arc(&mut self, s: StateId, tr: &Tr<W>) -> (dfs: bool)
        requires
            old(self).inv(),
            old(self).discovered(s),
        ensures
            final(self).inv(),
            final(self).fst_spec() == old(self).fst_spec(),
            forall|t: StateId| old(self).discovered(t) ==> final(self).discovered(t),
            old(self).stopped() ==> final(self).stopped(),
            !dfs ==> final(self).stopped(),
    ;

    /// Invoked when a transition to an unfinished state is examined.
    fn back_arc(&mut self, s: StateId, tr: &Tr<W>) -> (dfs: bool)
        requires
            old(self).inv(),
            old(self).discovered(s),
            old(self).discovered(tr.nextstate),
        ensures
            final(self).inv(),
            final(self).fst_spec() == old(self).fst_spec(),
            forall|t: StateId| old(self).discovered(t) ==> final(self).discovered(t),
            old(self).stopped() ==> final(self).stopped(),
            !dfs ==> final(self).stopped(),
    ;

    /// Invoked when a transition to a finished state is examined.
    fn forward_or_cross_arc(&mut self, s: StateId, tr: &Tr<W>) -> (dfs: bool)
        requires
            old(self).inv(),
            old(self).discovered(s),
            old(self).discovered(tr.nextstate),
        ensures
            final(self).inv(),
            final(self).fst_spec() == old(self).fst_spec(),
            forall|t: StateId| old(self).discovered(t) ==> final(self).discovered(t),
            old(self).stopped() ==> final(self).stopped(),
            !dfs ==> final(self).stopped(),
    ;

    /// Invoked when the state `s` is finished; `parent` is the state from
    /// which it was discovered and `tr` the transition by which, none of
    /// both for the root of a tree.
    fn finish_state(&mut self, s: StateId, parent: Option<StateId>, tr: Option<&Tr<W>>)
        requires
            old(self).inv(),
            old(self).discovered(s),
            parent matches Some(p) ==> old(self).discovered(p),
        ensures
            final(self).inv(),
            final(self).fst_spec() == old(self).fst_spec(),
            forall|t: StateId| old(self).discovered(t) ==> final(self).discovered(t),
            old(self).stopped() ==> final(self).stopped(),
    ;

    /// Invoked after the walk.
    fn finish_visit(&mut self)
        requires
            old(self).inv(),
        ensures
            final(self).inv(),
            final(self).fst_spec() == old(self).fst_spec(),
            forall|t: StateId| old(self).discovered(t) ==> final(self).discovered(t),
            old(self).stopped() ==> final(self).stopped(),
    ;
}

/// How many states are undiscovered.
pub open spec fn count_white(colors: Seq<DfsStateColor>) -> nat
    decreases colors.len(),
{
    if colors.len() == 0 {
        0
    } else {
        count_white(colors.drop_last()) + if colors.last() == DfsStateColor::White {
            1nat
        } else {
            0nat
        }
    }
}

proof fn lemma_count_white_update(colors: Seq<DfsStateColor>, i: int, color: DfsStateColor)
    requires
        0 <= i < colors.len(),
        color != DfsStateColor::White,
    ensures
        colors[i] == DfsStateColor::White ==> count_white(colors.update(i, color)) + 1
            == count_white(colors),
        colors[i] != DfsStateColor::White ==> count_white(colors.update(i, color))
            == count_white(colors),
    decreases colors.len(),
{
    if i == colors.len() - 1 {
        assert(colors.update(i, color).drop_last() =~= colors.drop_last());
    } else {
        assert(colors.update(i, color).drop_last() =~= colors.drop_last().update(i, color));
        lemma_count_white_update(colors.drop_last(), i, color);
    }
}

/// Every transition of a finished state that `filter` keeps leads to a
/// state that is discovered.
pub open spec fn finished_closed<W: Semiring, A: TrFilter<W>>(
    m: FstModel<W>,
    filter: A,
    colors: Seq<DfsStateColor>,
) -> bool {
    forall|s: int, i: int|
        0 <= s < colors.len() && colors[s] == DfsStateColor::Black && 0 <= i
            < m.states[s].trs.len() && filter.keep_spec(#[trigger] m.states[s].trs[i])
            ==> colors[m.states[s].trs[i].nextstate as int] != DfsStateColor::White
}

/// No state is discovered but unfinished.
pub open spec fn none_unfinished(colors: Seq<DfsStateColor>) -> bool {
    forall|t: int| 0 <= t < colors.len() ==> #[trigger] colors[t] != DfsStateColor::Grey
}

/// The same states are discovered but unfinished in `a` and in `b`.
pub open spec fn same_unfinished(a: Seq<DfsStateColor>, b: Seq<DfsStateColor>) -> bool {
    forall|t: int|
        0 <= t < a.len() ==> (#[trigger] a[t] == DfsStateColor::Grey) == (b[t]
            == DfsStateColor::Grey)
}

/// A path of `steps` transitions that `filter` keeps leads from `from` to
/// `to`.
pub open spec fn reaches_by<W: Semiring, A: TrFilter<W>>(
    m: FstModel<W>,
    filter: A,
    from: StateId,
    to: StateId,
    steps: nat,
) -> bool
    decreases steps,
{
    if steps == 0 {
        from == to
    } else {
        exists|i: int|
            0 <= i < m.states[from as int].trs.len() && filter.keep_spec(
                #[trigger] m.states[from as int].trs[i],
            ) && reaches_by(
                m,
                filter,
                m.states[from as int].trs[i].nextstate,
                to,
                (steps - 1) as nat,
            )
    }
}

/// The state `t` is one that a walk of `m` comes by unless it is ended: a
/// transducer without a start state is not walked; a walk of the part that
/// can be reached comes by the states to which a path of transitions that
/// `filter` keeps leads from the start state, and any other walk by every
/// state.
pub open spec fn walked<W: Semiring, A: TrFilter<W>>(
    m: FstModel<W>,
    filter: A,
    access_only: bool,
    t: StateId,
) -> bool {
    &&& m.start is Some
    &&& m.has_state(t)
    &&& access_only ==> exists|steps: nat| reaches_by(m, filter, m.start->0, t, steps)
}

/// Where every finished state leads to discovered states only and every
/// discovered state is finished, a path from a finished state leads to a
/// finished state.
proof fn lemma_finished_reach<W: Semiring, A: TrFilter<W>>(
    m: FstModel<W>,
    filter: A,
    colors: Seq<DfsStateColor>,
    from: StateId,
    to: StateId,
    steps: nat,
)
    requires
        m.wf(),
        colors.len() == m.states.len(),
        finished_closed(m, filter, colors),
        none_unfinished(colors),
        m.has_state(from),
        colors[from as int] == DfsStateColor::Black,
        reaches_by(m, filter, from, to, steps),
    ensures
        m.has_state(to),
        colors[to as int] == DfsStateColor::Black,
    decreases steps,
{
    if steps > 0 {
        let i = choose|i: int|
            0 <= i < m.states[from as int].trs.len() && filter.keep_spec(
                #[trigger] m.states[from as int].trs[i],
            ) && reaches_by(
                m,
                filter,
                m.states[from as int].trs[i].nextstate,
                to,
                (steps - 1) as nat,
            );
        let next = m.states[from as int].trs[i].nextstate;
        assert(m.has_state(next));
        assert(colors[next as int] != DfsStateColor::Grey);
        lemma_finished_reach(m, filter, colors, next, to, (steps - 1) as nat);
    }
}

/// A state that is discovered or finished takes nothing from what holds of
/// the finished states, as long as its own transitions lead to discovered
/// states where it is finished.
proof fn lemma_finished_closed_update<W: Semiring, A: TrFilter<W>>(
    m: FstModel<W>,
    filter: A,
    colors: Seq<DfsStateColor>,
    s: int,
    color: DfsStateColor,
)
    requires
        m.wf(),
        colors.len() == m.states.len(),
        0 <= s < colors.len(),
        finished_closed(m, filter, colors),
        color != DfsStateColor::White,
        colors[s] != DfsStateColor::Black,
        color == DfsStateColor::Black ==> forall|i: int|
            0 <= i < m.states[s].trs.len() && filter.keep_spec(#[trigger] m.states[s].trs[i])
                ==> colors[m.states[s].trs[i].nextstate as int] != DfsStateColor::White
                || m.states[s].trs[i].nextstate == s,
    ensures
        finished_closed(m, filter, colors.update(s, color)),
{
    let after = colors.update(s, color);
    assert forall|u: int, i: int|
        0 <= u < after.len() && after[u] == DfsStateColor::Black && 0 <= i
            < m.states[u].trs.len() && filter.keep_spec(
            #[trigger] m.states[u].trs[i],
        ) implies after[m.states[u].trs[i].nextstate as int] != DfsStateColor::White by {
        let next = m.states[u].trs[i].nextstate;
        assert(m.has_state(next));
    }
}

/// Walks the part of `fst` that is undiscovered and can be reached from the
/// undiscovered state `s`. Returns whether the walk goes on.
fn dfs_from<W: Semiring, V: Visitor<W>, A: TrFilter<W>>(
    fst: &VectorFst<W>,
    visitor: &mut V,
    tr_filter: &A,
    colors: &mut Vec<DfsStateColor>,
    s: StateId,
    root: StateId,
    parent: Option<(StateId, Tr<W>)>,
) -> (dfs: bool)
    requires
        fst.wf(),
        old(visitor).inv(),
        old(visitor).fst_spec() == fst@,
        old(colors)@.len() == fst@.states.len(),
        fst@.has_state(s),
        old(colors)@[s as int] == DfsStateColor::White,
        parent matches Some(p) ==> old(visitor).discovered(p.0),
        forall|t: int|
            0 <= t < old(colors)@.len() && old(colors)@[t] != DfsStateColor::White
                ==> old(visitor).discovered(t as StateId),
    ensures
        final(visitor).inv(),
        final(visitor).fst_spec() == fst@,
        final(colors)@.len() == old(colors)@.len(),
        count_white(final(colors)@) < count_white(old(colors)@),
        forall|t: StateId| old(visitor).discovered(t) ==> final(visitor).discovered(t),
        forall|t: int|
            0 <= t < final(colors)@.len() && final(colors)@[t] != DfsStateColor::White
                ==> final(visitor).discovered(t as StateId),
        forall|t: int|
            0 <= t < old(colors)@.len() && old(colors)@[t] != DfsStateColor::White
                ==> final(colors)@[t] != DfsStateColor::White,
        final(colors)@[s as int] == DfsStateColor::Black,
        old(visitor).stopped() ==> final(visitor).stopped(),
        !dfs ==> final(visitor).stopped(),
        dfs && finished_closed(fst@, *tr_filter, old(colors)@) ==> finished_closed(
            fst@,
            *tr_filter,
            final(colors)@,
        ) && same_unfinished(final(colors)@, old(colors)@),
    decreases count_white(old(colors)@),
{
    let ghost closed = finished_closed(fst@, *tr_filter, old(colors)@);
    proof {
        lemma_count_white_update(colors@, s as int, DfsStateColor::Grey);
        if closed {
            lemma_finished_closed_update(fst@, *tr_filter, colors@, s as int, DfsStateColor::Grey);
        }
    }
    colors.set(s, DfsStateColor::Grey);
    let mut dfs = visitor.init_state(s, root);
    let trs = fst.trs(s);
    let mut i: usize = 0;
    while dfs && i < trs.len()
        invariant
            i <= trs.len(),
            fst.wf(),
            fst@.has_state(s),
            trs@ == fst@.states[s as int].trs,
            visitor.inv(),
            visitor.fst_spec() == fst@,
            colors@.len() == old(colors)@.len(),
            colors@.len() == fst@.states.len(),
            colors@[s as int] != DfsStateColor::White,
            count_white(colors@) < count_white(old(colors)@),
            visitor.discovered(s),
            forall|t: StateId| old(visitor).discovered(t) ==> visitor.discovered(t),
            forall|t: int|
                0 <= t < colors@.len() && colors@[t] != DfsStateColor::White ==> visitor.discovered(
                    t as StateId,
                ),
            forall|t: int|
                0 <= t < old(colors)@.len() && old(colors)@[t] != DfsStateColor::White
                    ==> colors@[t] != DfsStateColor::White,
            closed == finished_closed(fst@, *tr_filter, old(colors)@),
            old(colors)@[s as int] == DfsStateColor::White,
            old(visitor).stopped() ==> visitor.stopped(),
            !dfs ==> visitor.stopped(),
            dfs && closed ==> finished_closed(fst@, *tr_filter, colors@),
            dfs && closed ==> same_unfinished(colors@, old(colors)@.update(
                s as int,
                DfsStateColor::Grey,
            )),
            dfs && closed ==> forall|j: int|
                0 <= j < i && tr_filter.keep_spec(#[trigger] trs@[j])
                    ==> colors@[trs@[j].nextstate as int] != DfsStateColor::White,
        decreases trs.len() - i,
    {
        let tr = trs[i];
        assert(fst@.has_state(fst@.states[s as int].trs[i as int].nextstate));
        if tr_filter.keep(&tr) {
            match colors[tr.nextstate] {
                DfsStateColor::White => {
                    dfs = visitor.tree_arc(s, &tr);
                    if dfs {
                        dfs =
                        dfs_from(fst, visitor, tr_filter, colors, tr.nextstate, root, Some((s,
                            tr)));
                    }
                },
                DfsStateColor::Grey => {
                    assert(visitor.discovered(tr.nextstate));
                    dfs = visitor.back_arc(s, &tr);
                },
                DfsStateColor::Black => {
                    assert(visitor.discovered(tr.nextstate));
                    dfs = visitor.forward_or_cross_arc(s, &tr);
                },
            }
        }
        i = i + 1;
    }
    proof {
        lemma_count_white_update(colors@, s as int, DfsStateColor::Black);
        if dfs && closed {
            assert(colors@[s as int] == DfsStateColor::Grey);
            lemma_finished_closed_update(fst@, *tr_filter, colors@, s as int, DfsStateColor::Black);
        }
    }
    colors.set(s, DfsStateColor::Black);
    match parent {
        Some((p, tr)) => visitor.finish_state(s, Some(p), Some(&tr)),
        None => visitor.finish_state(s, None, None),
    }
    dfs
}

/// Walks `fst` depth first, from the start state first and then, unless
/// `access_only` says otherwise, from each state that is still
/// undiscovered, in the order of the ids. Only the transitions that
/// `tr_filter` keeps are followed. The visitor is told of each step and can
/// end the walk.
///
/// Unless the visitor has asked for the walk to end, it was told of every
/// state that the walk comes by: where `access_only` is set, of every state
/// to which transitions that are kept lead from the start state, else of
/// every state. A transducer without a start state is not walked.
pub fn dfs_visit<W: Semiring, V: Visitor<W>, A: TrFilter<W>>(
    fst: &VectorFst<W>,
    visitor: &mut V,
    tr_filter: &A,
    access_only: bool,
)
    requires
        fst.wf(),
        old(visitor).inv(),
        old(visitor).fst_spec() == fst@,
    ensures
        final(visitor).inv(),
        final(visitor).fst_spec() == fst@,
        forall|t: StateId| old(visitor).discovered(t) ==> final(visitor).discovered(t),
        old(visitor).stopped() ==> final(visitor).stopped(),
        !final(visitor).stopped() ==> forall|t: StateId|
            walked(fst@, *tr_filter, access_only, t) ==> #[trigger] final(visitor).discovered(t),
{
    visitor.init_visit(fst);
    let start = match fst.start() {
        Some(start) => start,
        None => {
            visitor.finish_visit();
            return ;
        },
    };
    let nstates = fst.num_states();
    let mut colors: Vec<DfsStateColor> = Vec::with_capacity(nstates);
    let mut k: usize = 0;
    while k < nstates
        invariant
            k <= nstates,
            colors@.len() == k,
            forall|t: int| 0 <= t < k ==> colors@[t] == DfsStateColor::White,
        decreases nstates - k,
    {
        colors.push(DfsStateColor::White);
        k = k + 1;
    }
    let mut dfs = true;
    let mut root = start;
    while dfs && root < nstates
        invariant
            fst.wf(),
            fst@.start == Some(start),
            nstates == fst@.states.len(),
            colors@.len() == nstates,
            root <= nstates,
            visitor.inv(),
            visitor.fst_spec() == fst@,
            dfs && root < nstates ==> colors@[root as int] == DfsStateColor::White,
            forall|t: int|
                0 <= t < colors@.len() && colors@[t] != DfsStateColor::White ==> visitor.discovered(
                    t as StateId,
                ),
            forall|t: StateId| old(visitor).discovered(t) ==> visitor.discovered(t),
            old(visitor).stopped() ==> visitor.stopped(),
            visitor.stopped() || (finished_closed(fst@, *tr_filter, colors@) && none_unfinished(
                colors@,
            )),
            !dfs ==> visitor.stopped() || access_only,
            colors@[start as int] != DfsStateColor::White || (dfs && root == start),
            !access_only && colors@[start as int] != DfsStateColor::White ==> forall|t: int|
                0 <= t < root ==> #[trigger] colors@[t] != DfsStateColor::White,
        decreases count_white(colors@),
    {
        dfs = dfs_from(fst, visitor, tr_filter, &mut colors, root, root, None);
        if access_only {
            dfs = false;
        } else {
            // Finds next tree root.
            root = if root == start {
                0
            } else {
                root + 1
            };
            while root < nstates && colors[root] != DfsStateColor::White
                invariant
                    colors@.len() == nstates,
                    root <= nstates,
                    forall|t: int| 0 <= t < root ==> #[trigger] colors@[t] != DfsStateColor::White,
                decreases nstates - root,
            {
                root = root + 1;
            }
        }
    }
    let ghost walk = *visitor;
    visitor.finish_visit();
    proof {
        if !visitor.stopped() {
            assert(!walk.stopped());
            assert(colors@[start as int] == DfsStateColor::Black);
            assert forall|t: StateId|
                walked(fst@, *tr_filter, access_only, t) implies #[trigger] visitor.discovered(
                t,
            ) by {
                if access_only {
                    let steps = choose|steps: nat| reaches_by(fst@, *tr_filter, start, t, steps);
                    lemma_finished_reach(fst@, *tr_filter, colors@, start, t, steps);
                } else {
                    assert(colors@[t as int] != DfsStateColor::White);
                }
                assert(walk.discovered(t));
            }
        }
    }
}

} // verus!
