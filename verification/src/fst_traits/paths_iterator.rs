//! The paths that a transducer accepts, breadth first.

use std::collections::VecDeque;
use vstd::prelude::*;

use crate::fst_impls::{FstModel, VectorFst};
use crate::fst_path::{FstPath, PathModel};
use crate::fst_traits::paths::{
    is_accepted, is_path, is_successful, lemma_path_ends_in_state, lemma_path_model_push,
    lemma_path_push, path_model,
};
use crate::semirings::Semiring;
use crate::tr::Tr;
use crate::StateId;

verus! {

/// `rank` falls along every transition of `m`.
pub open spec fn is_ranking<W>(m: FstModel<W>, rank: Seq<nat>) -> bool {
    &&& rank.len() == m.states.len()
    &&& forall|s: int, i: int|
        0 <= s < m.states.len() && 0 <= i < m.states[s].trs.len() ==> rank[(
        #[trigger] m.states[s].trs[i]).nextstate as int] < rank[s]
}

/// No path of `m` leads from a state back to it.
pub open spec fn acyclic<W>(m: FstModel<W>) -> bool {
    exists|rank: Seq<nat>| is_ranking(m, rank)
}

/// A path under way: the state that it has reached, and the path so far.
pub type Pending<W> = (StateId, PathModel<W>);

/// The paths that extend `entry` by one of the first `k` transitions of the
/// state that it has reached, in the order of the transitions.
pub open spec fn successors<W: Semiring>(m: FstModel<W>, entry: Pending<W>, k: nat) -> Seq<
    Pending<W>,
>
    decreases k,
{
    if k == 0 {
        Seq::empty()
    } else {
        let tr = m.states[entry.0 as int].trs[k - 1];
        successors(m, entry, (k - 1) as nat).push(
            (tr.nextstate, entry.1.extend(tr.ilabel, tr.olabel, tr.weight)),
        )
    }
}

/// The queue after its first entry was taken out and the paths that extend
/// it by one transition were put at the end.
pub open spec fn step<W: Semiring>(m: FstModel<W>, queue: Seq<Pending<W>>) -> Seq<Pending<W>> {
    queue.drop_first() + successors(m, queue[0], m.states[queue[0].0 as int].trs.len())
}

/// The accepted path that `entry` is, if it has reached a final state: the
/// path so far, times the final weight.
pub open spec fn emitted<W: Semiring>(m: FstModel<W>, entry: Pending<W>) -> Option<PathModel<W>> {
    match m.states[entry.0 as int].final_weight {
        Some(w) => Some(entry.1.finish(w)),
        None => None,
    }
}

/// The accepted paths that the first `fuel` steps from `queue` come by, in
/// the order in which they come by them.
pub open spec fn paths_from<W: Semiring>(m: FstModel<W>, queue: Seq<Pending<W>>, fuel: nat) -> Seq<
    PathModel<W>,
>
    decreases fuel,
{
    if queue.len() == 0 || fuel == 0 {
        Seq::empty()
    } else {
        let rest = paths_from(m, step(m, queue), (fuel - 1) as nat);
        match emitted(m, queue[0]) {
            Some(path) => seq![path] + rest,
            None => rest,
        }
    }
}

/// How many paths leave the state `s`, the empty one counted, that begin
/// with one of its first `k` transitions.
pub open spec fn subtree<W>(m: FstModel<W>, rank: Seq<nat>, s: StateId, k: nat) -> nat
    decreases rank[s as int], k,
{
    if m.wf() && is_ranking(m, rank) && s < m.states.len() && 0 < k
        <= m.states[s as int].trs.len() {
        let next = m.states[s as int].trs[k - 1].nextstate;
        subtree(m, rank, s, (k - 1) as nat) + subtree(
            m,
            rank,
            next,
            m.states[next as int].trs.len(),
        )
    } else {
        1
    }
}

/// How many paths leave the state `s`, the empty one counted.
pub open spec fn tree_size<W>(m: FstModel<W>, rank: Seq<nat>, s: StateId) -> nat {
    subtree(m, rank, s, m.states[s as int].trs.len())
}

/// How many steps empty the queue.
pub open spec fn queue_size<W>(m: FstModel<W>, rank: Seq<nat>, queue: Seq<Pending<W>>) -> nat
    decreases queue.len(),
{
    if queue.len() == 0 {
        0
    } else {
        queue_size(m, rank, queue.drop_last()) + tree_size(m, rank, queue.last().0)
    }
}

/// The accepted paths of `m`, in the order in which a breadth-first walk
/// from the start state comes by them.
pub open spec fn paths_of<W: Semiring>(m: FstModel<W>) -> Seq<PathModel<W>> {
    match m.start {
        None => Seq::empty(),
        Some(s) => {
            let rank = choose|rank: Seq<nat>| is_ranking(m, rank);
            paths_from(m, seq![(s, PathModel::empty())], tree_size(m, rank, s))
        },
    }
}

proof fn lemma_subtree_positive<W>(m: FstModel<W>, rank: Seq<nat>, s: StateId, k: nat)
    ensures
        subtree(m, rank, s, k) >= 1,
    decreases rank[s as int], k,
{
    if m.wf() && is_ranking(m, rank) && s < m.states.len() && 0 < k
        <= m.states[s as int].trs.len() {
        lemma_subtree_positive(m, rank, s, (k - 1) as nat);
    }
}

proof fn lemma_queue_size_front<W>(m: FstModel<W>, rank: Seq<nat>, queue: Seq<Pending<W>>)
    requires
        queue.len() > 0,
    ensures
        queue_size(m, rank, queue) == tree_size(m, rank, queue[0].0) + queue_size(
            m,
            rank,
            queue.drop_first(),
        ),
    decreases queue.len(),
{
    if queue.len() == 1 {
        assert(queue.drop_last() =~= Seq::empty());
        assert(queue.drop_first() =~= Seq::empty());
    } else {
        lemma_queue_size_front(m, rank, queue.drop_last());
        assert(queue.drop_last().drop_first() =~= queue.drop_first().drop_last());
    }
}

/// The path under way is what a path of `m` from the start state to the
/// state that it has reached shows.
pub open spec fn reached<W: Semiring>(m: FstModel<W>, entry: Pending<W>) -> bool {
    exists|trs: Seq<Tr<W>>| #[trigger]
        is_path(m, m.start->0, trs, entry.0) && entry.1 == path_model(trs)
}

/// Every path under way in `queue` is a path of `m` from the start state.
pub open spec fn all_reached<W: Semiring>(m: FstModel<W>, queue: Seq<Pending<W>>) -> bool {
    forall|i: int| 0 <= i < queue.len() ==> reached(m, #[trigger] queue[i])
}

proof fn lemma_successors_reached<W: Semiring>(m: FstModel<W>, entry: Pending<W>, k: nat)
    requires
        m.wf(),
        reached(m, entry),
        k <= m.states[entry.0 as int].trs.len(),
    ensures
        all_reached(m, successors(m, entry, k)),
        successors(m, entry, k).len() == k,
    decreases k,
{
    if k > 0 {
        lemma_successors_reached(m, entry, (k - 1) as nat);
        let tr = m.states[entry.0 as int].trs[k - 1];
        let trs = choose|trs: Seq<Tr<W>>| #[trigger]
            is_path(m, m.start->0, trs, entry.0) && entry.1 == path_model(trs);
        lemma_path_push(m, m.start->0, trs, entry.0, tr);
        lemma_path_model_push(trs, tr);
        let next = (tr.nextstate, entry.1.extend(tr.ilabel, tr.olabel, tr.weight));
        assert(is_path(m, m.start->0, trs.push(tr), next.0) && next.1 == path_model(
            trs.push(tr),
        ));
        assert(reached(m, next));
        let before = successors(m, entry, (k - 1) as nat);
        assert forall|i: int| 0 <= i < before.push(next).len() implies reached(
            m,
            #[trigger] before.push(next)[i],
        ) by {
            if i < before.len() {
                assert(before.push(next)[i] == before[i]);
            }
        }
    }
}

proof fn lemma_paths_from_accepted<W: Semiring>(
    m: FstModel<W>,
    queue: Seq<Pending<W>>,
    fuel: nat,
    i: int,
)
    requires
        m.wf(),
        m.start is Some,
        all_reached(m, queue),
        0 <= i < paths_from(m, queue, fuel).len(),
    ensures
        is_accepted(m, paths_from(m, queue, fuel)[i]),
    decreases fuel,
{
    let first = queue[0];
    assert(reached(m, first));
    let trs = choose|trs: Seq<Tr<W>>| #[trigger]
        is_path(m, m.start->0, trs, first.0) && first.1 == path_model(trs);
    lemma_path_ends_in_state(m, m.start->0, trs, first.0);
    lemma_successors_reached(m, first, m.states[first.0 as int].trs.len());
    let next = step(m, queue);
    assert(all_reached(m, next)) by {
        assert forall|j: int| 0 <= j < next.len() implies reached(m, #[trigger] next[j]) by {
            if j < queue.len() - 1 {
                assert(next[j] == queue[j + 1]);
            } else {
                assert(next[j] == successors(m, first, m.states[first.0 as int].trs.len())[j - (
                queue.len() - 1)]);
            }
        }
    }
    let rest = paths_from(m, next, (fuel - 1) as nat);
    match emitted(m, first) {
        Some(path) => {
            if i == 0 {
                assert(is_successful(m, trs, first.0));
            } else {
                assert(paths_from(m, queue, fuel)[i] == rest[i - 1]);
                lemma_paths_from_accepted(m, next, (fuel - 1) as nat, i - 1);
            }
        },
        None => {
            lemma_paths_from_accepted(m, next, (fuel - 1) as nat, i);
        },
    }
}

/// Whatever the walk over the accepted paths yields is what a path from
/// the start state to a final state shows from outside: what it consumes,
/// what it emits, and its weight with the final weight.
pub proof fn lemma_walk_yields_accepted<W: Semiring>(m: FstModel<W>, i: int)
    requires
        m.wf(),
        0 <= i < paths_of(m).len(),
    ensures
        is_accepted(m, paths_of(m)[i]),
{
    let s = m.start->0;
    let rank = choose|rank: Seq<nat>| is_ranking(m, rank);
    let queue = seq![(s, PathModel::<W>::empty())];
    let none = Seq::<Tr<W>>::empty();
    assert(is_path(m, s, none, s) && queue[0].1 == path_model(none));
    assert(reached(m, queue[0]));
    lemma_paths_from_accepted(m, queue, tree_size(m, rank, s), i);
}

/// The path `walk` gone on by the transitions `trs`.
pub open spec fn gone_on<W: Semiring>(walk: PathModel<W>, trs: Seq<Tr<W>>) -> PathModel<W>
    decreases trs.len(),
{
    if trs.len() == 0 {
        walk
    } else {
        gone_on(walk.extend(trs[0].ilabel, trs[0].olabel, trs[0].weight), trs.drop_first())
    }
}

/// What a path shows, gone on by more transitions, is what the longer path
/// shows.
proof fn lemma_gone_on<W: Semiring>(a: Seq<Tr<W>>, b: Seq<Tr<W>>)
    ensures
        gone_on(path_model(a), b) == path_model(a + b),
    decreases b.len(),
{
    if b.len() == 0 {
        assert(a + b =~= a);
    } else {
        lemma_path_model_push(a, b[0]);
        lemma_gone_on(a.push(b[0]), b.drop_first());
        assert(a.push(b[0]) + b.drop_first() =~= a + b);
    }
}

proof fn lemma_queue_size_concat<W>(
    m: FstModel<W>,
    rank: Seq<nat>,
    a: Seq<Pending<W>>,
    b: Seq<Pending<W>>,
)
    ensures
        queue_size(m, rank, a + b) == queue_size(m, rank, a) + queue_size(m, rank, b),
    decreases b.len(),
{
    if b.len() == 0 {
        assert(a + b =~= a);
    } else {
        lemma_queue_size_concat(m, rank, a, b.drop_last());
        assert((a + b).drop_last() =~= a + b.drop_last());
    }
}

proof fn lemma_queue_size_successors<W: Semiring>(
    m: FstModel<W>,
    rank: Seq<nat>,
    entry: Pending<W>,
    k: nat,
)
    requires
        m.wf(),
        is_ranking(m, rank),
        m.has_state(entry.0),
        k <= m.states[entry.0 as int].trs.len(),
    ensures
        queue_size(m, rank, successors(m, entry, k)) + 1 == subtree(m, rank, entry.0, k),
        successors(m, entry, k).len() == k,
        forall|i: int| 0 <= i < k ==> m.has_state((#[trigger] successors(m, entry, k)[i]).0),
    decreases k,
{
    if k > 0 {
        lemma_queue_size_successors(m, rank, entry, (k - 1) as nat);
        let before = successors(m, entry, (k - 1) as nat);
        let tr = m.states[entry.0 as int].trs[k - 1];
        assert(m.has_state(tr.nextstate));
        let next = (tr.nextstate, entry.1.extend(tr.ilabel, tr.olabel, tr.weight));
        assert(before.push(next).drop_last() =~= before);
        assert forall|i: int| 0 <= i < k implies m.has_state(
            (#[trigger] successors(m, entry, k)[i]).0,
        ) by {
            if i < k - 1 {
                assert(successors(m, entry, k)[i] == before[i]);
            }
        }
    } else {
        assert(successors(m, entry, k) =~= Seq::empty());
    }
}

/// A step over the queue makes the way to its end shorter by one.
proof fn lemma_queue_size_step<W: Semiring>(m: FstModel<W>, rank: Seq<nat>, queue: Seq<Pending<W>>)
    requires
        m.wf(),
        is_ranking(m, rank),
        queue.len() > 0,
        forall|i: int| 0 <= i < queue.len() ==> m.has_state((#[trigger] queue[i]).0),
    ensures
        queue_size(m, rank, step(m, queue)) + 1 == queue_size(m, rank, queue),
        forall|i: int|
            0 <= i < step(m, queue).len() ==> m.has_state((#[trigger] step(m, queue)[i]).0),
{
    let first = queue[0];
    let n = m.states[first.0 as int].trs.len();
    let more = successors(m, first, n);
    lemma_queue_size_front(m, rank, queue);
    lemma_queue_size_successors(m, rank, first, n);
    lemma_queue_size_concat(m, rank, queue.drop_first(), more);
    assert forall|i: int| 0 <= i < step(m, queue).len() implies m.has_state(
        (#[trigger] step(m, queue)[i]).0,
    ) by {
        if i < queue.len() - 1 {
            assert(step(m, queue)[i] == queue[i + 1]);
        } else {
            assert(step(m, queue)[i] == more[i - (queue.len() - 1)]);
        }
    }
}

proof fn lemma_paths_from_holds<W: Semiring>(
    m: FstModel<W>,
    rank: Seq<nat>,
    queue: Seq<Pending<W>>,
    fuel: nat,
    j: int,
    trs: Seq<Tr<W>>,
    to: StateId,
)
    requires
        m.wf(),
        is_ranking(m, rank),
        forall|i: int| 0 <= i < queue.len() ==> m.has_state((#[trigger] queue[i]).0),
        0 <= j < queue.len(),
        fuel >= queue_size(m, rank, queue),
        is_path(m, queue[j].0, trs, to),
        m.states[to as int].final_weight is Some,
    ensures
        paths_from(m, queue, fuel).contains(
            gone_on(queue[j].1, trs).finish(m.states[to as int].final_weight->0),
        ),
    decreases trs.len(), j,
{
    let first = queue[0];
    let n = m.states[first.0 as int].trs.len();
    let next = step(m, queue);
    let wanted = gone_on(queue[j].1, trs).finish(m.states[to as int].final_weight->0);
    lemma_queue_size_front(m, rank, queue);
    lemma_subtree_positive(m, rank, first.0, n);
    lemma_queue_size_step(m, rank, queue);
    lemma_queue_size_successors(m, rank, first, n);
    let rest = paths_from(m, next, (fuel - 1) as nat);
    let all = paths_from(m, queue, fuel);
    if j > 0 {
        assert(next[j - 1] == queue[j]);
        lemma_paths_from_holds(m, rank, next, (fuel - 1) as nat, j - 1, trs, to);
        let at = choose|at: int| 0 <= at < rest.len() && rest[at] == wanted;
        if emitted(m, first) is Some {
            assert(all[at + 1] == wanted);
        } else {
            assert(all[at] == wanted);
        }
    } else if trs.len() == 0 {
        assert(all[0] == wanted);
    } else {
        let tr = trs[0];
        let i = choose|i: int| 0 <= i < n && #[trigger] m.states[first.0 as int].trs[i] == tr;
        lemma_successor_at(m, first, n, i);
        let place = queue.len() - 1 + i;
        assert(next[place] == successors(m, first, n)[i]);
        lemma_paths_from_holds(m, rank, next, (fuel - 1) as nat, place, trs.drop_first(), to);
        let at = choose|at: int| 0 <= at < rest.len() && rest[at] == wanted;
        if emitted(m, first) is Some {
            assert(all[at + 1] == wanted);
        } else {
            assert(all[at] == wanted);
        }
    }
}

/// The path that extends `entry` by the transition at `i` stands at `i`.
proof fn lemma_successor_at<W: Semiring>(m: FstModel<W>, entry: Pending<W>, k: nat, i: int)
    requires
        0 <= i < k,
    ensures
        successors(m, entry, k).len() == k,
        successors(m, entry, k)[i] == (
            m.states[entry.0 as int].trs[i].nextstate,
            entry.1.extend(
                m.states[entry.0 as int].trs[i].ilabel,
                m.states[entry.0 as int].trs[i].olabel,
                m.states[entry.0 as int].trs[i].weight,
            ),
        ),
    decreases k,
{
    lemma_successors_len(m, entry, k);
    lemma_successors_len(m, entry, (k - 1) as nat);
    if i < k - 1 {
        lemma_successor_at(m, entry, (k - 1) as nat, i);
    }
}

proof fn lemma_successors_len<W: Semiring>(m: FstModel<W>, entry: Pending<W>, k: nat)
    ensures
        successors(m, entry, k).len() == k,
    decreases k,
{
    if k > 0 {
        lemma_successors_len(m, entry, (k - 1) as nat);
    }
}

/// The walk over the accepted paths of a transducer without a cycle
/// yields what every path from the start state to a final state shows from
/// outside.
pub proof fn lemma_walk_yields_every_accepted<W: Semiring>(
    m: FstModel<W>,
    trs: Seq<Tr<W>>,
    to: StateId,
)
    requires
        m.wf(),
        acyclic(m),
        is_successful(m, trs, to),
    ensures
        paths_of(m).contains(path_model(trs).finish(m.states[to as int].final_weight->0)),
{
    let s = m.start->0;
    let rank = choose|rank: Seq<nat>| is_ranking(m, rank);
    let queue = seq![(s, PathModel::<W>::empty())];
    let none = Seq::<Tr<W>>::empty();
    assert(queue.drop_last() =~= Seq::empty());
    assert(queue_size(m, rank, queue.drop_last()) == 0);
    lemma_gone_on(none, trs);
    assert(none + trs =~= trs);
    assert(path_model(none) == PathModel::<W>::empty());
    lemma_paths_from_holds(m, rank, queue, tree_size(m, rank, s), 0, trs, to);
}

/// Something that can hand out the paths that it accepts.
pub trait PathsIterator<'a> {
    type W: Semiring;

    type Iter;

    spec fn can_walk(&self) -> bool;

    spec fn walk_spec(&self) -> Seq<PathModel<Self::W>>;

    spec fn walk_of(iter: Self::Iter) -> Seq<PathModel<Self::W>>;

    /// A walk over the accepted paths, from the first.
    fn paths_iter(&'a self) -> (iter: Self::Iter)
        requires
            self.can_walk(),
        ensures
            Self::walk_of(iter) == self.walk_spec(),
    ;
}

impl<'a, W: Semiring + 'a> PathsIterator<'a> for VectorFst<W> {
    type W = W;

    type Iter = StructPathsIterator<'a, W>;

    /// The walk ends only where the transducer has no cycle; a transducer
    /// without a start state is not walked.
    open spec fn can_walk(&self) -> bool {
        self.wf() && (self@.start is Some ==> acyclic(self@))
    }

    open spec fn walk_spec(&self) -> Seq<PathModel<W>> {
        paths_of(self@)
    }

    open spec fn walk_of(iter: StructPathsIterator<'a, W>) -> Seq<PathModel<W>> {
        iter@
    }

    fn paths_iter(&'a self) -> (iter: StructPathsIterator<'a, W>)
        ensures
            iter.inv(),
            iter.fst() == self,
    {
        StructPathsIterator::new(self)
    }
}

/// A walk over the accepted paths of a transducer. Its view is the paths
/// that are still to come.
pub struct StructPathsIterator<'a, W: Semiring> {
    fst: &'a VectorFst<W>,
    queue: VecDeque<(StateId, FstPath<W>)>,
    rank: Ghost<Seq<nat>>,
}

/// What the entries of a queue stand for.
pub open spec fn queue_model<W>(queue: Seq<(StateId, FstPath<W>)>) -> Seq<Pending<W>> {
    Seq::new(queue.len(), |i: int| (queue[i].0, queue[i].1@))
}

impl<'a, W: Semiring> View for StructPathsIterator<'a, W> {
    type V = Seq<PathModel<W>>;

    closed spec fn view(&self) -> Seq<PathModel<W>> {
        paths_from(
            self.fst@,
            queue_model(self.queue@),
            queue_size(self.fst@, self.rank@, queue_model(self.queue@)),
        )
    }
}

impl<'a, W: Semiring> StructPathsIterator<'a, W> {
    /// The transducer that is walked.
    pub closed spec fn fst(&self) -> &'a VectorFst<W> {
        self.fst
    }

    /// The validity of the walk: a transducer with a start state has no
    /// cycle, no path is under way in one without, and every path under way
    /// has reached one of the states.
    pub closed spec fn inv(&self) -> bool {
        &&& self.fst.wf()
        &&& self.fst@.start is Some ==> is_ranking(self.fst@, self.rank@)
        &&& self.fst@.start is None ==> self.queue@.len() == 0
        &&& forall|i: int|
            0 <= i < self.queue@.len() ==> self.fst@.has_state((#[trigger] self.queue@[i]).0)
    }

    /// The walk that is still to come by every accepted path of `fst`.
    pub fn new(fst: &'a VectorFst<W>) -> (iter: Self)
        requires
            fst.wf(),
            fst@.start is Some ==> acyclic(fst@),
        ensures
            iter.inv(),
            iter.fst() == fst,
            iter@ == paths_of(fst@),
    {
        let mut queue: VecDeque<(StateId, FstPath<W>)> = VecDeque::new();
        let rank = Ghost(choose|rank: Seq<nat>| is_ranking(fst@, rank));
        if let Some(state_start) = fst.start() {
            queue.push_back((state_start, FstPath::default()));
            proof {
                let q = queue_model(queue@);
                assert(q =~= seq![(state_start, PathModel::<W>::empty())]);
                assert(q.drop_last() =~= Seq::empty());
                assert(queue_size(fst@, rank@, q.drop_last()) == 0);
                assert(queue_size(fst@, rank@, q) == tree_size(fst@, rank@, state_start));
            }
        } else {
            assert(queue_model(queue@) =~= Seq::empty());
        }
        let iter = StructPathsIterator { fst, queue, rank };
        assert(iter@ == paths_of(fst@));
        iter
    }

    /// The next accepted path, if one is left.
    pub fn next(&mut self) -> (r: Option<FstPath<W>>)
        requires
            old(self).inv(),
        ensures
            final(self).inv(),
            final(self).fst() == old(self).fst(),
            old(self)@.len() == 0 ==> r is None && final(self)@.len() == 0,
            old(self)@.len() > 0 ==> r is Some && r->Some_0@ == old(self)@[0] && final(self)@
                == old(self)@.drop_first(),
    {
        while self.queue.len() > 0
            invariant
                self.inv(),
                self.fst == old(self).fst,
                self@ == old(self)@,
            decreases queue_size(self.fst@, self.rank@, queue_model(self.queue@)),
        {
            let ghost m = self.fst@;
            let ghost rank = self.rank@;
            let ghost q = queue_model(self.queue@);
            let ghost entry = q[0];
            assert(self.fst@.has_state(self.queue@[0].0));
            let (state_id, mut path) = self.queue.pop_front().unwrap();
            assert(queue_model(self.queue@) =~= q.drop_first());
            proof {
                lemma_queue_size_front(m, rank, q);
            }

            let trs = self.fst.trs(state_id);
            let mut i: usize = 0;
            while i < trs.len()
                invariant
                    i <= trs.len(),
                    self.fst == old(self).fst,
                    m == self.fst@,
                    rank == self.rank@,
                    m.wf(),
                    is_ranking(m, rank),
                    m.has_state(state_id),
                    trs@ == m.states[state_id as int].trs,
                    entry == (state_id, path@),
                    forall|j: int|
                        0 <= j < self.queue@.len() ==> m.has_state((#[trigger] self.queue@[j]).0),
                    queue_model(self.queue@) == q.drop_first() + successors(m, entry, i as nat),
                    queue_size(m, rank, queue_model(self.queue@)) + 1 == queue_size(
                        m,
                        rank,
                        q.drop_first(),
                    ) + subtree(m, rank, state_id, i as nat),
                decreases trs.len() - i,
            {
                let tr = &trs[i];
                let mut new_path = path.clone();
                new_path.add_to_path(tr.ilabel, tr.olabel, tr.weight);
                let ghost before = queue_model(self.queue@);
                assert(m.has_state(m.states[state_id as int].trs[i as int].nextstate));
                self.queue.push_back((tr.nextstate, new_path));
                i = i + 1;
                proof {
                    let after = queue_model(self.queue@);
                    assert(after =~= before.push((tr.nextstate, new_path@)));
                    assert(after.drop_last() =~= before);
                    assert(after =~= q.drop_first() + successors(m, entry, i as nat));
                }
            }
            proof {
                assert(queue_model(self.queue@) == step(m, q));
                lemma_subtree_positive(m, rank, state_id, trs@.len());
            }

            if let Some(final_weight) = self.fst.final_weight(state_id).unwrap() {
                path.add_weight(final_weight);
                proof {
                    let rest = paths_from(m, step(m, q), queue_size(m, rank, step(m, q)));
                    assert(old(self)@ == seq![path@] + rest);
                    assert((seq![path@] + rest).drop_first() =~= rest);
                }
                return Some(path);
            }
        }
        assert(queue_model(self.queue@) =~= Seq::empty());
        None
    }
}

} // verus!
