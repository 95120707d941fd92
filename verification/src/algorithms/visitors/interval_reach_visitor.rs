//! The visitor that finds, for each state, the final states that can be
//! reached from it, as intervals of the numbers that it gives to them.

use vstd::prelude::*;

use crate::algorithms::compose::lookahead_matchers::interval_set::{
    covers, normalized, IntInterval, IntervalSet,
};
use crate::algorithms::dfs_visit::Visitor;
use crate::fst_impls::{FstModel, VectorFst};
use crate::semirings::Semiring;
use crate::tr::Tr;
use crate::StateId;

verus! {

/// The number of a state that has none.
pub const UNASSIGNED: usize = usize::MAX;

/// The visitor of a walk of a transducer without cycles. It numbers the
/// final states in the order in which they are discovered, from 1, and
/// gathers for each state the numbers of the final states that can be
/// reached from it.
pub struct IntervalReachVisitor<'a, W: Semiring> {
    fst: &'a VectorFst<W>,
    isets: Vec<IntervalSet>,
    state2index: Vec<usize>,
    index: usize,
    error: bool,
}

/// A copy of the intervals of `iset`.
fn copy_iset(iset: &IntervalSet) -> (r: IntervalSet)
    ensures
        r.intervals@ == iset.intervals@,
{
    let mut r = IntervalSet::new();
    r.union(iset);
    assert(r.intervals@ =~= iset.intervals@);
    r
}

/// Adds the set at `i_sup` to the set at `i_inf`, which comes before it.
pub fn union_vec_isets_ordered(isets: &mut Vec<IntervalSet>, i_inf: usize, i_sup: usize)
    requires
        i_inf < i_sup < old(isets)@.len(),
    ensures
        final(isets)@.len() == old(isets)@.len(),
        final(isets)@[i_inf as int].intervals@
            == old(isets)@[i_inf as int].intervals@ + old(isets)@[i_sup as int].intervals@,
        forall|k: int|
            0 <= k < old(isets)@.len() && k != i_inf ==> final(isets)@[k] == old(isets)@[k],
{
    let source = copy_iset(&isets[i_sup]);
    isets[i_inf].union(&source);
}

/// Adds the set at `j` to the set at `i`, whichever comes first. Nothing is
/// done if they are the same set.
pub fn union_vec_isets_unordered(isets: &mut Vec<IntervalSet>, i: usize, j: usize)
    requires
        i < old(isets)@.len(),
        j < old(isets)@.len(),
    ensures
        final(isets)@.len() == old(isets)@.len(),
        i != j ==> final(isets)@[i as int].intervals@
            == old(isets)@[i as int].intervals@ + old(isets)@[j as int].intervals@,
        i == j ==> final(isets)@[i as int] == old(isets)@[i as int],
        forall|k: int| 0 <= k < old(isets)@.len() && k != i ==> final(isets)@[k] == old(isets)@[k],
{
    if i < j {
        union_vec_isets_ordered(isets, i, j)
    } else if j < i {
        let source = copy_iset(&isets[j]);
        isets[i].union(&source);
    }
}

impl<'a, W: Semiring> IntervalReachVisitor<'a, W> {
    pub fn new(fst: &'a VectorFst<W>) -> (visitor: Self)
        requires
            fst.wf(),
        ensures
            visitor.valid(),
            visitor.fst() == fst,
            visitor.isets_spec().len() == 0,
            visitor.state2index_spec().len() == 0,
            visitor.index() == 1,
            !visitor.failed(),
    {
        Self { fst, isets: Vec::new(), state2index: Vec::new(), index: 1, error: false }
    }

    /// For each state that was discovered, the set of the numbers of the
    /// final states that can be reached from it.
    pub closed spec fn isets_spec(&self) -> Seq<IntervalSet> {
        self.isets@
    }

    /// For each state that was discovered, its number if it is final.
    pub closed spec fn state2index_spec(&self) -> Seq<usize> {
        self.state2index@
    }

    pub fn isets(&self) -> (r: &Vec<IntervalSet>)
        ensures
            r@ == self.isets_spec(),
    {
        &self.isets
    }

    pub fn state2index(&self) -> (r: &Vec<usize>)
        ensures
            r@ == self.state2index_spec(),
    {
        &self.state2index
    }

    /// The transducer that is walked.
    pub closed spec fn fst(&self) -> &'a VectorFst<W> {
        self.fst
    }

    /// The number that the next final state gets.
    pub closed spec fn index(&self) -> usize {
        self.index
    }

    /// Whether the walk met a cycle, or a state without number where the
    /// numbers were to be given from outside.
    pub closed spec fn failed(&self) -> bool {
        self.error
    }

    /// The validity of the visitor: no interval is empty, and none reaches
    /// beyond the numbers that were given.
    pub closed spec fn valid(&self) -> bool {
        &&& self.fst.wf()
        &&& forall|s: int, k: int|
            0 <= s < self.isets@.len() && 0 <= k < self.isets@[s].intervals@.len() ==> {
                let interval = #[trigger] self.isets@[s].intervals@[k];
                interval.begin < interval.end && (self.index != UNASSIGNED ==> interval.end
                    <= self.index)
            }
    }

    /// Whether the visitor has room for the state `s`, and its own number in
    /// the set of `s` if `s` is final.
    pub closed spec fn knows(&self, s: StateId) -> bool {
        &&& self.fst@.has_state(s)
        &&& s < self.isets@.len()
        &&& s < self.state2index@.len()
        &&& self.fst@.states[s as int].final_weight is Some && self.index != UNASSIGNED
            ==> self.isets@[s as int].intervals@.len() > 0
    }

    /// The intervals that the visitor holds for the state `s`: none where
    /// it has no room for `s` yet.
    pub open spec fn set_of(&self, s: int) -> Seq<IntInterval> {
        if 0 <= s < self.isets_spec().len() {
            self.isets_spec()[s].intervals@
        } else {
            Seq::empty()
        }
    }

    /// The number that the visitor holds for the state `s`: none where it
    /// has no room for `s` yet.
    pub open spec fn number_of(&self, s: int) -> usize {
        if 0 <= s < self.state2index_spec().len() {
            self.state2index_spec()[s]
        } else {
            UNASSIGNED
        }
    }

    /// Whether the state `s` is final.
    pub open spec fn is_final_spec(&self, s: StateId) -> bool {
        self.fst()@.states[s as int].final_weight is Some
    }

    /// The number that a final state gets when it is discovered: the next
    /// number, or the number that was given from outside where the visitor
    /// gives none; no number where the state is not final.
    pub open spec fn number_at_discovery(&self, s: StateId) -> usize {
        if !self.is_final_spec(s) {
            UNASSIGNED
        } else if self.index() != UNASSIGNED {
            self.index()
        } else if self.fst()@.states[s as int].trs.len() > 0 {
            UNASSIGNED
        } else {
            self.number_of(s as int)
        }
    }

    /// The intervals of the state `s` when it is finished, before they are
    /// normalized: where the visitor gives the numbers and `s` is final, the
    /// first interval reaches up to the last number that was given.
    pub open spec fn closed_set_of(&self, s: StateId) -> Seq<IntInterval> {
        let held = self.isets_spec()[s as int].intervals@;
        if self.index() != UNASSIGNED && self.is_final_spec(s) {
            held.update(0, IntInterval { begin: held[0].begin, end: self.index() })
        } else {
            held
        }
    }

    /// Whether the walk met a cycle, or a state without number where the
    /// numbers were to be given from outside.
    pub fn error(&self) -> (b: bool)
        ensures
            b == self.failed(),
    {
        self.error
    }
}

impl<'a, W: Semiring> Visitor<W> for IntervalReachVisitor<'a, W> {
    closed spec fn inv(&self) -> bool {
        self.valid()
    }

    closed spec fn fst_spec(&self) -> FstModel<W> {
        self.fst@
    }

    closed spec fn discovered(&self, s: StateId) -> bool {
        self.knows(s)
    }

    /// The visitor asks for the walk to end where it fails.
    open spec fn stopped(&self) -> bool {
        self.failed()
    }

    /// Invoked before DFS visit.
    fn init_visit(&mut self, _fst: &VectorFst<W>) {
    }

    /// Invoked when state discovered (2nd arg is DFS tree root).
    ///
    /// The visitor makes room for `s`. If `s` is final it gets the next
    /// number, and its set the interval of that number alone.
    fn init_state(&mut self, s: StateId, _root: StateId) -> (dfs: bool)
        ensures
            final(self).isets_spec().len() == if old(self).isets_spec().len() > s {
                old(self).isets_spec().len()
            } else {
                (s + 1) as nat
            },
            final(self).state2index_spec().len() == if old(self).state2index_spec().len() > s {
                old(self).state2index_spec().len()
            } else {
                (s + 1) as nat
            },
            forall|t: int|
                0 <= t < final(self).isets_spec().len() && t != s
                    ==> (#[trigger] final(self).isets_spec()[t]).intervals@ == old(self).set_of(t),
            forall|t: int|
                0 <= t < old(self).isets_spec().len() && t != s
                    ==> final(self).isets_spec()[t] == old(self).isets_spec()[t],
            forall|t: int|
                0 <= t < final(self).state2index_spec().len() && t != s
                    ==> #[trigger] final(self).state2index_spec()[t] == old(self).number_of(t),
            dfs == (old(self).is_final_spec(s) ==> old(self).number_at_discovery(s)
                != UNASSIGNED),
            final(self).failed() == (old(self).failed() || !dfs),
            final(self).index() == if old(self).is_final_spec(s) && old(self).index()
                != UNASSIGNED {
                (old(self).index() + 1) as usize
            } else {
                old(self).index()
            },
            final(self).state2index_spec()[s as int] == if old(self).is_final_spec(s)
                && old(self).index() != UNASSIGNED {
                old(self).index()
            } else {
                old(self).number_of(s as int)
            },
            final(self).isets_spec()[s as int].intervals@ == if dfs
                && old(self).is_final_spec(s) {
                old(self).set_of(s as int).push(
                    IntInterval {
                        begin: old(self).number_at_discovery(s),
                        end: (old(self).number_at_discovery(s) + 1) as usize,
                    },
                )
            } else {
                old(self).set_of(s as int)
            },
    {
        while self.isets.len() <= s
            invariant
                self.valid(),
                self.fst == old(self).fst,
                self.index == old(self).index,
                self.error == old(self).error,
                self.state2index == old(self).state2index,
                self.isets@.len() >= old(self).isets@.len(),
                self.isets@.len() <= s + 1 || self.isets@.len() == old(self).isets@.len(),
                forall|t: int|
                    0 <= t < old(self).isets@.len() ==> self.isets@[t] == old(self).isets@[t],
                forall|t: int|
                    old(self).isets@.len() <= t < self.isets@.len() ==> (
                    #[trigger] self.isets@[t]).intervals@ == Seq::<IntInterval>::empty(),
            decreases s + 1 - self.isets.len(),
        {
            self.isets.push(IntervalSet::default());
        }
        while self.state2index.len() <= s
            invariant
                self.valid(),
                self.fst == old(self).fst,
                self.index == old(self).index,
                self.error == old(self).error,
                self.isets@.len() > s,
                self.isets@.len() == if old(self).isets@.len() > s {
                    old(self).isets@.len()
                } else {
                    (s + 1) as nat
                },
                self.state2index@.len() >= old(self).state2index@.len(),
                self.state2index@.len() <= s + 1 || self.state2index@.len()
                    == old(self).state2index@.len(),
                forall|t: int|
                    0 <= t < old(self).state2index@.len()
                        ==> self.state2index@[t] == old(self).state2index@[t],
                forall|t: int|
                    old(self).state2index@.len() <= t < self.state2index@.len()
                        ==> #[trigger] self.state2index@[t] == UNASSIGNED,
                forall|t: int|
                    0 <= t < old(self).isets@.len() ==> self.isets@[t] == old(self).isets@[t],
                forall|t: int|
                    old(self).isets@.len() <= t < self.isets@.len() ==> (
                    #[trigger] self.isets@[t]).intervals@ == Seq::<IntInterval>::empty(),
            decreases s + 1 - self.state2index.len(),
        {
            self.state2index.push(UNASSIGNED);
        }
        let ghost grown = *self;
        assert(grown.isets@[s as int].intervals@ == old(self).set_of(s as int));
        assert(grown.state2index@[s as int] == old(self).number_of(s as int));
        if self.fst.is_final(s).unwrap() {
            if self.index == UNASSIGNED {
                if self.fst.num_trs(s).unwrap() > 0 {
                    // The numbers must be given from outside for this FST.
                    self.error = true;
                    return false;
                }
                let index = self.state2index[s];
                if index == UNASSIGNED {
                    // The numbers that were given from outside are incomplete.
                    self.error = true;
                    return false;
                }
                self.isets[s].intervals.push(IntInterval::new(index, index + 1));
            } else {
                self.isets[s].intervals.push(IntInterval::new(self.index, self.index + 1));
                self.state2index.set(s, self.index);
                self.index += 1;
            }
            proof {
                assert forall|t: int, k: int|
                    0 <= t < self.isets@.len() && 0 <= k < self.isets@[t].intervals@.len() implies {
                    let interval = #[trigger] self.isets@[t].intervals@[k];
                    interval.begin < interval.end && (self.index != UNASSIGNED ==> interval.end
                        <= self.index)
                } by {
                    if t != s || k < grown.isets@[t].intervals@.len() {
                        assert(self.isets@[t].intervals@[k] == grown.isets@[t].intervals@[k]);
                    }
                }
                assert forall|t: int| 0 <= t < self.isets@.len() && t != s implies (
                #[trigger] self.isets@[t]).intervals@ == old(self).set_of(t) by {
                    assert(self.isets@[t] == grown.isets@[t]);
                }
            }
        }
        true
    }

    /// Invoked when tree arc to white/undiscovered state examined.
    fn tree_arc(&mut self, _s: StateId, _tr: &Tr<W>) -> (dfs: bool)
        ensures
            dfs,
            *final(self) == *old(self),
    {
        true
    }

    /// Invoked when back arc to grey/unfinished state examined: the
    /// transducer has a cycle, and the walk ends.
    fn back_arc(&mut self, _s: StateId, _tr: &Tr<W>) -> (dfs: bool)
        ensures
            !dfs,
            final(self).failed(),
            final(self).isets_spec() == old(self).isets_spec(),
            final(self).state2index_spec() == old(self).state2index_spec(),
            final(self).index() == old(self).index(),
    {
        self.error = true;
        false
    }

    /// Invoked when forward or cross arc to black/finished state examined.
    fn forward_or_cross_arc(&mut self, s: StateId, tr: &Tr<W>) -> (dfs: bool)
        ensures
            dfs,
            final(self).failed() == old(self).failed(),
            final(self).state2index_spec() == old(self).state2index_spec(),
            final(self).index() == old(self).index(),
            final(self).isets_spec().len() == old(self).isets_spec().len(),
            s != tr.nextstate
                ==> final(self).isets_spec()[s as int].intervals@
                == old(self).isets_spec()[s as int].intervals@ + old(self).isets_spec()[tr.nextstate as int].intervals@,
            forall|t: int|
                0 <= t < old(self).isets_spec().len() && (t != s || s == tr.nextstate)
                    ==> final(self).isets_spec()[t] == old(self).isets_spec()[t],
    {
        let ghost before = *self;
        union_vec_isets_unordered(&mut self.isets, s, tr.nextstate);
        proof {
            assert forall|t: int, k: int|
                0 <= t < self.isets@.len() && 0 <= k < self.isets@[t].intervals@.len() implies {
                let interval = #[trigger] self.isets@[t].intervals@[k];
                interval.begin < interval.end && (self.index != UNASSIGNED ==> interval.end
                    <= self.index)
            } by {
                if t == s && s != tr.nextstate {
                    let own = before.isets@[s as int].intervals@;
                    if k < own.len() {
                        assert(self.isets@[t].intervals@[k] == own[k]);
                    } else {
                        assert(self.isets@[t].intervals@[k]
                            == before.isets@[tr.nextstate as int].intervals@[k
                            - own.len()]);
                    }
                } else {
                    assert(self.isets@[t] == before.isets@[t]);
                }
            }
        }
        true
    }

    /// Invoked when state finished ('s' is tree root, 'parent' is kNoStateId,
    /// and 'arc' is nullptr).
    ///
    /// The set of `s` is closed: it reaches up to the last number that was
    /// given, is normalized, and is added to the set of `parent`.
    fn finish_state(&mut self, s: StateId, parent: Option<StateId>, _tr: Option<&Tr<W>>)
        ensures
            final(self).failed() == old(self).failed(),
            final(self).state2index_spec() == old(self).state2index_spec(),
            final(self).index() == old(self).index(),
            final(self).isets_spec().len() == old(self).isets_spec().len(),
            normalized(final(self).isets_spec()[s as int].intervals@),
            forall|v: int|
                final(self).isets_spec()[s as int].contains(v) == covers(
                    old(self).closed_set_of(s),
                    v,
                ),
            forall|t: int|
                0 <= t < old(self).isets_spec().len() && t != s && parent != Some(t as StateId)
                    ==> final(self).isets_spec()[t] == old(self).isets_spec()[t],
            parent matches Some(p) ==> p != s ==> normalized(
                final(self).isets_spec()[s as int].intervals@,
            ) && final(self).isets_spec()[p as int].intervals@
                == old(self).isets_spec()[p as int].intervals@ + final(self).isets_spec()[s as int].intervals@,
    {
        let ghost before = *self;
        if self.index != UNASSIGNED && self.fst.is_final(s).unwrap() {
            let first = self.isets[s].intervals[0];
            self.isets[s].intervals.set(0, IntInterval::new(first.begin, self.index));
        }
        let ghost ended = *self;
        proof {
            assert forall|t: int, k: int|
                0 <= t < self.isets@.len() && 0 <= k < self.isets@[t].intervals@.len() implies {
                let interval = #[trigger] self.isets@[t].intervals@[k];
                interval.begin < interval.end && (self.index != UNASSIGNED ==> interval.end
                    <= self.index)
            } by {
                if t != s || k != 0 {
                    assert(self.isets@[t].intervals@[k] == before.isets@[t].intervals@[k]);
                } else {
                    let _ = before.isets@[t].intervals@[0];
                }
            }
        }
        self.isets[s].normalize();
        proof {
            let was = ended.isets@[s as int].intervals@;
            let now = self.isets@[s as int].intervals@;
            assert forall|k: int| 0 <= k < now.len() implies (#[trigger] now[k]).begin < now[k].end
                && (self.index != UNASSIGNED ==> now[k].end <= self.index) by {
                let last = now[k].end - 1;
                assert(self.isets@[s as int].contains(last));
                assert(ended.isets@[s as int].contains(last));
                let w = choose|w: int|
                    0 <= w < was.len() && (#[trigger] was[w]).begin <= last < was[w].end;
                let _ = ended.isets@[s as int].intervals@[w];
            }
            if was.len() > 0 {
                let _ = ended.isets@[s as int].intervals@[0];
                assert(ended.isets@[s as int].contains(was[0].begin as int));
                assert(self.isets@[s as int].contains(was[0].begin as int));
            }
            assert forall|t: int, k: int|
                0 <= t < self.isets@.len() && 0 <= k < self.isets@[t].intervals@.len() implies {
                let interval = #[trigger] self.isets@[t].intervals@[k];
                interval.begin < interval.end && (self.index != UNASSIGNED ==> interval.end
                    <= self.index)
            } by {
                if t != s {
                    assert(self.isets@[t] == ended.isets@[t]);
                }
            }
        }
        if let Some(p) = parent {
            let ghost normal = *self;
            union_vec_isets_unordered(&mut self.isets, p, s);
            proof {
                assert forall|t: int, k: int|
                    0 <= t < self.isets@.len() && 0 <= k < self.isets@[t].intervals@.len() implies {
                    let interval = #[trigger] self.isets@[t].intervals@[k];
                    interval.begin < interval.end && (self.index != UNASSIGNED ==> interval.end
                        <= self.index)
                } by {
                    if t == p && p != s {
                        let own = normal.isets@[p as int].intervals@;
                        if k < own.len() {
                            assert(self.isets@[t].intervals@[k] == own[k]);
                        } else {
                            assert(self.isets@[t].intervals@[k]
                                == normal.isets@[s as int].intervals@[k
                                - own.len()]);
                        }
                    } else {
                        assert(self.isets@[t] == normal.isets@[t]);
                    }
                }
            }
        }
    }

    /// Invoked after DFS visit.
    fn finish_visit(&mut self) {
    }
}

} // verus!
