//! Paths through a transducer.

use vstd::prelude::*;

use crate::fst_impls::{FstModel, VectorFst};
use crate::fst_traits::paths::{is_accepted, is_successful, path_model};
use crate::fst_traits::paths_iterator::{
    acyclic, lemma_walk_yields_accepted, lemma_walk_yields_every_accepted, paths_of,
};
use crate::fst_traits::StructPathsIterator;
use crate::semirings::Semiring;
use crate::tr::Tr;
use crate::{Label, StateId, EPS_LABEL};

verus! {

/// What a path is: the labels that it consumes, the labels that it emits, the
/// empty string left out of both, and its weight.
pub ghost struct PathModel<W> {
    pub ilabels: Seq<Label>,
    pub olabels: Seq<Label>,
    pub weight: W,
}

impl<W: Semiring> PathModel<W> {
    /// The path without transitions.
    pub open spec fn empty() -> Self {
        PathModel { ilabels: Seq::empty(), olabels: Seq::empty(), weight: W::one_spec() }
    }

    /// The path with one more transition at its end.
    pub open spec fn extend(self, ilabel: Label, olabel: Label, weight: W) -> Self {
        PathModel {
            ilabels: if ilabel != EPS_LABEL {
                self.ilabels.push(ilabel)
            } else {
                self.ilabels
            },
            olabels: if olabel != EPS_LABEL {
                self.olabels.push(olabel)
            } else {
                self.olabels
            },
            weight: self.weight.times_spec(weight),
        }
    }

    /// The path with its weight multiplied by `weight` from the right.
    pub open spec fn finish(self, weight: W) -> Self {
        PathModel { weight: self.weight.times_spec(weight), ..self }
    }
}

/// A path accepted by a transducer.
#[derive(Debug, PartialEq, Eq, Hash)]
pub struct FstPath<W> {
    pub ilabels: Vec<Label>,
    pub olabels: Vec<Label>,
    pub weight: W,
}

impl<W> View for FstPath<W> {
    type V = PathModel<W>;

    open spec fn view(&self) -> PathModel<W> {
        PathModel { ilabels: self.ilabels@, olabels: self.olabels@, weight: self.weight }
    }
}

/// A copy of `labels`.
fn copy_labels(labels: &Vec<Label>) -> (r: Vec<Label>)
    ensures
        r@ == labels@,
{
    let mut r: Vec<Label> = Vec::with_capacity(labels.len());
    let mut i: usize = 0;
    while i < labels.len()
        invariant
            i <= labels.len(),
            r@ == labels@.take(i as int),
        decreases labels.len() - i,
    {
        r.push(labels[i]);
        i = i + 1;
        assert(r@ =~= labels@.take(i as int));
    }
    assert(labels@.take(i as int) =~= labels@);
    r
}

impl<W: Semiring> Clone for FstPath<W> {
    fn clone(&self) -> (r: Self)
        ensures
            r@ == self@,
    {
        FstPath {
            ilabels: copy_labels(&self.ilabels),
            olabels: copy_labels(&self.olabels),
            weight: self.weight,
        }
    }
}

impl<W: Semiring> Default for FstPath<W> {
    /// The path without transitions, of weight one.
    fn default() -> (r: Self)
        ensures
            r@ == PathModel::<W>::empty(),
    {
        FstPath { ilabels: Vec::new(), olabels: Vec::new(), weight: W::one() }
    }
}

impl<W: Semiring> FstPath<W> {
    pub fn new(ilabels: Vec<Label>, olabels: Vec<Label>, weight: W) -> (r: Self)
        ensures
            r.ilabels == ilabels,
            r.olabels == olabels,
            r.weight == weight,
    {
        FstPath { ilabels, olabels, weight }
    }

    /// Adds a transition at the end of the path: its labels, unless they are
    /// the empty string, and its weight.
    pub fn add_to_path(&mut self, ilabel: Label, olabel: Label, weight: W)
        ensures
            final(self)@ == old(self)@.extend(ilabel, olabel, weight),
    {
        if ilabel != EPS_LABEL {
            self.ilabels.push(ilabel);
        }
        if olabel != EPS_LABEL {
            self.olabels.push(olabel);
        }
        self.weight = self.weight.times(&weight);
    }

    /// Multiplies the weight of the path by `weight`, from the right.
    pub fn add_weight(&mut self, weight: W)
        ensures
            final(self)@ == old(self)@.finish(weight),
    {
        self.weight = self.weight.times(&weight);
    }

    /// Whether the path has no label on either side.
    pub fn is_empty(&self) -> (b: bool)
        ensures
            b == (self@.ilabels.len() == 0 && self@.olabels.len() == 0),
    {
        self.ilabels.is_empty() && self.olabels.is_empty()
    }
}

/// Whether two sequences of labels are the same.
fn same_labels(a: &Vec<Label>, b: &Vec<Label>) -> (r: bool)
    ensures
        r == (a@ == b@),
{
    if a.len() != b.len() {
        return false;
    }
    let mut i: usize = 0;
    while i < a.len()
        invariant
            i <= a.len(),
            a.len() == b.len(),
            forall|j: int| 0 <= j < i ==> a@[j] == b@[j],
        decreases a.len() - i,
    {
        if a[i] != b[i] {
            return false;
        }
        i = i + 1;
    }
    assert(a@ =~= b@);
    true
}

impl<W: Semiring> FstPath<W> {
    /// Whether `other` is the same path: it consumes and emits the same
    /// labels and has the same weight.
    pub fn same(&self, other: &Self) -> (b: bool)
        ensures
            b == (self@ == other@),
    {
        same_labels(&self.ilabels, &other.ilabels) && same_labels(&self.olabels, &other.olabels)
            && self.weight.same(&other.weight)
    }
}

/// The accepted paths of `fst`, in the order of the walk over them.
pub fn collect_paths<W: Semiring>(fst: &VectorFst<W>) -> (paths: Vec<FstPath<W>>)
    requires
        fst.wf(),
        fst@.start is Some ==> acyclic(fst@),
    ensures
        paths@.len() == paths_of(fst@).len(),
        forall|i: int| 0 <= i < paths@.len() ==> (#[trigger] paths@[i])@ == paths_of(fst@)[i],
{
    let ghost all = paths_of(fst@);
    let mut iter = StructPathsIterator::new(fst);
    let mut paths: Vec<FstPath<W>> = Vec::new();
    let mut more = true;
    while more
        invariant
            iter.inv(),
            paths@.len() <= all.len(),
            forall|i: int| 0 <= i < paths@.len() ==> (#[trigger] paths@[i])@ == all[i],
            more ==> iter@ == all.skip(paths@.len() as int),
            !more ==> paths@.len() == all.len(),
        decreases
                iter@.len() + if more {
                    1nat
                } else {
                    0nat
                },
    {
        match iter.next() {
            Some(path) => {
                proof {
                    assert(all.skip(paths@.len() as int)[0] == all[paths@.len() as int]);
                    assert(all.skip(paths@.len() as int).drop_first() =~= all.skip(
                        paths@.len() as int + 1,
                    ));
                }
                paths.push(path);
            },
            None => {
                more = false;
            },
        }
    }
    paths
}

/// `path` is one of the accepted paths of `m`.
pub open spec fn path_in_fst<W: Semiring>(m: FstModel<W>, path: PathModel<W>) -> bool {
    exists|i: int| 0 <= i < paths_of(m).len() && #[trigger] paths_of(m)[i] == path
}

/// In a transducer without a cycle the walk yields a path if and only if
/// a path from the start state to a final state shows it from outside.
pub proof fn lemma_path_in_fst_is_accepted<W: Semiring>(m: FstModel<W>, path: PathModel<W>)
    requires
        m.wf(),
        m.start is Some ==> acyclic(m),
    ensures
        path_in_fst(m, path) == is_accepted(m, path),
{
    if path_in_fst(m, path) {
        let i = choose|i: int| 0 <= i < paths_of(m).len() && #[trigger] paths_of(m)[i] == path;
        lemma_walk_yields_accepted(m, i);
    }
    if is_accepted(m, path) {
        let (trs, to) = choose|trs: Seq<Tr<W>>, to: StateId| #[trigger]
            is_successful(m, trs, to) && path == path_model(trs).finish(
                m.states[to as int].final_weight->0,
            );
        lemma_walk_yields_every_accepted(m, trs, to);
        let found = path_model(trs).finish(m.states[to as int].final_weight->0);
        let i = choose|i: int| 0 <= i < paths_of(m).len() && paths_of(m)[i] == found;
        assert(paths_of(m)[i] == path);
    }
}

/// Whether the transducer accepts the path. The walk over the accepted
/// paths ends only where the transducer has no cycle.
pub fn check_path_in_fst<W: Semiring>(fst: &VectorFst<W>, fst_path: &FstPath<W>) -> (b: bool)
    requires
        fst.wf(),
        fst@.start is Some ==> acyclic(fst@),
    ensures
        b == path_in_fst(fst@, fst_path@),
{
    let paths = collect_paths(fst);
    let mut i: usize = 0;
    while i < paths.len()
        invariant
            i <= paths@.len(),
            paths@.len() == paths_of(fst@).len(),
            forall|j: int| 0 <= j < paths@.len() ==> (#[trigger] paths@[j])@ == paths_of(fst@)[j],
            forall|j: int| 0 <= j < i ==> #[trigger] paths_of(fst@)[j] != fst_path@,
        decreases paths.len() - i,
    {
        if paths[i].same(fst_path) {
            assert(paths_of(fst@)[i as int] == fst_path@);
            return true;
        }
        i = i + 1;
    }
    false
}

} // verus!
