//! Shortest paths that were computed elsewhere.

use vstd::prelude::*;

use crate::error::FstError;
use crate::fst_impls::{FstModel, VectorFst};
use crate::parsers::bin_fst::vector_fst::fst_spec;
use crate::fst_path::{check_path_in_fst, collect_paths, path_in_fst};
use crate::fst_traits::acyclic::is_acyclic;
use crate::fst_traits::paths_iterator::{acyclic, paths_of};
use crate::semirings::{Semiring, SerializableSemiring};

verus! {

/// A shortest-path computation that was done elsewhere, as it is written
/// down: how many paths were asked for, whether they had to differ, and the
/// file that holds the result, or the word `error` where none could be
/// computed.
pub struct ShorestPathOperationResult {
    pub unique: bool,
    pub nshortest: usize,
    pub result_path: String,
}

/// A shortest-path computation that was done elsewhere.
pub struct ShortestPathTestData<W: SerializableSemiring> {
    pub unique: bool,
    pub nshortest: usize,
    pub result: Result<VectorFst<W>, FstError>,
}

impl ShorestPathOperationResult {
    /// Whether the record expects an error, and so names no file.
    pub open spec fn expects_error(&self) -> bool {
        self.result_path@ == "error"@
    }

    /// Whether the record names a file that holds the result.
    pub fn has_result_file(&self) -> (b: bool)
        ensures
            b == !self.expects_error(),
    {
        !(self.result_path == "error".to_owned())
    }

    /// The record with its result: the transducer that `contents`, the
    /// bytes of the file that the record names, hold; or an error where the
    /// record expects one, and `contents` is not looked at.
    pub fn parse<W: SerializableSemiring>(&self, contents: &[u8]) -> (r: ShortestPathTestData<W>)
        ensures
            r.unique == self.unique,
            r.nshortest == self.nshortest,
            self.expects_error() ==> r.result is Err,
            !self.expects_error() ==> match fst_spec::<W>(contents@) {
                Ok(m) => r.result is Ok && r.result->Ok_0.wf() && r.result->Ok_0@ == m,
                Err(e) => r.result is Err && r.result->Err_0 == e,
            },
    {
        ShortestPathTestData {
            unique: self.unique,
            nshortest: self.nshortest,
            result: if self.has_result_file() {
                VectorFst::<W>::read(contents)
            } else {
                Err(FstError::PropertyViolation)
            },
        }
    }
}

/// The transducer `computed` holds the shortest paths that `expected`
/// holds: as many accepted paths, with the same weights in the order of the
/// walk over them, each of them accepted by `raw`. Which of several paths of
/// one weight is found is left open.
pub open spec fn same_shortest_paths<W: Semiring>(
    raw: FstModel<W>,
    expected: FstModel<W>,
    computed: FstModel<W>,
) -> bool {
    &&& paths_of(expected).len() == paths_of(computed).len()
    &&& forall|i: int|
        0 <= i < paths_of(computed).len() ==> (#[trigger] paths_of(expected)[i]).weight
            == paths_of(computed)[i].weight
    &&& forall|i: int|
        0 <= i < paths_of(computed).len() ==> path_in_fst(raw, #[trigger] paths_of(computed)[i])
}

/// The walk over the accepted paths of `m` ends: `m` has no start state, or
/// no cycle.
pub open spec fn walkable<W>(m: FstModel<W>) -> bool {
    m.start is Some ==> acyclic(m)
}

/// Whether the walk over the accepted paths of `fst` ends.
pub fn can_be_walked<W: Semiring>(fst: &VectorFst<W>) -> (b: bool)
    requires
        fst.wf(),
    ensures
        b == walkable(fst@),
{
    fst.start().is_none() || is_acyclic(fst)
}

/// What the check of one computation says. Where a result is expected and
/// one was computed, whether the computed one holds the expected shortest
/// paths; no walk over the paths of a transducer with a start state and a
/// cycle ends, so such a transducer is refused. Where none is expected and none was computed,
/// the check passes; else it fails.
pub open spec fn verdict<W: Semiring>(
    raw: FstModel<W>,
    expected: Result<VectorFst<W>, FstError>,
    computed: Result<VectorFst<W>, FstError>,
) -> Result<bool, FstError> {
    match expected {
        Ok(e) => match computed {
            Ok(c) => if walkable(raw) && walkable(e@) && walkable(c@) {
                Ok(same_shortest_paths(raw, e@, c@))
            } else {
                Err(FstError::PropertyViolation)
            },
            Err(_) => Ok(false),
        },
        Err(_) => Ok(computed is Err),
    }
}

/// Whether `computed` holds the shortest paths that `expected` holds.
fn holds_same_paths<W: Semiring>(
    raw: &VectorFst<W>,
    expected: &VectorFst<W>,
    computed: &VectorFst<W>,
) -> (b: bool)
    requires
        raw.wf(),
        expected.wf(),
        computed.wf(),
        walkable(raw@),
        walkable(expected@),
        walkable(computed@),
    ensures
        b == same_shortest_paths(raw@, expected@, computed@),
{
    let fst_paths_expected = collect_paths(expected);
    let fst_paths_computed = collect_paths(computed);
    if fst_paths_expected.len() != fst_paths_computed.len() {
        return false;
    }
    let n = fst_paths_computed.len();
    let mut i: usize = 0;
    while i < n
        invariant
            i <= n,
            n == paths_of(computed@).len(),
            n == paths_of(expected@).len(),
            fst_paths_expected@.len() == n,
            fst_paths_computed@.len() == n,
            forall|j: int|
                0 <= j < n ==> (#[trigger] fst_paths_expected@[j])@ == paths_of(expected@)[j],
            forall|j: int|
                0 <= j < n ==> (#[trigger] fst_paths_computed@[j])@ == paths_of(computed@)[j],
            forall|j: int|
                0 <= j < i ==> (#[trigger] paths_of(expected@)[j]).weight == paths_of(
                    computed@,
                )[j].weight,
        decreases n - i,
    {
        let same = fst_paths_expected[i].weight.same(&fst_paths_computed[i].weight);
        proof {
            let _ = fst_paths_expected@[i as int];
            let _ = fst_paths_computed@[i as int];
        }
        if !same {
            assert(paths_of(expected@)[i as int].weight != paths_of(computed@)[i as int].weight);
            return false;
        }
        i = i + 1;
    }
    let mut i: usize = 0;
    while i < n
        invariant
            i <= n,
            raw.wf(),
            walkable(raw@),
            n == paths_of(computed@).len(),
            fst_paths_computed@.len() == n,
            forall|j: int|
                0 <= j < n ==> (#[trigger] fst_paths_computed@[j])@ == paths_of(computed@)[j],
            forall|j: int| 0 <= j < i ==> path_in_fst(raw@, #[trigger] paths_of(computed@)[j]),
        decreases n - i,
    {
        let found = check_path_in_fst(raw, &fst_paths_computed[i]);
        proof {
            let _ = fst_paths_computed@[i as int];
        }
        if !found {
            assert(!path_in_fst(raw@, paths_of(computed@)[i as int]));
            return false;
        }
        i = i + 1;
    }
    true
}

/// Checks one computation of shortest paths in `raw` against the result
/// that is expected of it.
pub fn check_shortest_path<W: Semiring>(
    raw: &VectorFst<W>,
    expected: &Result<VectorFst<W>, FstError>,
    computed: &Result<VectorFst<W>, FstError>,
) -> (r: Result<bool, FstError>)
    requires
        raw.wf(),
        expected matches Ok(e) ==> e.wf(),
        computed matches Ok(c) ==> c.wf(),
    ensures
        r == verdict(raw@, *expected, *computed),
{
    match expected {
        Ok(fst_expected) => match computed {
            Ok(fst_shortest) => {
                if !can_be_walked(raw) || !can_be_walked(fst_expected) || !can_be_walked(
                    fst_shortest,
                ) {
                    return Err(FstError::PropertyViolation);
                }
                Ok(holds_same_paths(raw, fst_expected, fst_shortest))
            },
            Err(_) => Ok(false),
        },
        Err(_) => Ok(computed.is_err()),
    }
}

/// Checks the shortest paths that were computed in `raw`, one computation
/// for each record and in the order of the records, against the results
/// that the records expect. The check passes if every computation passes;
/// else its result is that of the first computation that does not.
pub fn test_shortest_path<W: SerializableSemiring>(
    raw: &VectorFst<W>,
    shortest_path: &Vec<ShortestPathTestData<W>>,
    computed: &Vec<Result<VectorFst<W>, FstError>>,
) -> (r: Result<bool, FstError>)
    requires
        raw.wf(),
        computed@.len() == shortest_path@.len(),
        forall|k: int|
            0 <= k < shortest_path@.len() ==> ((#[trigger] shortest_path@[k]).result matches Ok(
                e,
            ) ==> e.wf()),
        forall|k: int|
            0 <= k < computed@.len() ==> ((#[trigger] computed@[k]) matches Ok(c) ==> c.wf()),
    ensures
        r == Ok::<bool, FstError>(true) <==> forall|k: int|
            0 <= k < computed@.len() ==> #[trigger] verdict(
                raw@,
                shortest_path@[k].result,
                computed@[k],
            ) == Ok::<bool, FstError>(true),
        r != Ok::<bool, FstError>(true) ==> exists|k: int|
            0 <= k < computed@.len() && #[trigger] verdict(
                raw@,
                shortest_path@[k].result,
                computed@[k],
            ) == r,
{
    let mut i: usize = 0;
    while i < shortest_path.len()
        invariant
            i <= shortest_path@.len(),
            raw.wf(),
            computed@.len() == shortest_path@.len(),
            forall|k: int|
                0 <= k < shortest_path@.len() ==> ((#[trigger] shortest_path@[k]).result matches Ok(
                    e,
                ) ==> e.wf()),
            forall|k: int|
                0 <= k < computed@.len() ==> ((#[trigger] computed@[k]) matches Ok(c) ==> c.wf()),
            forall|k: int|
                0 <= k < i ==> #[trigger] verdict(raw@, shortest_path@[k].result, computed@[k])
                    == Ok::<bool, FstError>(true),
        decreases shortest_path.len() - i,
    {
        let data = &shortest_path[i];
        let fst_res = &computed[i];
        proof {
            let _ = shortest_path@[i as int];
            let _ = computed@[i as int];
        }
        let checked = check_shortest_path(raw, &data.result, fst_res);
        match checked {
            Ok(true) => {},
            _ => {
                assert(verdict(raw@, shortest_path@[i as int].result, computed@[i as int])
                    == checked);
                return checked;
            },
        }
        i = i + 1;
    }
    Ok(true)
}

} // verus!
