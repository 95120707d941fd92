//! A matcher for transducers whose transitions are sorted by the label on
//! the matched side: a request is answered by a binary search.

use vstd::prelude::*;

use crate::algorithms::compose::matchers::matcher::{
    matched_label, select_trs, tr_matches, MatchType, Matcher, MatcherFlags,
};
use crate::error::FstError;
use crate::fst_impls::{FstModel, VectorFst};
use crate::fst_properties::{fst_shape, fst_shape_upto, state_shape};
use crate::semirings::Semiring;
use crate::tr::Tr;
use crate::{Label, StateId, NO_LABEL};

verus! {

/// The transitions `trs` are in the order of their labels on the matched
/// side.
pub open spec fn sorted_by<W>(trs: Seq<Tr<W>>, match_type: MatchType) -> bool {
    forall|i: int, j: int|
        0 <= i <= j < trs.len() ==> matched_label(#[trigger] trs[i], match_type) <= matched_label(
            #[trigger] trs[j],
            match_type,
        )
}

/// The transitions of every state of `m` are in the order of their labels on
/// the matched side.
pub open spec fn fst_sorted_by<W>(m: FstModel<W>, match_type: MatchType) -> bool {
    forall|s: int| 0 <= s < m.states.len() ==> sorted_by((#[trigger] m.states[s]).trs, match_type)
}

/// Transitions of which each follows the one before are in order.
proof fn lemma_adjacent_sorted<W>(trs: Seq<Tr<W>>, match_type: MatchType, i: int, j: int)
    requires
        forall|k: int|
            0 < k < trs.len() ==> matched_label(trs[k - 1], match_type) <= matched_label(
                #[trigger] trs[k],
                match_type,
            ),
        0 <= i <= j < trs.len(),
    ensures
        matched_label(trs[i], match_type) <= matched_label(trs[j], match_type),
    decreases j - i,
{
    if i < j {
        lemma_adjacent_sorted(trs, match_type, i, j - 1);
    }
}

/// What the shape of a transducer says of all its states, it says of each.
proof fn lemma_shape_of_state<W: Semiring>(m: FstModel<W>, n: nat, s: int)
    requires
        0 <= s < n <= m.states.len(),
    ensures
        fst_shape_upto(m, n).i_label_sorted ==> state_shape(
            s as StateId,
            m.states[s],
        ).i_label_sorted,
        fst_shape_upto(m, n).o_label_sorted ==> state_shape(
            s as StateId,
            m.states[s],
        ).o_label_sorted,
    decreases n,
{
    if s < n - 1 {
        lemma_shape_of_state(m, (n - 1) as nat, s);
    }
}

/// A request finds a block of transitions if the transitions before the
/// block have smaller labels, those in it the label asked for, and those
/// after it greater labels.
proof fn lemma_select_block<W>(
    trs: Seq<Tr<W>>,
    match_type: MatchType,
    label: Label,
    lo: int,
    hi: int,
)
    requires
        label != NO_LABEL,
        0 <= lo <= hi <= trs.len(),
        forall|i: int| 0 <= i < lo ==> matched_label(#[trigger] trs[i], match_type) < label,
        forall|i: int| lo <= i < hi ==> matched_label(#[trigger] trs[i], match_type) == label,
        forall|i: int| hi <= i < trs.len() ==> matched_label(#[trigger] trs[i], match_type) > label,
    ensures
        select_trs(trs, match_type, label) == trs.subrange(lo, hi),
    decreases trs.len(),
{
    if trs.len() == 0 {
        assert(trs.subrange(lo, hi) =~= Seq::empty());
    } else {
        let init = trs.drop_last();
        let n = trs.len() as int;
        assert(forall|i: int| 0 <= i < n - 1 ==> init[i] == trs[i]);
        if hi == n && lo < n {
            lemma_select_block(init, match_type, label, lo, hi - 1);
            assert(trs.subrange(lo, hi) =~= init.subrange(lo, hi - 1).push(trs.last()));
        } else if hi == n {
            lemma_select_block(init, match_type, label, lo - 1, hi - 1);
            assert(matched_label(trs[n - 1], match_type) < label);
            assert(init.subrange(lo - 1, hi - 1) =~= Seq::empty());
            assert(trs.subrange(lo, hi) =~= Seq::empty());
        } else {
            lemma_select_block(init, match_type, label, lo, hi);
            assert(matched_label(trs[n - 1], match_type) > label);
            assert(trs.subrange(lo, hi) =~= init.subrange(lo, hi));
        }
    }
}

/// A matcher bound to a transducer that is sorted on the matched side.
pub struct SortedMatcher<'a, W: Semiring> {
    fst: &'a VectorFst<W>,
    match_type: MatchType,
}

impl<'a, W: Semiring> SortedMatcher<'a, W> {
    /// The validity of the matcher: it matches on one side, and the
    /// transducer is sorted on that side.
    pub closed spec fn valid(&self) -> bool {
        &&& self.fst.wf()
        &&& self.match_type == MatchType::MatchInput || self.match_type == MatchType::MatchOutput
        &&& fst_sorted_by(self.fst@, self.match_type)
    }

    /// The label of `tr` on the matched side.
    fn label_of(&self, tr: &Tr<W>) -> (l: Label)
        ensures
            l == matched_label(*tr, self.match_type),
    {
        match self.match_type {
            MatchType::MatchInput => tr.ilabel,
            _ => tr.olabel,
        }
    }

    /// The index of the first of `trs` whose label is not below `label`.
    fn lower_bound(&self, trs: &Vec<Tr<W>>, label: Label) -> (lo: usize)
        requires
            sorted_by(trs@, self.match_type),
        ensures
            lo <= trs@.len(),
            forall|i: int| 0 <= i < lo
                ==> matched_label(#[trigger] trs@[i], self.match_type) < label,
            forall|i: int|
                lo <= i < trs@.len() ==> matched_label(#[trigger] trs@[i], self.match_type)
                    >= label,
    {
        let mut lo: usize = 0;
        let mut hi: usize = trs.len();
        while lo < hi
            invariant
                lo <= hi <= trs@.len(),
                sorted_by(trs@, self.match_type),
                forall|i: int|
                    0 <= i < lo ==> matched_label(#[trigger] trs@[i], self.match_type) < label,
                forall|i: int|
                    hi <= i < trs@.len() ==> matched_label(#[trigger] trs@[i], self.match_type)
                        >= label,
            decreases hi - lo,
        {
            let mid = lo + (hi - lo) / 2;
            if self.label_of(&trs[mid]) < label {
                assert forall|i: int| 0 <= i < mid + 1 implies matched_label(
                    #[trigger] trs@[i],
                    self.match_type,
                ) < label by {
                    assert(matched_label(trs@[i], self.match_type) <= matched_label(
                        trs@[mid as int],
                        self.match_type,
                    ));
                }
                lo = mid + 1;
            } else {
                assert forall|i: int| mid <= i < trs@.len() implies matched_label(
                    #[trigger] trs@[i],
                    self.match_type,
                ) >= label by {
                    assert(matched_label(trs@[mid as int], self.match_type) <= matched_label(
                        trs@[i],
                        self.match_type,
                    ));
                }
                hi = mid;
            }
        }
        lo
    }
}

impl<'a, W: Semiring + 'a> Matcher<'a, W> for SortedMatcher<'a, W> {
    closed spec fn fst_spec(&self) -> FstModel<W> {
        self.fst@
    }

    /// The matcher is refused if `match_type` names no side, or if the
    /// transitions of the transducer are not sorted on that side.
    open spec fn new_spec(fst: FstModel<W>, match_type: MatchType) -> Option<FstError> {
        match match_type {
            MatchType::MatchInput => if fst_shape(fst).i_label_sorted {
                None
            } else {
                Some(FstError::PropertyViolation)
            },
            MatchType::MatchOutput => if fst_shape(fst).o_label_sorted {
                None
            } else {
                Some(FstError::PropertyViolation)
            },
            _ => Some(FstError::IncompatibleMatchType),
        }
    }

    fn new(fst: &'a VectorFst<W>, match_type: MatchType) -> (r: Result<Self, FstError>)
    {
        let shape = fst.shape();
        let sorted = match match_type {
            MatchType::MatchInput => shape.i_label_sorted,
            MatchType::MatchOutput => shape.o_label_sorted,
            _ => {
                return Err(FstError::IncompatibleMatchType);
            },
        };
        if !sorted {
            return Err(FstError::PropertyViolation);
        }
        proof {
            assert forall|s: int| 0 <= s < fst@.states.len() implies sorted_by(
                (#[trigger] fst@.states[s]).trs,
                match_type,
            ) by {
                lemma_shape_of_state(fst@, fst@.states.len(), s);
                let trs = fst@.states[s].trs;
                assert forall|i: int, j: int| 0 <= i <= j < trs.len() implies matched_label(
                    #[trigger] trs[i],
                    match_type,
                ) <= matched_label(#[trigger] trs[j], match_type) by {
                    lemma_adjacent_sorted(trs, match_type, i, j);
                }
            }
        }
        Ok(SortedMatcher { fst, match_type })
    }


    closed spec fn match_type_spec(&self) -> MatchType {
        self.match_type
    }

    closed spec fn inv(&self) -> bool {
        self.valid()
    }

    proof fn lemma_inv(&self) {
    }

    fn iter(&self, state: StateId, label: Label) -> (r: Result<Vec<Tr<W>>, FstError>) {
        if state >= self.fst.num_states() {
            return Err(FstError::InvalidState(state));
        }
        let trs = self.fst.trs(state);
        assert(sorted_by(self.fst@.states[state as int].trs, self.match_type));
        let mut found: Vec<Tr<W>> = Vec::new();
        if label == NO_LABEL {
            let mut i: usize = 0;
            while i < trs.len()
                invariant
                    i <= trs.len(),
                    found@ == trs@.take(i as int),
                decreases trs.len() - i,
            {
                found.push(trs[i]);
                i = i + 1;
                assert(found@ =~= trs@.take(i as int));
            }
            proof {
                assert(trs@.take(i as int) =~= trs@);
                crate::algorithms::compose::matchers::matcher::lemma_select_trs_exact(
                    trs@,
                    self.match_type,
                    label,
                );
            }
            return Ok(found);
        }
        let lo = self.lower_bound(trs, label);
        let mut hi = lo;
        while hi < trs.len() && self.label_of(&trs[hi]) == label
            invariant
                lo <= hi <= trs.len(),
                found@ == trs@.subrange(lo as int, hi as int),
                forall|i: int|
                    lo <= i < hi ==> matched_label(#[trigger] trs@[i], self.match_type) == label,
            decreases trs.len() - hi,
        {
            found.push(trs[hi]);
            hi = hi + 1;
            assert(found@ =~= trs@.subrange(lo as int, hi as int));
        }
        proof {
            assert forall|i: int| hi <= i < trs@.len() implies matched_label(
                #[trigger] trs@[i],
                self.match_type,
            ) > label by {
                assert(matched_label(trs@[hi as int], self.match_type) <= matched_label(
                    trs@[i],
                    self.match_type,
                ));
            }
            lemma_select_block(trs@, self.match_type, label, lo as int, hi as int);
        }
        Ok(found)
    }

    fn final_weight(&self, state: StateId) -> (r: Result<Option<W>, FstError>) {
        self.fst.final_weight(state)
    }

    fn match_type(&self) -> (t: MatchType) {
        self.match_type
    }

    open spec fn flags_spec() -> MatcherFlags {
        MatcherFlags { bits: 0 }
    }

    fn flags(&self) -> (f: MatcherFlags) {
        MatcherFlags::empty()
    }

    fn priority(&self, state: StateId) -> (r: Result<usize, FstError>) {
        self.fst.num_trs(state)
    }

    fn fst(&self) -> (fst: &'a VectorFst<W>) {
        self.fst
    }
}

} // verus!
