//! The union of two transducers, computed on demand.

use vstd::prelude::*;

use crate::algorithms::lazy::{is_expansion, FstOp, LazyFst};
use crate::error::FstError;
use crate::fst_impls::{FstModel, StateModel, VectorFst};
use crate::fst_properties::{
    properties_spec, FstProperties, ACCEPTOR, ACCESSIBLE, ACYCLIC, ERROR, INITIAL_ACYCLIC,
    UNWEIGHTED,
};
use crate::semirings::Semiring;
use crate::tr::Tr;
use crate::{StateId, EPS_LABEL};

verus! {

/// What is known of a union from what is known of its two operands: the
/// union is an acceptor, unweighted, without cycle, and made of states that
/// can be reached, where both operands are; and no path leads back to its
/// start state.
pub open spec fn union_properties_spec(inprops1: u64, inprops2: u64) -> u64 {
    ((ACCEPTOR | UNWEIGHTED | ACYCLIC | ACCESSIBLE) & inprops1 & inprops2) | (ERROR & (inprops1
        | inprops2)) | INITIAL_ACYCLIC
}

/// What is known of a union from what is known of its two operands.
pub fn union_properties(inprops1: FstProperties, inprops2: FstProperties) -> (p: FstProperties)
    ensures
        p.bits == union_properties_spec(inprops1.bits, inprops2.bits),
{
    FstProperties::from_bits(
        ((ACCEPTOR | UNWEIGHTED | ACYCLIC | ACCESSIBLE) & inprops1.bits & inprops2.bits) | (ERROR
            & (inprops1.bits | inprops2.bits)) | INITIAL_ACYCLIC,
    )
}

/// The transitions `trs`, each led to its target moved up by `offset`.
pub open spec fn shifted<W>(trs: Seq<Tr<W>>, offset: int) -> Seq<Tr<W>> {
    Seq::new(
        trs.len(),
        |i: int|
            Tr {
                ilabel: trs[i].ilabel,
                olabel: trs[i].olabel,
                weight: trs[i].weight,
                nextstate: (trs[i].nextstate + offset) as StateId,
            },
    )
}

/// The transition into an operand whose states are moved up by `offset`, if
/// the operand has a start state: on the empty string, of weight one, to
/// that start state.
pub open spec fn entry<W: Semiring>(start: Option<StateId>, offset: int) -> Seq<Tr<W>> {
    match start {
        Some(s) => seq![
            Tr {
                ilabel: EPS_LABEL,
                olabel: EPS_LABEL,
                weight: W::one_spec(),
                nextstate: (s + offset) as StateId,
            },
        ],
        None => Seq::empty(),
    }
}

/// The transitions of a state of an operand whose states are moved up by
/// `offset`: if the state is final, one on the empty string to the state 1,
/// with the final weight; then its own.
pub open spec fn inner<W>(state: StateModel<W>, offset: int) -> Seq<Tr<W>> {
    (match state.final_weight {
        Some(w) => seq![Tr { ilabel: EPS_LABEL, olabel: EPS_LABEL, weight: w, nextstate: 1 }],
        None => Seq::empty(),
    }) + shifted(state.trs, offset)
}

/// The transitions of the state `id` of the union of `fst1` and `fst2`.
///
/// The state 0 is the start state and leads into both operands; the state 1
/// is the final state; then come the states of `fst1`, and then those of
/// `fst2`.
pub open spec fn union_trs<W: Semiring>(fst1: FstModel<W>, fst2: FstModel<W>, id: StateId) -> Seq<
    Tr<W>,
> {
    let n1 = fst1.states.len() as int;
    if id == 0 {
        entry::<W>(fst1.start, 2) + entry::<W>(fst2.start, 2 + n1)
    } else if id == 1 {
        Seq::empty()
    } else if id < 2 + n1 {
        inner(fst1.states[id - 2], 2)
    } else {
        inner(fst2.states[id - 2 - n1], 2 + n1)
    }
}

/// The operation that computes the union of two transducers.
pub struct UnionFstOp<W: Semiring> {
    fst1: VectorFst<W>,
    fst2: VectorFst<W>,
    properties: FstProperties,
}

impl<W: Semiring> UnionFstOp<W> {
    /// The first transducer.
    pub closed spec fn fst1(&self) -> FstModel<W> {
        self.fst1@
    }

    /// The second transducer.
    pub closed spec fn fst2(&self) -> FstModel<W> {
        self.fst2@
    }

    /// The validity of the operation: the states of the union can be
    /// counted.
    pub closed spec fn valid(&self) -> bool {
        &&& self.fst1.wf()
        &&& self.fst2.wf()
        &&& 2 + self.fst1@.states.len() + self.fst2@.states.len() <= usize::MAX
    }

    /// Copies the transitions `trs`, each led to its target moved up by
    /// `offset`, behind `out`.
    fn push_shifted(out: &mut Vec<Tr<W>>, trs: &Vec<Tr<W>>, offset: usize)
        requires
            forall|i: int| 0 <= i < trs@.len() ==> (#[trigger] trs@[i]).nextstate + offset
                <= usize::MAX,
        ensures
            final(out)@ == old(out)@ + shifted(trs@, offset as int),
    {
        let mut i: usize = 0;
        while i < trs.len()
            invariant
                i <= trs.len(),
                forall|k: int| 0 <= k < trs@.len() ==> (#[trigger] trs@[k]).nextstate + offset
                    <= usize::MAX,
                out@ == old(out)@ + shifted(trs@.take(i as int), offset as int),
            decreases trs.len() - i,
        {
            let tr = trs[i];
            out.push(Tr::new(tr.ilabel, tr.olabel, tr.weight, tr.nextstate + offset));
            i = i + 1;
            assert(out@ =~= old(out)@ + shifted(trs@.take(i as int), offset as int));
        }
        assert(trs@.take(i as int) =~= trs@);
    }

    /// The transitions of a state of the operand `fst` whose states are
    /// moved up by `offset`.
    fn inner_trs(fst: &VectorFst<W>, s: StateId, offset: usize) -> (r: Vec<Tr<W>>)
        requires
            fst.wf(),
            fst@.has_state(s),
            fst@.states.len() + offset <= usize::MAX,
        ensures
            r@ == inner(fst@.states[s as int], offset as int),
    {
        let mut out: Vec<Tr<W>> = Vec::new();
        if let Ok(Some(w)) = fst.final_weight(s) {
            out.push(Tr::new(EPS_LABEL, EPS_LABEL, w, 1));
        }
        let ghost head = out@;
        let trs = fst.trs(s);
        assert forall|i: int| 0 <= i < trs@.len() implies (#[trigger] trs@[i]).nextstate + offset
            <= usize::MAX by {
            assert(fst@.has_state(fst@.states[s as int].trs[i].nextstate));
        }
        Self::push_shifted(&mut out, trs, offset);
        assert(out@ =~= inner(fst@.states[s as int], offset as int));
        out
    }
}

impl<W: Semiring> FstOp<W> for UnionFstOp<W> {
    closed spec fn inv(&self) -> bool {
        self.valid()
    }

    /// Every state of the union is known from the beginning.
    open spec fn num_known(&self) -> nat {
        2 + self.fst1().states.len() + self.fst2().states.len()
    }

    open spec fn max_states(&self) -> nat {
        self.num_known()
    }

    /// Nothing is learnt by a call: the operation stays as it is.
    open spec fn extends(&self, old: &Self) -> bool {
        *self == *old
    }

    closed spec fn properties_spec(&self) -> FstProperties {
        self.properties
    }

    open spec fn start_spec(&self) -> Option<StateId> {
        Some(0)
    }

    open spec fn expanded(&self, id: StateId) -> bool {
        id < self.num_known()
    }

    open spec fn trs_spec(&self, id: StateId) -> Seq<Tr<W>> {
        union_trs(self.fst1(), self.fst2(), id)
    }

    /// The state 1 is final, with the weight one, and no other state is.
    open spec fn final_weight_spec(&self, id: StateId) -> Option<W> {
        if id == 1 {
            Some(W::one_spec())
        } else {
            None
        }
    }

    proof fn lemma_inv(&self) {
        let n1 = self.fst1@.states.len();
        assert forall|id: StateId, i: int|
            self.expanded(id) && 0 <= i < self.trs_spec(id).len() implies (
        #[trigger] self.trs_spec(id)[i]).nextstate < self.num_known() by {
            if 2 <= id < 2 + n1 {
                let state = self.fst1@.states[id - 2];
                if state.final_weight is Some && i > 0 {
                    assert(self.fst1@.has_state(self.fst1@.states[id - 2].trs[i - 1].nextstate));
                } else if state.final_weight is None {
                    assert(self.fst1@.has_state(self.fst1@.states[id - 2].trs[i].nextstate));
                }
            } else if id >= 2 + n1 {
                let state = self.fst2@.states[id - 2 - n1];
                if state.final_weight is Some && i > 0 {
                    assert(self.fst2@.has_state(
                        self.fst2@.states[id - 2 - n1].trs[i - 1].nextstate,
                    ));
                } else if state.final_weight is None {
                    assert(self.fst2@.has_state(self.fst2@.states[id - 2 - n1].trs[i].nextstate));
                }
            }
        }
    }

    proof fn lemma_extends(&self, old: &Self) {
    }

    proof fn lemma_extends_reflexive(&self) {
    }

    proof fn lemma_extends_transitive(&self, mid: &Self, old: &Self) {
    }

    fn compute_start(&mut self) -> (r: Result<Option<StateId>, FstError>) {
        Ok(Some(0))
    }

    fn compute_trs(&mut self, id: StateId) -> (r: Result<Vec<Tr<W>>, FstError>) {
        let n1 = self.fst1.num_states();
        let n2 = self.fst2.num_states();
        if id >= 2 + n1 + n2 {
            return Err(FstError::InvalidState(id));
        }
        if id == 0 {
            let mut out: Vec<Tr<W>> = Vec::new();
            if let Some(s) = self.fst1.start() {
                out.push(Tr::new(EPS_LABEL, EPS_LABEL, W::one(), s + 2));
            }
            if let Some(s) = self.fst2.start() {
                out.push(Tr::new(EPS_LABEL, EPS_LABEL, W::one(), s + 2 + n1));
            }
            assert(out@ =~= union_trs(self.fst1@, self.fst2@, id));
            Ok(out)
        } else if id == 1 {
            Ok(Vec::new())
        } else if id < 2 + n1 {
            Ok(Self::inner_trs(&self.fst1, id - 2, 2))
        } else {
            Ok(Self::inner_trs(&self.fst2, id - 2 - n1, 2 + n1))
        }
    }

    fn compute_final_weight(&mut self, id: StateId) -> (r: Result<Option<W>, FstError>) {
        if id >= 2 + self.fst1.num_states() + self.fst2.num_states() {
            return Err(FstError::InvalidState(id));
        }
        if id == 1 {
            Ok(Some(W::one()))
        } else {
            Ok(None)
        }
    }

    fn num_states(&self) -> (n: usize) {
        2 + self.fst1.num_states() + self.fst2.num_states()
    }

    fn properties(&self) -> (p: FstProperties) {
        self.properties
    }
}

/// Computes the union (sum) of two FSTs. This version is a delayed FST. If A
/// transduces string x to y with weight a and B transduces string w to v with
/// weight b, then their union transduces x to y with weight a and w to v with
/// weight b.
pub struct UnionFst<W: Semiring> {
    lazy: LazyFst<W, UnionFstOp<W>>,
}

impl<W: Semiring> UnionFst<W> {
    /// The operation behind the union.
    pub closed spec fn op(&self) -> UnionFstOp<W> {
        self.lazy.op()
    }

    /// The validity of the union.
    pub closed spec fn inv(&self) -> bool {
        self.lazy.inv()
    }

    /// The union of `fst1` and `fst2`. It is refused if the two have more
    /// states together than can be counted.
    pub fn new(fst1: VectorFst<W>, fst2: VectorFst<W>) -> (r: Result<Self, FstError>)
        requires
            fst1.wf(),
            fst2.wf(),
        ensures
            2 + fst1@.states.len() + fst2@.states.len() <= usize::MAX ==> r is Ok && r->Ok_0.inv()
                && r->Ok_0.op().fst1() == fst1@ && r->Ok_0.op().fst2() == fst2@
                && r->Ok_0.op().properties_spec().bits == union_properties_spec(
                properties_spec(fst1@),
                properties_spec(fst2@),
            ),
            2 + fst1@.states.len() + fst2@.states.len() > usize::MAX ==> r == Err::<
                Self,
                FstError,
            >(FstError::InvalidState(usize::MAX)),
    {
        let props1 = fst1.properties();
        let props2 = fst2.properties();
        let n1 = fst1.num_states();
        let n2 = fst2.num_states();
        if n1 > usize::MAX - 2 || n2 > usize::MAX - 2 - n1 {
            return Err(FstError::InvalidState(usize::MAX));
        }
        let properties = union_properties(props1, props2);
        Ok(UnionFst { lazy: LazyFst::new(UnionFstOp { fst1, fst2, properties }) })
    }

    /// Turns the Lazy FST into a static one.
    pub fn compute(&mut self) -> (r: Result<VectorFst<W>, FstError>)
        requires
            old(self).inv(),
        ensures
            final(self).inv(),
            final(self).op().extends(&old(self).op()),
            r is Ok,
            r->Ok_0.wf(),
            is_expansion(old(self).op(), r->Ok_0@),
    {
        let r = self.lazy.compute();
        proof {
            self.lazy.lemma_inv();
        }
        r
    }

    /// The start state: the state 0.
    pub fn start(&mut self) -> (r: Option<StateId>)
        requires
            old(self).inv(),
        ensures
            final(self).inv(),
            final(self).op().extends(&old(self).op()),
            r == Some(0usize),
    {
        match self.lazy.start() {
            Ok(start) => start,
            Err(_) => None,
        }
    }

    pub fn final_weight(&mut self, state_id: StateId) -> (r: Result<Option<W>, FstError>)
        requires
            old(self).inv(),
        ensures
            final(self).inv(),
            final(self).op().extends(&old(self).op()),
            state_id < old(self).op().num_known() ==> r == Ok::<Option<W>, FstError>(
                old(self).op().final_weight_spec(state_id),
            ),
            state_id >= old(self).op().num_known() ==> r == Err::<Option<W>, FstError>(
                FstError::InvalidState(state_id),
            ),
    {
        self.lazy.final_weight(state_id)
    }

    pub fn num_trs(&mut self, s: StateId) -> (r: Result<usize, FstError>)
        requires
            old(self).inv(),
        ensures
            final(self).inv(),
            final(self).op().extends(&old(self).op()),
            s < old(self).op().num_known() ==> r is Ok && r->Ok_0 == old(self).op().trs_spec(
                s,
            ).len(),
            s >= old(self).op().num_known() ==> r == Err::<usize, FstError>(
                FstError::InvalidState(s),
            ),
    {
        self.lazy.num_trs(s)
    }

    pub fn get_trs(&mut self, state_id: StateId) -> (r: Result<Vec<Tr<W>>, FstError>)
        requires
            old(self).inv(),
        ensures
            final(self).inv(),
            final(self).op().extends(&old(self).op()),
            state_id < old(self).op().num_known()
                ==> r is Ok && r->Ok_0@ == old(self).op().trs_spec(state_id),
            state_id >= old(self).op().num_known() ==> r == Err::<Vec<Tr<W>>, FstError>(
                FstError::InvalidState(state_id),
            ),
    {
        self.lazy.get_trs(state_id)
    }

    pub fn properties(&self) -> (p: FstProperties)
        requires
            self.inv(),
        ensures
            p == self.op().properties_spec(),
    {
        self.lazy.properties()
    }

    /// How many states the union has.
    pub fn num_states(&self) -> (n: usize)
        requires
            self.inv(),
        ensures
            n == self.op().num_known(),
    {
        self.lazy.num_known_states()
    }
}

} // verus!
