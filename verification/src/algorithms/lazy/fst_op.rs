//! What a lazy transducer computes.

use vstd::prelude::*;

use crate::error::FstError;
use crate::fst_properties::FstProperties;
use crate::semirings::Semiring;
use crate::tr::Tr;
use crate::StateId;

verus! {

/// The operation behind a lazy transducer: it computes the start state, and
/// the transitions and the final weight of a state, when it is asked to.
///
/// The states that are known are those with an id below `num_known`: a call
/// may make more states known, and never changes what was computed before.
/// The specification functions say what a call returns; `extends` relates
/// the operation after some calls to the operation before them.
pub trait FstOp<W: Semiring>: Sized {
    /// The validity of the operation.
    spec fn inv(&self) -> bool;

    /// How many states are known.
    spec fn num_known(&self) -> nat;

    /// How many states can ever become known.
    spec fn max_states(&self) -> nat;

    /// `self` is `old` after some calls.
    spec fn extends(&self, old: &Self) -> bool;

    /// The start state.
    spec fn start_spec(&self) -> Option<StateId>;

    /// Whether every state that a transition of `id` leads to is known.
    spec fn expanded(&self, id: StateId) -> bool;

    /// The transitions of `id`, where `id` is expanded.
    spec fn trs_spec(&self, id: StateId) -> Seq<Tr<W>>;

    /// The final weight of `id`, where `id` is known.
    spec fn final_weight_spec(&self, id: StateId) -> Option<W>;

    /// What is known of the shape of the transducer.
    spec fn properties_spec(&self) -> FstProperties;

    /// No more states are known than can be, and the transitions of an
    /// expanded state lead to known states.
    proof fn lemma_inv(&self)
        requires
            self.inv(),
        ensures
            self.num_known() <= self.max_states(),
            forall|id: StateId| #[trigger] self.expanded(id) ==> id < self.num_known(),
            forall|id: StateId, i: int|
                self.expanded(id) && 0 <= i < self.trs_spec(id).len() ==> (
                #[trigger] self.trs_spec(id)[i]).nextstate < self.num_known(),
    ;

    /// What is known stays known, and as it was.
    proof fn lemma_extends(&self, old: &Self)
        requires
            old.inv(),
            self.inv(),
            self.extends(old),
        ensures
            old.num_known() <= self.num_known(),
            self.max_states() == old.max_states(),
            self.start_spec() == old.start_spec(),
            self.properties_spec() == old.properties_spec(),
            forall|id: StateId|
                id < old.num_known() ==> #[trigger] self.final_weight_spec(id)
                    == old.final_weight_spec(id),
            forall|id: StateId|
                old.expanded(id) ==> #[trigger] self.expanded(id) && self.trs_spec(id)
                    == old.trs_spec(id),
    ;

    proof fn lemma_extends_reflexive(&self)
        ensures
            self.extends(self),
    ;

    proof fn lemma_extends_transitive(&self, mid: &Self, old: &Self)
        requires
            self.extends(mid),
            mid.extends(old),
        ensures
            self.extends(old),
    ;

    fn compute_start(&mut self) -> (r: Result<Option<StateId>, FstError>)
        requires
            old(self).inv(),
        ensures
            final(self).inv(),
            final(self).extends(old(self)),
            r == Ok::<Option<StateId>, FstError>(old(self).start_spec()),
            r matches Ok(Some(s)) ==> s < final(self).num_known(),
    ;

    fn compute_trs(&mut self, id: StateId) -> (r: Result<Vec<Tr<W>>, FstError>)
        requires
            old(self).inv(),
        ensures
            final(self).inv(),
            final(self).extends(old(self)),
            id < old(self).num_known() ==> r is Ok && final(self).expanded(id) && r->Ok_0@
                == final(self).trs_spec(id),
            id >= old(self).num_known() ==> r == Err::<Vec<Tr<W>>, FstError>(
                FstError::InvalidState(id),
            ),
    ;

    fn compute_final_weight(&mut self, id: StateId) -> (r: Result<Option<W>, FstError>)
        requires
            old(self).inv(),
        ensures
            final(self).inv(),
            final(self).extends(old(self)),
            id < old(self).num_known() ==> r == Ok::<Option<W>, FstError>(
                old(self).final_weight_spec(id),
            ),
            id >= old(self).num_known() ==> r == Err::<Option<W>, FstError>(
                FstError::InvalidState(id),
            ),
    ;

    /// How many states are known.
    fn num_states(&self) -> (n: usize)
        requires
            self.inv(),
        ensures
            n == self.num_known(),
    ;

    /// What is known of the shape of the transducer, computed at
    /// construction time.
    fn properties(&self) -> (p: FstProperties)
        requires
            self.inv(),
        ensures
            p == self.properties_spec(),
    ;
}

} // verus!
