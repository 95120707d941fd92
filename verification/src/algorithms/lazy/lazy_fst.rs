//! A transducer that is computed on demand and remembers what it computed.

use vstd::prelude::*;

use crate::algorithms::lazy::cache::{CacheStatus, SimpleHashMapCache};
use crate::algorithms::lazy::fst_op::FstOp;
use crate::error::FstError;
use crate::fst_impls::{FstModel, StateModel, VectorFst, VectorFstState};
use crate::fst_properties::FstProperties;
use crate::semirings::Semiring;
use crate::tr::Tr;
use crate::StateId;

verus! {

/// A copy of `trs`.
pub fn copy_trs<W: Semiring>(trs: &Vec<Tr<W>>) -> (r: Vec<Tr<W>>)
    ensures
        r@ == trs@,
{
    let mut r: Vec<Tr<W>> = Vec::with_capacity(trs.len());
    let mut i: usize = 0;
    while i < trs.len()
        invariant
            i <= trs.len(),
            r@ == trs@.take(i as int),
        decreases trs.len() - i,
    {
        r.push(trs[i]);
        i = i + 1;
        assert(r@ =~= trs@.take(i as int));
    }
    assert(trs@.take(i as int) =~= trs@);
    r
}

/// `m` is what `op` computes, every known state expanded: the states of `m`
/// are the known states, each with the transitions and the final weight that
/// `op` computes for it. Without a start state `m` is empty.
pub open spec fn is_expansion<W: Semiring, Op: FstOp<W>>(op: Op, m: FstModel<W>) -> bool {
    if op.start_spec() is None {
        m == FstModel::<W>::empty()
    } else {
        &&& m.start == op.start_spec()
        &&& m.states.len() == op.num_known()
        &&& forall|id: StateId|
            id < op.num_known() ==> #[trigger] op.expanded(id) && m.states[id as int]
                == (StateModel { final_weight: op.final_weight_spec(id), trs: op.trs_spec(id) })
    }
}

/// A lazy transducer: an operation and the cache of its results. A query
/// changes the cache, so it takes the transducer by `&mut`.
pub struct LazyFst<W: Semiring, Op: FstOp<W>> {
    op: Op,
    cache: SimpleHashMapCache<W>,
}

impl<W: Semiring, Op: FstOp<W>> LazyFst<W, Op> {
    /// The operation as it stands.
    pub closed spec fn op(&self) -> Op {
        self.op
    }

    /// The validity of the transducer: the operation is valid and every
    /// filled slot of the cache holds what the operation computes.
    pub closed spec fn inv(&self) -> bool {
        &&& self.op.inv()
        &&& self.cache@.start matches Some(start) ==> start == self.op.start_spec() && (
        start matches Some(s) ==> s < self.op.num_known())
        &&& forall|id: StateId| #[trigger]
            self.cache@.trs.contains_key(id) ==> self.op.expanded(id) && self.cache@.trs[id]
                == self.op.trs_spec(id)
        &&& forall|id: StateId| #[trigger]
            self.cache@.final_weights.contains_key(id) ==> id < self.op.num_known()
                && self.cache@.final_weights[id] == self.op.final_weight_spec(id)
    }

    /// Whether the slot of the transitions of `id` is filled.
    pub closed spec fn cached_trs(&self, id: StateId) -> bool {
        self.cache@.trs.contains_key(id)
    }

    /// Whether the slot of the final weight of `id` is filled.
    pub closed spec fn cached_final_weight(&self, id: StateId) -> bool {
        self.cache@.final_weights.contains_key(id)
    }

    /// Whether the start slot is filled.
    pub closed spec fn cached_start(&self) -> bool {
        self.cache@.start is Some
    }

    /// `self` is `old` after some queries: the operation has gone on, and
    /// what was cached is cached.
    pub open spec fn after(&self, old: &Self) -> bool {
        &&& self.op().extends(&old.op())
        &&& old.cached_start() ==> self.cached_start()
        &&& forall|id: StateId| #[trigger] old.cached_trs(id) ==> self.cached_trs(id)
        &&& forall|id: StateId| #[trigger]
            old.cached_final_weight(id) ==> self.cached_final_weight(id)
    }

    /// The validity of the transducer implies that of the operation.
    pub proof fn lemma_inv(&self)
        requires
            self.inv(),
        ensures
            self.op().inv(),
    {
    }

    /// The lazy transducer of `op`, with nothing computed yet.
    pub fn new(op: Op) -> (fst: Self)
        requires
            op.inv(),
        ensures
            fst.inv(),
            fst.op() == op,
    {
        LazyFst { op, cache: SimpleHashMapCache::new() }
    }

    /// The operation.
    pub fn op_ref(&self) -> (op: &Op)
        ensures
            *op == self.op(),
    {
        &self.op
    }

    /// What is known of the shape of the transducer.
    pub fn properties(&self) -> (p: FstProperties)
        requires
            self.inv(),
        ensures
            p == self.op().properties_spec(),
    {
        self.op.properties()
    }

    /// How many states are known.
    pub fn num_known_states(&self) -> (n: usize)
        requires
            self.inv(),
        ensures
            n == self.op().num_known(),
    {
        self.op.num_states()
    }

    /// The start state: from the cache, or computed and then cached.
    pub fn start(&mut self) -> (r: Result<Option<StateId>, FstError>)
        requires
            old(self).inv(),
        ensures
            final(self).inv(),
            final(self).after(old(self)),
            final(self).cached_start(),
            r == Ok::<Option<StateId>, FstError>(old(self).op().start_spec()),
            r matches Ok(Some(s)) ==> s < final(self).op().num_known(),
    {
        proof {
            self.op.lemma_extends_reflexive();
        }
        match self.cache.get_start() {
            CacheStatus::Computed(start) => Ok(start),
            CacheStatus::NotComputed => {
                let ghost before = self.op;
                let start = self.op.compute_start()?;
                proof {
                    self.op.lemma_extends(&before);
                    assert forall|other: StateId| #[trigger]
                        self.cache@.trs.contains_key(other) implies self.op.expanded(other)
                        && self.cache@.trs[other] == self.op.trs_spec(other) by {
                        assert(before.expanded(other));
                    }
                    assert forall|other: StateId| #[trigger]
                        self.cache@.final_weights.contains_key(other) implies other
                        < self.op.num_known() && self.cache@.final_weights[other]
                        == self.op.final_weight_spec(other) by {
                        assert(other < before.num_known());
                    }
                }
                self.cache.insert_start(start);
                Ok(start)
            },
        }
    }

    /// The transitions of `id`: from the cache, or computed and then cached.
    /// A state that is not known is refused, and nothing is cached for it.
    pub fn get_trs(&mut self, id: StateId) -> (r: Result<Vec<Tr<W>>, FstError>)
        requires
            old(self).inv(),
        ensures
            final(self).inv(),
            final(self).after(old(self)),
            id < old(self).op().num_known()
                ==> r is Ok && final(self).cached_trs(id) && final(self).op().expanded(id)
                && r->Ok_0@ == final(self).op().trs_spec(id),
            id >= old(self).op().num_known() ==> r == Err::<Vec<Tr<W>>, FstError>(
                FstError::InvalidState(id),
            ) && (forall|other: StateId| #[trigger]
                final(self).cached_trs(other) ==> old(self).cached_trs(other)),
    {
        proof {
            self.op.lemma_extends_reflexive();
            self.op.lemma_inv();
        }
        if let CacheStatus::Computed(trs) = self.cache.get_trs(id) {
            return Ok(copy_trs(trs));
        }
        let ghost before = self.op;
        let computed = self.op.compute_trs(id);
        proof {
            self.op.lemma_extends(&before);
            assert forall|other: StateId| #[trigger]
                self.cache@.trs.contains_key(other) implies self.op.expanded(other)
                && self.cache@.trs[other] == self.op.trs_spec(other) by {
                assert(before.expanded(other));
            }
            assert forall|other: StateId| #[trigger]
                self.cache@.final_weights.contains_key(other) implies other < self.op.num_known()
                && self.cache@.final_weights[other] == self.op.final_weight_spec(other) by {
                assert(other < before.num_known());
            }
        }
        let trs = computed?;
        self.cache.insert_trs(id, copy_trs(&trs));
        Ok(trs)
    }

    /// How many transitions `id` has.
    pub fn num_trs(&mut self, id: StateId) -> (r: Result<usize, FstError>)
        requires
            old(self).inv(),
        ensures
            final(self).inv(),
            final(self).after(old(self)),
            id < old(self).op().num_known() ==> r is Ok && final(self).op().expanded(id)
                && r->Ok_0 == final(self).op().trs_spec(id).len(),
            id >= old(self).op().num_known() ==> r == Err::<usize, FstError>(
                FstError::InvalidState(id),
            ),
    {
        proof {
            self.op.lemma_extends_reflexive();
            self.op.lemma_inv();
        }
        if let Some(n) = self.cache.num_trs(id) {
            return Ok(n);
        }
        let trs = self.get_trs(id)?;
        Ok(trs.len())
    }

    /// Turns the lazy transducer into a static one: expands the known states
    /// in the order of their ids, which makes known the states that they
    /// lead to, until every known state is expanded.
    pub fn compute(&mut self) -> (r: Result<VectorFst<W>, FstError>)
        requires
            old(self).inv(),
        ensures
            final(self).inv(),
            final(self).after(old(self)),
            r is Ok,
            r->Ok_0.wf(),
            is_expansion(final(self).op(), r->Ok_0@),
    {
        let ghost op0 = self.op;
        let start = self.start()?;
        proof {
            self.op.lemma_extends(&op0);
        }
        if start.is_none() {
            return Ok(VectorFst::new());
        }
        let mut states: Vec<VectorFstState<W>> = Vec::new();
        let mut id: usize = 0;
        proof {
            self.op.lemma_inv();
        }
        while id < self.op.num_states()
            invariant
                self.inv(),
                self.after(old(self)),
                start == self.op.start_spec(),
                start matches Some(s) && s < self.op.num_known(),
                states@.len() == id,
                id <= self.op.num_known() <= self.op.max_states(),
                forall|j: StateId|
                    j < id ==> #[trigger] self.op.expanded(j) && states@[j as int]@
                        == (StateModel {
                        final_weight: self.op.final_weight_spec(j),
                        trs: self.op.trs_spec(j),
                    }),
            decreases self.op.max_states() - id,
        {
            let ghost op1 = self.op;
            let trs = self.get_trs(id)?;
            let ghost op2 = self.op;
            proof {
                op2.lemma_extends(&op1);
                op2.lemma_extends_transitive(&op1, &old(self).op);
            }
            let final_weight = self.final_weight(id)?;
            proof {
                self.op.lemma_extends(&op2);
                self.op.lemma_inv();
                self.op.lemma_extends_transitive(&op2, &old(self).op);
                self.op.lemma_extends_transitive(&op2, &op1);
                self.op.lemma_extends(&op1);
            }
            let ghost before_states = states@;
            states.push(VectorFstState { final_weight, trs });
            id = id + 1;
            assert forall|j: StateId| j < id implies #[trigger] self.op.expanded(j)
                && states@[j as int]@
                == (StateModel {
                final_weight: self.op.final_weight_spec(j),
                trs: self.op.trs_spec(j),
            }) by {
                if j < id - 1 {
                    assert(op1.expanded(j));
                    assert(self.op.expanded(j));
                    assert(self.op.trs_spec(j) == op1.trs_spec(j));
                    assert(self.op.final_weight_spec(j) == op1.final_weight_spec(j));
                    assert(states@[j as int] == before_states[j as int]);
                } else {
                    assert(op2.expanded(j));
                    assert(self.op.expanded(j));
                    assert(trs@ == op2.trs_spec(j));
                    assert(self.op.trs_spec(j) == op2.trs_spec(j));
                    assert(final_weight == op2.final_weight_spec(j));
                    assert(self.op.final_weight_spec(j) == op2.final_weight_spec(j));
                    assert(states@[j as int]@ == (StateModel { final_weight, trs: trs@ }));
                }
            }
        }
        let ghost models = crate::fst_impls::vector_fst::state_models(states@);
        assert(id == self.op.num_known());
        proof {
            self.op.lemma_inv();
            let m = FstModel { start, states: models };
            assert forall|k: StateId| k < self.op.num_known() implies #[trigger]
                self.op.expanded(k) && models[k as int] == (StateModel {
                final_weight: self.op.final_weight_spec(k),
                trs: self.op.trs_spec(k),
            }) by {
                assert(k < id);
                assert(self.op.expanded(k));
                assert(models[k as int] == states@[k as int]@);
            }
            assert forall|s: int, i: int|
                0 <= s < m.states.len() && 0 <= i < m.states[s].trs.len() implies m.has_state(
                (#[trigger] m.states[s].trs[i]).nextstate,
            ) by {
                assert(self.op.expanded(s as StateId));
                assert(m.states[s].trs[i] == self.op.trs_spec(s as StateId)[i]);
            }
            assert(m.wf());
        }
        match VectorFst::from_parts(states, start) {
            Ok(fst) => {
                assert(fst@.states == models);
                Ok(fst)
            },
            Err(e) => Err(e),
        }
    }

    /// The final weight of `id`: from the cache, or computed and then
    /// cached.
    pub fn final_weight(&mut self, id: StateId) -> (r: Result<Option<W>, FstError>)
        requires
            old(self).inv(),
        ensures
            final(self).inv(),
            final(self).after(old(self)),
            id < old(self).op().num_known() ==> final(self).cached_final_weight(id) && r == Ok::<
                Option<W>,
                FstError,
            >(old(self).op().final_weight_spec(id)),
            id >= old(self).op().num_known() ==> r == Err::<Option<W>, FstError>(
                FstError::InvalidState(id),
            ),
    {
        proof {
            self.op.lemma_extends_reflexive();
            self.op.lemma_inv();
        }
        if let CacheStatus::Computed(weight) = self.cache.get_final_weight(id) {
            return Ok(weight);
        }
        let ghost before = self.op;
        let computed = self.op.compute_final_weight(id);
        proof {
            self.op.lemma_extends(&before);
            assert forall|other: StateId| #[trigger]
                self.cache@.trs.contains_key(other) implies self.op.expanded(other)
                && self.cache@.trs[other] == self.op.trs_spec(other) by {
                assert(before.expanded(other));
            }
            assert forall|other: StateId| #[trigger]
                self.cache@.final_weights.contains_key(other) implies other < self.op.num_known()
                && self.cache@.final_weights[other] == self.op.final_weight_spec(other) by {
                assert(other < before.num_known());
            }
        }
        let weight = computed?;
        self.cache.insert_final_weight(id, weight);
        Ok(weight)
    }
}

} // verus!
