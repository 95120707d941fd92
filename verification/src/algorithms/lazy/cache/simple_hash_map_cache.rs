//! The default cache of a lazy transducer: hash maps keyed by the state.

use std::collections::HashMap;
use vstd::prelude::*;

use crate::algorithms::lazy::cache::cache_internal_types::{
    CacheStatus, CachedData, FinalWeight, StartState,
};
use crate::semirings::Semiring;
use crate::tr::Tr;
use crate::StateId;

verus! {

broadcast use vstd::std_specs::hash::group_hash_axioms;

/// What a cache holds: the start state if it is known, and for some states
/// their transitions and their final weight. What was put into a slot stays
/// there.
pub ghost struct CacheModel<W> {
    pub start: Option<Option<StateId>>,
    pub trs: Map<StateId, Seq<Tr<W>>>,
    pub final_weights: Map<StateId, Option<W>>,
}

/// A cache that never forgets.
pub struct SimpleHashMapCache<W> {
    start: CachedData<CacheStatus<StartState>>,
    trs: CachedData<HashMap<StateId, Vec<Tr<W>>>>,
    final_weights: CachedData<HashMap<StateId, FinalWeight<W>>>,
}

impl<W> View for SimpleHashMapCache<W> {
    type V = CacheModel<W>;

    closed spec fn view(&self) -> CacheModel<W> {
        CacheModel {
            start: match self.start.data {
                CacheStatus::Computed(s) => Some(s),
                CacheStatus::NotComputed => None,
            },
            trs: self.trs.data@.map_values(|v: Vec<Tr<W>>| v@),
            final_weights: self.final_weights.data@,
        }
    }
}

impl<W: Semiring> SimpleHashMapCache<W> {
    /// The cache with every slot empty.
    pub fn new() -> (cache: Self)
        ensures
            cache@ == (CacheModel::<W> {
                start: None,
                trs: Map::empty(),
                final_weights: Map::empty(),
            }),
    {
        let cache = SimpleHashMapCache {
            start: CachedData::<CacheStatus<StartState>>::default(),
            trs: CachedData::<HashMap<StateId, Vec<Tr<W>>>>::default(),
            final_weights: CachedData::<HashMap<StateId, FinalWeight<W>>>::default(),
        };
        assert(cache@.trs =~= Map::empty());
        cache
    }

    /// The start slot.
    pub fn get_start(&self) -> (r: CacheStatus<StartState>)
        ensures
            match self@.start {
                Some(s) => r == CacheStatus::Computed(s),
                None => r is NotComputed,
            },
    {
        match self.start.data {
            CacheStatus::Computed(s) => CacheStatus::Computed(s),
            CacheStatus::NotComputed => CacheStatus::NotComputed,
        }
    }

    /// Fills the start slot.
    pub fn insert_start(&mut self, start: StartState)
        ensures
            final(self)@ == (CacheModel { start: Some(start), ..old(self)@ }),
            final(self).num_known() >= old(self).num_known(),
            start matches Some(s) ==> s < usize::MAX ==> final(self).num_known() > s,
    {
        if let Some(s) = start {
            if s < usize::MAX && self.start.num_known_states < s + 1 {
                self.start.num_known_states = s + 1;
            }
        }
        self.start.data = CacheStatus::Computed(start);
    }

    /// The transitions of `id`, if their slot is filled.
    pub fn get_trs(&self, id: StateId) -> (r: CacheStatus<&Vec<Tr<W>>>)
        ensures
            self@.trs.contains_key(id) ==> r is Computed && r->Computed_0@ == self@.trs[id],
            !self@.trs.contains_key(id) ==> r is NotComputed,
    {
        match self.trs.data.get(&id) {
            Some(trs) => CacheStatus::Computed(trs),
            None => CacheStatus::NotComputed,
        }
    }

    /// Fills the slot of the transitions of `id`.
    pub fn insert_trs(&mut self, id: StateId, trs: Vec<Tr<W>>)
        ensures
            final(self)@ == (CacheModel { trs: old(self)@.trs.insert(id, trs@), ..old(self)@ }),
            final(self).num_known() >= old(self).num_known(),
            id < usize::MAX ==> final(self).num_known() > id,
            forall|i: int|
                0 <= i < trs@.len() && (#[trigger] trs@[i]).nextstate < usize::MAX
                    ==> final(self).num_known() > trs@[i].nextstate,
    {
        let mut n = self.trs.num_known_states;
        if id < usize::MAX && n < id + 1 {
            n = id + 1;
        }
        let mut i: usize = 0;
        while i < trs.len()
            invariant
                i <= trs.len(),
                n >= self.trs.num_known_states,
                id < usize::MAX ==> n > id,
                forall|k: int|
                    0 <= k < i && (#[trigger] trs@[k]).nextstate < usize::MAX ==> n
                        > trs@[k].nextstate,
            decreases trs.len() - i,
        {
            let next = trs[i].nextstate;
            if next < usize::MAX && n < next + 1 {
                n = next + 1;
            }
            i = i + 1;
        }
        self.trs.num_known_states = n;
        self.trs.data.insert(id, trs);
        assert(self@.trs =~= old(self)@.trs.insert(id, trs@));
    }

    /// How many transitions `id` has, if their slot is filled.
    pub fn num_trs(&self, id: StateId) -> (r: Option<usize>)
        ensures
            self@.trs.contains_key(id) ==> r is Some && r->Some_0 == self@.trs[id].len(),
            !self@.trs.contains_key(id) ==> r is None,
    {
        match self.trs.data.get(&id) {
            Some(trs) => Some(trs.len()),
            None => None,
        }
    }

    /// The final weight of `id`, if its slot is filled.
    pub fn get_final_weight(&self, id: StateId) -> (r: CacheStatus<FinalWeight<W>>)
        ensures
            self@.final_weights.contains_key(id) ==> r == CacheStatus::Computed(
                self@.final_weights[id],
            ),
            !self@.final_weights.contains_key(id) ==> r is NotComputed,
    {
        match self.final_weights.data.get(&id) {
            Some(w) => CacheStatus::Computed(*w),
            None => CacheStatus::NotComputed,
        }
    }

    /// Fills the slot of the final weight of `id`.
    pub fn insert_final_weight(&mut self, id: StateId, weight: FinalWeight<W>)
        ensures
            final(self)@ == (CacheModel {
                final_weights: old(self)@.final_weights.insert(id, weight),
                ..old(self)@
            }),
            final(self).num_known() >= old(self).num_known(),
            id < usize::MAX ==> final(self).num_known() > id,
    {
        if id < usize::MAX && self.final_weights.num_known_states < id + 1 {
            self.final_weights.num_known_states = id + 1;
        }
        self.final_weights.data.insert(id, weight);
    }

    /// One more than the greatest state that was put into the cache, as far
    /// as a `usize` can hold it: the greatest of what the three slots have
    /// counted.
    pub closed spec fn num_known(&self) -> usize {
        let a = self.start.num_known_states;
        let b = self.trs.num_known_states;
        let c = self.final_weights.num_known_states;
        if a >= b && a >= c {
            a
        } else if b >= c {
            b
        } else {
            c
        }
    }

    pub fn num_known_states(&self) -> (n: usize)
        ensures
            n == self.num_known(),
    {
        let mut n = self.start.num_known_states;
        if n < self.trs.num_known_states {
            n = self.trs.num_known_states;
        }
        if n < self.final_weights.num_known_states {
            n = self.final_weights.num_known_states;
        }
        n
    }
}

} // verus!
