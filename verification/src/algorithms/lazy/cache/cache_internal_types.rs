//! The slots of a cache.

use std::collections::HashMap;
use vstd::prelude::*;

use crate::StateId;

verus! {

/// A slot of a cache: empty, or filled for good.
#[derive(Debug, Clone, PartialEq, Eq)]
pub enum CacheStatus<T> {
    Computed(T),
    NotComputed,
}

impl<T> CacheStatus<T> {
    pub fn is_computed(&self) -> (b: bool)
        ensures
            b == (*self is Computed),
    {
        match self {
            CacheStatus::Computed(_) => true,
            CacheStatus::NotComputed => false,
        }
    }
}

pub type StartState = Option<StateId>;

pub type FinalWeight<W> = Option<W>;

/// Some cached data, with the number of states that are known through it:
/// one more than the greatest state that it names.
#[derive(Debug)]
pub struct CachedData<T> {
    pub data: T,
    pub num_known_states: usize,
}

impl<T: Clone> Clone for CachedData<T> {
    /// A copy with a clone of the data.
    fn clone(&self) -> (r: Self)
        ensures
            cloned(self.data, r.data),
            r.num_known_states == self.num_known_states,
    {
        Self { data: self.data.clone(), num_known_states: self.num_known_states }
    }
}

impl<T> Default for CachedData<Option<T>> {
    fn default() -> (r: Self)
        ensures
            r.data is None,
            r.num_known_states == 0,
    {
        Self { data: None, num_known_states: 0 }
    }
}

impl<T> Default for CachedData<CacheStatus<T>> {
    fn default() -> (r: Self)
        ensures
            r.data is NotComputed,
            r.num_known_states == 0,
    {
        Self { data: CacheStatus::NotComputed, num_known_states: 0 }
    }
}

impl<T> CachedData<CacheStatus<T>> {
    pub fn clear(&mut self)
        ensures
            final(self).data is NotComputed,
            final(self).num_known_states == 0,
    {
        self.data = CacheStatus::NotComputed;
        self.num_known_states = 0;
    }
}

impl<T> Default for CachedData<Vec<T>> {
    fn default() -> (r: Self)
        ensures
            r.data@ == Seq::<T>::empty(),
            r.num_known_states == 0,
    {
        Self { data: Vec::new(), num_known_states: 0 }
    }
}

impl<T> CachedData<Vec<T>> {
    pub fn clear(&mut self)
        ensures
            final(self).data@ == Seq::<T>::empty(),
            final(self).num_known_states == 0,
    {
        self.data.clear();
        self.num_known_states = 0;
    }
}

impl<T> CachedData<Vec<CacheStatus<T>>> {
    /// The slot at `idx`; a slot that was never made is empty.
    pub fn get(&self, idx: usize) -> (r: CacheStatus<&T>)
        ensures
            idx < self.data@.len() && self.data@[idx as int] is Computed ==> r
                == CacheStatus::Computed(&self.data@[idx as int]->Computed_0),
            !(idx < self.data@.len() && self.data@[idx as int] is Computed) ==> r
                is NotComputed,
    {
        if idx < self.data.len() {
            match &self.data[idx] {
                CacheStatus::Computed(v) => CacheStatus::Computed(v),
                CacheStatus::NotComputed => CacheStatus::NotComputed,
            }
        } else {
            CacheStatus::NotComputed
        }
    }
}

impl<K, V> Default for CachedData<HashMap<K, V>> {
    fn default() -> (r: Self)
        ensures
            r.data@ == Map::<K, V>::empty(),
            r.num_known_states == 0,
    {
        Self { data: HashMap::new(), num_known_states: 0 }
    }
}

impl<K, V> CachedData<HashMap<K, V>> {
    pub fn clear(&mut self)
        ensures
            final(self).data@ == Map::<K, V>::empty(),
            final(self).num_known_states == 0,
    {
        self.data.clear();
        self.num_known_states = 0;
    }
}

} // verus!
