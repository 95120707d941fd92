//! The states of a composition: each is a state of the first transducer, a
//! state of the second and a state of the filter, and has a dense id.

use std::collections::HashMap;
use vstd::prelude::*;

use crate::algorithms::compose::filter_states::FilterState;
use crate::StateId;

verus! {

/// A state of a composition.
#[derive(Clone, Copy, Debug, PartialEq, Eq, Hash)]
pub struct StateTuple<FS> {
    pub s1: StateId,
    pub s2: StateId,
    pub fs: FS,
}

/// No tuple occurs twice in `tuples`.
pub open spec fn distinct<FS>(tuples: Seq<StateTuple<FS>>) -> bool {
    forall|i: int, j: int|
        0 <= i < tuples.len() && 0 <= j < tuples.len() && i != j ==> #[trigger] tuples[i]
            != #[trigger] tuples[j]
}

/// `tuple` occurs in `tuples`.
pub open spec fn known<FS>(tuples: Seq<StateTuple<FS>>, tuple: StateTuple<FS>) -> bool {
    exists|i: int| 0 <= i < tuples.len() && #[trigger] tuples[i] == tuple
}

/// The id of `tuple` in `tuples`.
pub open spec fn id_of<FS>(tuples: Seq<StateTuple<FS>>, tuple: StateTuple<FS>) -> int {
    choose|i: int| 0 <= i < tuples.len() && #[trigger] tuples[i] == tuple
}

/// A tuple that occurs at an index of distinct tuples has that index as id.
pub proof fn lemma_id_of<FS>(tuples: Seq<StateTuple<FS>>, i: int)
    requires
        distinct(tuples),
        0 <= i < tuples.len(),
    ensures
        known(tuples, tuples[i]),
        id_of(tuples, tuples[i]) == i,
{
}

/// `a` is the beginning of `b`.
pub open spec fn is_prefix<T>(a: Seq<T>, b: Seq<T>) -> bool {
    &&& a.len() <= b.len()
    &&& forall|i: int| 0 <= i < a.len() ==> #[trigger] a[i] == b[i]
}

/// A tuple keeps its id when further tuples get one.
pub proof fn lemma_id_of_prefix<FS>(
    a: Seq<StateTuple<FS>>,
    b: Seq<StateTuple<FS>>,
    tuple: StateTuple<FS>,
)
    requires
        distinct(b),
        is_prefix(a, b),
        known(a, tuple),
    ensures
        known(b, tuple),
        id_of(b, tuple) == id_of(a, tuple),
{
    let i = id_of(a, tuple);
    assert(b[i] == tuple);
}

/// Numbers below `n` of which no two are the same are `n` at most.
pub proof fn lemma_distinct_codes(codes: Seq<int>, n: nat)
    requires
        forall|i: int| 0 <= i < codes.len() ==> 0 <= #[trigger] codes[i] < n,
        forall|i: int, j: int|
            0 <= i < codes.len() && 0 <= j < codes.len() && i != j ==> #[trigger] codes[i]
                != #[trigger] codes[j],
    ensures
        codes.len() <= n,
{
    lemma_codes_image(codes, codes.len());
    let img = Set::new(|u: int| exists|x: int| 0 <= x < codes.len() && codes[x] == u);
    vstd::set_lib::lemma_int_range(0, n as int);
    assert(img.subset_of(vstd::set_lib::set_int_range(0, n as int)));
    vstd::set_lib::lemma_len_subset(img, vstd::set_lib::set_int_range(0, n as int));
}

/// The first `k` of some numbers of which no two are the same take `k`
/// values.
proof fn lemma_codes_image(codes: Seq<int>, k: nat)
    requires
        k <= codes.len(),
        forall|i: int, j: int|
            0 <= i < codes.len() && 0 <= j < codes.len() && i != j ==> #[trigger] codes[i]
                != #[trigger] codes[j],
    ensures
        Set::new(|u: int| exists|x: int| 0 <= x < k && codes[x] == u).finite(),
        Set::new(|u: int| exists|x: int| 0 <= x < k && codes[x] == u).len() == k,
    decreases k,
{
    let img = Set::new(|u: int| exists|x: int| 0 <= x < k && codes[x] == u);
    if k == 0 {
        assert(img =~= Set::empty());
    } else {
        let prev = Set::new(|u: int| exists|x: int| 0 <= x < k - 1 && codes[x] == u);
        lemma_codes_image(codes, (k - 1) as nat);
        let last = codes[k - 1];
        assert(!prev.contains(last)) by {
            if prev.contains(last) {
                let x = choose|x: int| 0 <= x < k - 1 && codes[x] == last;
                assert(codes[x] != codes[k - 1]);
            }
        }
        assert(img =~= prev.insert(last)) by {
            assert forall|u: int| img.contains(u) implies prev.insert(last).contains(u) by {
                let x = choose|x: int| 0 <= x < k && codes[x] == u;
                if x < k - 1 {
                    assert(prev.contains(u));
                }
            }
            assert forall|u: int| prev.insert(last).contains(u) implies img.contains(u) by {
                if u == last {
                    assert(codes[k - 1] == u);
                } else {
                    let x = choose|x: int| 0 <= x < k - 1 && codes[x] == u;
                    assert(0 <= x < k && codes[x] == u);
                }
            }
        }
    }
}

/// Whether the two states of `tuple` are small enough to be packed into one
/// key.
pub open spec fn packable<FS>(tuple: StateTuple<FS>) -> bool {
    tuple.s1 < 0x1_0000_0000 && tuple.s2 < 0x1_0000_0000
}

/// The key of the two states of a tuple.
pub open spec fn key_of<FS>(tuple: StateTuple<FS>) -> u64 {
    (tuple.s1 * 0x1_0000_0000 + tuple.s2) as u64
}

/// The table of the states of a composition. Its view is the tuples in the
/// order of their ids.
///
/// A tuple is found through a hash map from the key of its two states to
/// the ids of the tuples with these two states, of which there are as many
/// as there are filter states. The tuples with the rare states that are too
/// large for a key are found through a list.
pub struct StateTable<FS> {
    tuples: Vec<StateTuple<FS>>,
    index: HashMap<u64, Vec<StateId>>,
    spill: Vec<StateId>,
}

impl<FS> View for StateTable<FS> {
    type V = Seq<StateTuple<FS>>;

    closed spec fn view(&self) -> Seq<StateTuple<FS>> {
        self.tuples@
    }
}

impl<FS: FilterState> StateTable<FS> {
    /// The validity of the table: no tuple has two ids, and every tuple is
    /// found where it is looked for.
    pub closed spec fn inv(&self) -> bool {
        &&& distinct(self.tuples@)
        &&& self.tuples@.len() <= usize::MAX
        &&& forall|id: int|
            0 <= id < self.tuples@.len() && packable(#[trigger] self.tuples@[id])
                ==> self.index@.contains_key(key_of(self.tuples@[id])) && self.index@[key_of(
                self.tuples@[id],
            )]@.contains(id as StateId)
        &&& forall|key: u64, j: int|
            self.index@.contains_key(key) && 0 <= j < self.index@[key]@.len() ==> {
                let id = #[trigger] self.index@[key]@[j];
                id < self.tuples@.len() && packable(self.tuples@[id as int]) && key_of(
                    self.tuples@[id as int],
                ) == key
            }
        &&& forall|id: int|
            0 <= id < self.tuples@.len() && !packable(#[trigger] self.tuples@[id])
                ==> self.spill@.contains(id as StateId)
        &&& forall|j: int| 0 <= j < self.spill@.len()
            ==> (#[trigger] self.spill@[j]) < self.tuples@.len()
    }

    /// Unfolds the validity of the table.
    pub proof fn lemma_inv(&self)
        requires
            self.inv(),
        ensures
            distinct(self@),
            self@.len() <= usize::MAX,
    {
    }

    /// The empty table.
    pub fn new() -> (table: Self)
        ensures
            table.inv(),
            table@ == Seq::<StateTuple<FS>>::empty(),
    {
        StateTable { tuples: Vec::new(), index: HashMap::new(), spill: Vec::new() }
    }

    /// The key of the two states of `tuple`, if they are small enough.
    fn key(tuple: &StateTuple<FS>) -> (r: Option<u64>)
        ensures
            packable(*tuple) ==> r == Some(key_of(*tuple)),
            !packable(*tuple) ==> r is None,
    {
        let s1 = tuple.s1 as u64;
        let s2 = tuple.s2 as u64;
        if s1 < 0x1_0000_0000 && s2 < 0x1_0000_0000 {
            Some(s1 * 0x1_0000_0000 + s2)
        } else {
            None
        }
    }

    /// The id, among `ids`, of `tuple`.
    fn find_among(&self, ids: &Vec<StateId>, tuple: &StateTuple<FS>) -> (r: Option<StateId>)
        requires
            forall|j: int| 0 <= j < ids@.len() ==> (#[trigger] ids@[j]) < self.tuples@.len(),
        ensures
            r matches Some(id) ==> id < self@.len() && self@[id as int] == *tuple,
            r is None ==> forall|j: int|
                0 <= j < ids@.len() ==> self@[(#[trigger] ids@[j]) as int] != *tuple,
    {
        let mut j: usize = 0;
        while j < ids.len()
            invariant
                j <= ids@.len(),
                forall|k: int| 0 <= k < ids@.len() ==> (#[trigger] ids@[k]) < self.tuples@.len(),
                forall|k: int| 0 <= k < j ==> self.tuples@[(#[trigger] ids@[k]) as int] != *tuple,
            decreases ids.len() - j,
        {
            let id = ids[j];
            let t = &self.tuples[id];
            if t.s1 == tuple.s1 && t.s2 == tuple.s2 && t.fs.same(&tuple.fs) {
                return Some(id);
            }
            j = j + 1;
        }
        None
    }

    /// The id of `tuple`, if it has one.
    pub fn find(&self, tuple: &StateTuple<FS>) -> (r: Option<StateId>)
        requires
            self.inv(),
        ensures
            r matches Some(id) ==> id < self@.len() && self@[id as int] == *tuple,
            r is None ==> !known(self@, *tuple),
    {
        broadcast use vstd::std_specs::hash::group_hash_axioms;

        match Self::key(tuple) {
            Some(key) => {
                match self.index.get(&key) {
                    Some(ids) => {
                        assert forall|j: int| 0 <= j < ids@.len() implies (#[trigger] ids@[j])
                            < self.tuples@.len() by {
                            let _ = self.index@[key]@[j];
                        }
                        let r = self.find_among(ids, tuple);
                        proof {
                            if r is None && known(self@, *tuple) {
                                let id = id_of(self@, *tuple);
                                assert(packable(self.tuples@[id]));
                                let j = choose|j: int|
                                    0 <= j < ids@.len() && ids@[j] == id as StateId;
                                assert(self@[ids@[j] as int] != *tuple);
                            }
                        }
                        r
                    },
                    None => {
                        proof {
                            if known(self@, *tuple) {
                                let id = id_of(self@, *tuple);
                                assert(packable(self.tuples@[id]));
                            }
                        }
                        None
                    },
                }
            },
            None => {
                let r = self.find_among(&self.spill, tuple);
                proof {
                    if r is None && known(self@, *tuple) {
                        let id = id_of(self@, *tuple);
                        assert(!packable(self.tuples@[id]));
                        let j = choose|j: int|
                            0 <= j < self.spill@.len() && self.spill@[j] == id as StateId;
                        assert(self@[self.spill@[j] as int] != *tuple);
                    }
                }
                r
            },
        }
    }

    /// The id of `tuple`; a tuple without id gets the next free one.
    pub fn find_or_insert(&mut self, tuple: StateTuple<FS>) -> (id: StateId)
        requires
            old(self).inv(),
        ensures
            final(self).inv(),
            id < final(self)@.len(),
            final(self)@[id as int] == tuple,
            known(old(self)@, tuple) ==> final(self)@ == old(self)@,
            !known(old(self)@, tuple) ==> final(self)@ == old(self)@.push(tuple),
    {
        broadcast use vstd::std_specs::hash::group_hash_axioms;

        if let Some(id) = self.find(&tuple) {
            return id;
        }
        let id = self.tuples.len();
        let ghost before = *self;
        self.tuples.push(tuple);
        let _ = self.tuples.len();
        match Self::key(&tuple) {
            Some(key) => {
                let mut ids = match self.index.remove(&key) {
                    Some(ids) => ids,
                    None => Vec::new(),
                };
                let ghost had = ids@;
                ids.push(id);
                self.index.insert(key, ids);
                proof {
                    assert forall|other: int|
                        0 <= other < self.tuples@.len() && packable(
                            #[trigger] self.tuples@[other],
                        ) implies self.index@.contains_key(key_of(self.tuples@[other]))
                        && self.index@[key_of(self.tuples@[other])]@.contains(
                        other as StateId,
                    ) by {
                        if other < id {
                            assert(self.tuples@[other] == before.tuples@[other]);
                            let k = key_of(before.tuples@[other]);
                            let j = choose|j: int|
                                0 <= j < before.index@[k]@.len() && before.index@[k]@[j]
                                    == other as StateId;
                            if k == key {
                                assert(ids@[j] == other as StateId);
                            }
                        } else {
                            assert(ids@[ids@.len() - 1] == other as StateId);
                        }
                    }
                    assert forall|k: u64, j: int|
                        self.index@.contains_key(k) && 0 <= j < self.index@[k]@.len() implies {
                        let found = #[trigger] self.index@[k]@[j];
                        found < self.tuples@.len() && packable(self.tuples@[found as int])
                            && key_of(self.tuples@[found as int]) == k
                    } by {
                        if k == key {
                            if j < had.len() {
                                let _ = before.index@[k]@[j];
                                assert(ids@[j] == had[j]);
                            }
                        } else {
                            let _ = before.index@[k]@[j];
                        }
                        let found = self.index@[k]@[j];
                        if found < id {
                            assert(self.tuples@[found as int] == before.tuples@[found as int]);
                        }
                    }
                    assert forall|other: int|
                        0 <= other < self.tuples@.len() && !packable(
                            #[trigger] self.tuples@[other],
                        ) implies self.spill@.contains(other as StateId) by {
                        assert(self.tuples@[other] == before.tuples@[other]);
                    }
                }
            },
            None => {
                self.spill.push(id);
                proof {
                    assert forall|other: int|
                        0 <= other < self.tuples@.len() && packable(
                            #[trigger] self.tuples@[other],
                        ) implies self.index@.contains_key(key_of(self.tuples@[other]))
                        && self.index@[key_of(self.tuples@[other])]@.contains(
                        other as StateId,
                    ) by {
                        assert(self.tuples@[other] == before.tuples@[other]);
                    }
                    assert forall|k: u64, j: int|
                        self.index@.contains_key(k) && 0 <= j < self.index@[k]@.len() implies {
                        let found = #[trigger] self.index@[k]@[j];
                        found < self.tuples@.len() && packable(self.tuples@[found as int])
                            && key_of(self.tuples@[found as int]) == k
                    } by {
                        let found = before.index@[k]@[j];
                        assert(self.tuples@[found as int] == before.tuples@[found as int]);
                    }
                    assert forall|other: int|
                        0 <= other < self.tuples@.len() && !packable(
                            #[trigger] self.tuples@[other],
                        ) implies self.spill@.contains(other as StateId) by {
                        if other < id {
                            assert(self.tuples@[other] == before.tuples@[other]);
                            let j = choose|j: int|
                                0 <= j < before.spill@.len() && before.spill@[j]
                                    == other as StateId;
                            assert(self.spill@[j] == other as StateId);
                        } else {
                            assert(self.spill@[self.spill@.len() - 1] == other as StateId);
                        }
                    }
                    assert forall|j: int| 0 <= j < self.spill@.len() implies (
                    #[trigger] self.spill@[j]) < self.tuples@.len() by {
                        if j < before.spill@.len() {
                            assert(self.spill@[j] == before.spill@[j]);
                        }
                    }
                }
            },
        }
        assert(distinct(self.tuples@)) by {
            assert forall|i: int, j: int|
                0 <= i < self.tuples@.len() && 0 <= j < self.tuples@.len() && i != j implies (
            #[trigger] self.tuples@[i]) != #[trigger] self.tuples@[j] by {
                if i < id && j < id {
                    assert(before.tuples@[i] != before.tuples@[j]);
                } else if i < id {
                    assert(before.tuples@[i] != tuple);
                } else {
                    assert(before.tuples@[j] != tuple);
                }
            }
        }
        id
    }

    /// The tuple that has the id `id`.
    pub fn tuple(&self, id: StateId) -> (r: Option<StateTuple<FS>>)
        ensures
            id < self@.len() ==> r == Some(self@[id as int]),
            id >= self@.len() ==> r is None,
    {
        if id < self.tuples.len() {
            Some(self.tuples[id])
        } else {
            None
        }
    }

    /// How many tuples have an id.
    pub fn size(&self) -> (n: usize)
        ensures
            n == self@.len(),
    {
        self.tuples.len()
    }

    /// Forgets every tuple.
    pub fn clear(&mut self)
        ensures
            final(self).inv(),
            final(self)@ == Seq::<StateTuple<FS>>::empty(),
    {
        broadcast use vstd::std_specs::hash::group_hash_axioms;

        self.tuples.clear();
        self.index.clear();
        self.spill.clear();
    }
}

} // verus!
