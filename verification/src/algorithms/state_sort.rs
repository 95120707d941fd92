//! Renumbering the states of a transducer.

use vstd::prelude::*;

use crate::error::FstError;
use crate::fst_impls::{FstModel, StateModel, VectorFst};
use crate::semirings::Semiring;
use crate::tr::Tr;
use crate::StateId;

verus! {

/// Every index below `order.len()` occurs in `order`, and occurs once.
pub open spec fn is_permutation(order: Seq<StateId>) -> bool {
    &&& forall|i: int| 0 <= i < order.len() ==> (#[trigger] order[i]) < order.len()
    &&& forall|i: int, j: int|
        0 <= i < order.len() && 0 <= j < order.len() && i != j ==> #[trigger] order[i]
            != #[trigger] order[j]
}

/// The transitions `trs`, each led to the new id of its target.
pub open spec fn relabel_trs<W>(trs: Seq<Tr<W>>, order: Seq<StateId>) -> Seq<Tr<W>> {
    Seq::new(
        trs.len(),
        |i: int|
            Tr {
                ilabel: trs[i].ilabel,
                olabel: trs[i].olabel,
                weight: trs[i].weight,
                nextstate: order[trs[i].nextstate as int],
            },
    )
}

/// The state `state` as it stands after the renumbering `order`.
pub open spec fn relabel_state<W>(state: StateModel<W>, order: Seq<StateId>) -> StateModel<W> {
    StateModel { final_weight: state.final_weight, trs: relabel_trs(state.trs, order) }
}

/// `after` is `before` with each state `s` moved to the id `order[s]`.
pub open spec fn is_state_sorted<W>(
    before: FstModel<W>,
    order: Seq<StateId>,
    after: FstModel<W>,
) -> bool {
    &&& after.states.len() == before.states.len()
    &&& before.start matches Some(start) ==> after.start == Some(order[start as int])
    &&& before.start is None ==> after.start is None
    &&& forall|s: int|
        0 <= s < before.states.len() ==> #[trigger] after.states[order[s] as int]
            == relabel_state(before.states[s], order)
}

/// How many entries of `done` are false.
pub open spec fn count_pending(done: Seq<bool>) -> nat
    decreases done.len(),
{
    if done.len() == 0 {
        0
    } else {
        count_pending(done.drop_last()) + if done.last() {
            0nat
        } else {
            1nat
        }
    }
}

pub proof fn lemma_count_pending_update(done: Seq<bool>, i: int)
    requires
        0 <= i < done.len(),
        !done[i],
    ensures
        count_pending(done.update(i, true)) + 1 == count_pending(done),
    decreases done.len(),
{
    if i == done.len() - 1 {
        assert(done.update(i, true).drop_last() =~= done.drop_last());
    } else {
        assert(done.update(i, true).drop_last() =~= done.drop_last().update(i, true));
        lemma_count_pending_update(done.drop_last(), i);
    }
}

/// A copy of `trs`.
fn copy_trs<W: Semiring>(trs: &Vec<Tr<W>>) -> (r: Vec<Tr<W>>)
    ensures
        r@ == trs@,
{
    let mut r: Vec<Tr<W>> = Vec::with_capacity(trs.len());
    let mut i: usize = 0;
    while i < trs.len()
        invariant
            i <= trs.len(),
            r@ == trs@.take(i as int),
        decreases trs.len() - i,
    {
        r.push(trs[i]);
        i = i + 1;
        assert(r@ =~= trs@.take(i as int));
    }
    assert(trs@.take(i as int) =~= trs@);
    r
}

/// Whether `order` holds every index below its length once.
pub fn check_permutation(order: &[StateId]) -> (b: bool)
    ensures
        b == is_permutation(order@),
{
    let n = order.len();
    let mut seen: Vec<bool> = Vec::with_capacity(n);
    let mut k: usize = 0;
    while k < n
        invariant
            k <= n,
            seen@.len() == k,
            forall|j: int| 0 <= j < k ==> !seen@[j],
        decreases n - k,
    {
        seen.push(false);
        k = k + 1;
    }
    let mut i: usize = 0;
    while i < n
        invariant
            i <= n,
            n == order@.len(),
            seen@.len() == n,
            forall|j: int| 0 <= j < i ==> (#[trigger] order@[j]) < n,
            forall|j: int, l: int| 0 <= j < i && 0 <= l < i && j != l ==> order@[j] != order@[l],
            forall|v: int|
                0 <= v < n ==> (#[trigger] seen@[v] <==> exists|j: int|
                    0 <= j < i && order@[j] == v),
        decreases n - i,
    {
        let v = order[i];
        if v >= n {
            return false;
        }
        if seen[v] {
            let ghost j = choose|j: int| 0 <= j < i && order@[j] == v;
            assert(order@[j] == order@[i as int]);
            return false;
        }
        let ghost before = seen@;
        seen.set(v, true);
        assert forall|u: int| 0 <= u < n implies (#[trigger] seen@[u] <==> exists|j: int|
            0 <= j < i + 1 && order@[j] == u) by {
            if u == v {
                assert(order@[i as int] == u);
            } else if before[u] {
                let j = choose|j: int| 0 <= j < i && order@[j] == u;
                assert(0 <= j < i + 1 && order@[j] == u);
            } else {
                if exists|j: int| 0 <= j < i + 1 && order@[j] == u {
                    let j = choose|j: int| 0 <= j < i + 1 && order@[j] == u;
                    assert(j < i);
                }
            }
        }
        i = i + 1;
    }
    true
}

/// Sorts the states of a transducer: `order[s]` is the id after sorting of
/// the state that has the id `s` before.
///
/// A transducer without start state is left as it is. An `order` of the
/// wrong length is refused and the transducer left as it is.
pub fn state_sort<W: Semiring>(fst: &mut VectorFst<W>, order: &[StateId]) -> (r: Result<
    (),
    FstError,
>)
    requires
        old(fst).wf(),
        order@.len() == old(fst)@.states.len() && old(fst)@.start is Some ==> is_permutation(
            order@,
        ),
    ensures
        final(fst).wf(),
        order@.len() != old(fst)@.states.len() ==> r == Err::<(), FstError>(
            FstError::InvalidState(order@.len() as StateId),
        ) && final(fst)@ == old(fst)@,
        order@.len() == old(fst)@.states.len() ==> r is Ok,
        order@.len() == old(fst)@.states.len() && old(fst)@.start is None
            ==> final(fst)@ == old(fst)@,
        order@.len() == old(fst)@.states.len() && old(fst)@.start is Some ==> is_state_sorted(
            old(fst)@,
            order@,
            final(fst)@,
        ),
{
    let n = fst.num_states();
    if order.len() != n {
        return Err(FstError::InvalidState(order.len()));
    }
    let start_state = match fst.start() {
        None => {
            return Ok(());
        },
        Some(start_state) => start_state,
    };
    let ghost orig = fst@;

    let mut done: Vec<bool> = Vec::with_capacity(n);
    let mut k: usize = 0;
    while k < n
        invariant
            k <= n,
            done@.len() == k,
            forall|j: int| 0 <= j < k ==> !done@[j],
        decreases n - k,
    {
        done.push(false);
        k = k + 1;
    }

    let _ = fst.set_start(order[start_state]);

    let mut s0: usize = 0;
    while s0 < n
        invariant
            s0 <= n,
            n == order@.len(),
            n == orig.states.len(),
            orig.wf(),
            is_permutation(order@),
            fst.wf(),
            fst@.states.len() == n,
            start_state < n,
            fst@.start == Some(order@[start_state as int]),
            done@.len() == n,
            forall|x: int| 0 <= x < s0 ==> done@[x],
            forall|x: int|
                0 <= x < n && done@[x] ==> #[trigger] fst@.states[order@[x] as int]
                    == relabel_state(orig.states[x], order@),
            forall|x: int|
                0 <= x < n && !done@[x] ==> #[trigger] fst@.states[order@[x] as int]
                    == orig.states[order@[x] as int],
            forall|x: int| 0 <= x < n && done@[x] ==> done@[#[trigger] order@[x] as int],
        decreases n - s0,
    {
        if done[s0] {
            s0 = s0 + 1;
            continue ;
        }
        let mut s1 = s0;
        proof {
            // The state that is moved to `s0` is not done, so `s0` is untouched.
            lemma_permutation_onto(order@, s0 as int);
            let x = choose|x: int| 0 <= x < n && order@[x] == s0;
            assert(!done@[x]);
            assert(fst@.states[order@[x] as int] == orig.states[s0 as int]);
        }
        let mut final1 = fst.final_weight(s1).unwrap();
        let mut final2: Option<W> = None;
        let mut trsa = copy_trs(fst.trs(s1));
        let mut trsb: Vec<Tr<W>> = Vec::new();
        while !done[s1]
            invariant
                s0 < n,
                s1 < n,
                n == order@.len(),
                n == orig.states.len(),
                orig.wf(),
                is_permutation(order@),
                fst.wf(),
                fst@.states.len() == n,
                start_state < n,
                fst@.start == Some(order@[start_state as int]),
                done@.len() == n,
                s1 == s0 || done@[s0 as int],
                forall|x: int| 0 <= x < s0 ==> done@[x],
                forall|x: int|
                    0 <= x < n && done@[x] ==> #[trigger] fst@.states[order@[x] as int]
                        == relabel_state(orig.states[x], order@),
                forall|x: int|
                    0 <= x < n && !done@[x] ==> #[trigger] fst@.states[order@[x] as int]
                        == orig.states[order@[x] as int],
                forall|x: int|
                    0 <= x < n && done@[x] ==> done@[#[trigger] order@[x] as int] || order@[x]
                        == s1,
                !done@[s1 as int] ==> final1 == orig.states[s1 as int].final_weight && trsa@
                    == orig.states[s1 as int].trs,
            decreases count_pending(done@),
        {
            let s2 = order[s1];
            assert(fst@.states[order@[s1 as int] as int] == orig.states[s2 as int]);
            if !done[s2] {
                final2 = fst.final_weight(s2).unwrap();
                trsb = copy_trs(fst.trs(s2));
            }
            let ghost mid = fst@;
            match final1 {
                None => {
                    let _ = fst.delete_final_weight(s2);
                },
                Some(v) => {
                    let _ = fst.set_final(s2, v);
                },
            }
            let _ = fst.delete_trs(s2);
            assert(relabel_trs(trsa@, order@).take(0) =~= Seq::empty());
            assert(fst@.states =~= mid.states.update(
                s2 as int,
                StateModel { final_weight: final1, trs: Seq::empty() },
            ));
            let mut i: usize = 0;
            while i < trsa.len()
                invariant
                    i <= trsa.len(),
                    s1 < n,
                    s2 < n,
                    n == order@.len(),
                    n == orig.states.len(),
                    orig.wf(),
                    is_permutation(order@),
                    trsa@ == orig.states[s1 as int].trs,
                    fst.wf(),
                    fst@.start == mid.start,
                    fst@.states == mid.states.update(
                        s2 as int,
                        StateModel {
                            final_weight: final1,
                            trs: relabel_trs(trsa@, order@).take(i as int),
                        },
                    ),
                    mid.states.len() == n,
                decreases trsa.len() - i,
            {
                let tr = trsa[i];
                assert(orig.states[s1 as int].trs[i as int].nextstate < n);
                let _ = fst.add_tr(
                    s2,
                    Tr::new(tr.ilabel, tr.olabel, tr.weight, order[tr.nextstate]),
                );
                i = i + 1;
                assert(fst@.states =~= mid.states.update(
                    s2 as int,
                    StateModel {
                        final_weight: final1,
                        trs: relabel_trs(trsa@, order@).take(i as int),
                    },
                )) by {
                    assert(relabel_trs(trsa@, order@).take(i as int) =~= relabel_trs(
                        trsa@,
                        order@,
                    ).take(i - 1).push(relabel_trs(trsa@, order@)[i - 1]));
                }
            }
            assert(relabel_trs(trsa@, order@).take(i as int) =~= relabel_trs(trsa@, order@));
            proof {
                lemma_count_pending_update(done@, s1 as int);
            }
            done.set(s1, true);
            assert forall|x: int| 0 <= x < n
                && done@[x] implies #[trigger] fst@.states[order@[x] as int]
                == relabel_state(orig.states[x], order@) by {
                if x != s1 {
                    assert(order@[x] != order@[s1 as int]);
                    assert(fst@.states[order@[x] as int] == mid.states[order@[x] as int]);
                }
            }
            assert forall|x: int| 0 <= x < n
                && !done@[x] implies #[trigger] fst@.states[order@[x] as int]
                == orig.states[order@[x] as int] by {
                assert(order@[x] != order@[s1 as int]);
                assert(fst@.states[order@[x] as int] == mid.states[order@[x] as int]);
            }

            // next
            std::mem::swap(&mut trsa, &mut trsb);
            final1 = final2;
            s1 = s2;
        }
        s0 = s0 + 1;
    }
    Ok(())
}

/// Every index below the length of a permutation is the image of an index.
pub proof fn lemma_permutation_onto(order: Seq<StateId>, v: int)
    requires
        is_permutation(order),
        0 <= v < order.len(),
    ensures
        exists|x: int| 0 <= x < order.len() && order[x] == v,
{
    let n = order.len();
    let img = Set::new(|u: int| exists|x: int| 0 <= x < n && order[x] == u);
    let dom = Set::new(|x: int| 0 <= x < n);
    // The image of the injective map has as many elements as the indices.
    lemma_image_size(order, n);
    let part = Set::new(|u: int| exists|x: int| 0 <= x < n && order[x] == u);
    assert(part =~= img);
    vstd::set_lib::lemma_int_range(0, n as int);
    assert(vstd::set_lib::set_int_range(0, n as int) =~= dom);
    assert(img.subset_of(dom));
    if !img.contains(v) {
        vstd::set_lib::lemma_len_subset(img, dom.remove(v));
    }
}

/// The first `k` entries of a permutation take `k` values.
proof fn lemma_image_size(order: Seq<StateId>, k: nat)
    requires
        is_permutation(order),
        k <= order.len(),
    ensures
        Set::new(|u: int| exists|x: int| 0 <= x < k && order[x] == u).finite(),
        Set::new(|u: int| exists|x: int| 0 <= x < k && order[x] == u).len() == k,
    decreases k,
{
    let img = Set::new(|u: int| exists|x: int| 0 <= x < k && order[x] == u);
    if k == 0 {
        assert(img =~= Set::empty());
    } else {
        let prev = Set::new(|u: int| exists|x: int| 0 <= x < k - 1 && order[x] == u);
        lemma_image_size(order, (k - 1) as nat);
        let last = order[k - 1] as int;
        assert(!prev.contains(last)) by {
            if prev.contains(last) {
                let x = choose|x: int| 0 <= x < k - 1 && order[x] == last;
                assert(order[x] != order[k - 1]);
            }
        }
        assert(img =~= prev.insert(last)) by {
            assert forall|u: int| img.contains(u) implies prev.insert(last).contains(u) by {
                let x = choose|x: int| 0 <= x < k && order[x] == u;
                if x < k - 1 {
                    assert(prev.contains(u));
                }
            }
            assert forall|u: int| prev.insert(last).contains(u) implies img.contains(u) by {
                if u == last {
                    assert(order[k - 1] == u);
                } else {
                    let x = choose|x: int| 0 <= x < k - 1 && order[x] == u;
                    assert(0 <= x < k && order[x] == u);
                }
            }
        }
    }
}

/// Sorting by the identity changes nothing but, possibly, nothing at all.
pub proof fn lemma_state_sort_identity<W>(
    before: FstModel<W>,
    order: Seq<StateId>,
    after: FstModel<W>,
)
    requires
        before.wf(),
        order.len() == before.states.len(),
        forall|i: int| 0 <= i < order.len() ==> order[i] == i,
        is_state_sorted(before, order, after),
    ensures
        after == before,
{
    assert forall|s: int| 0 <= s < before.states.len() implies after.states[s]
        == before.states[s] by {
        assert(after.states[order[s] as int] == relabel_state(before.states[s], order));
        assert(relabel_trs(before.states[s].trs, order) =~= before.states[s].trs) by {
            assert forall|i: int| 0 <= i < before.states[s].trs.len() implies relabel_trs(
                before.states[s].trs,
                order,
            )[i] == before.states[s].trs[i] by {
                assert(before.states[s].trs[i].nextstate < before.states.len());
            }
        }
    }
    assert(after.states =~= before.states);
}

} // verus!
