//! Telling whether a transducer has a cycle.

use vstd::prelude::*;

use crate::algorithms::state_sort::{count_pending, lemma_count_pending_update};
use crate::fst_impls::{FstModel, VectorFst};
use crate::fst_traits::paths_iterator::{acyclic, is_ranking};
use crate::semirings::Semiring;

verus! {

/// The state `u` has a transition to a state that is not done.
pub open spec fn blocked<W>(m: FstModel<W>, done: Seq<bool>, u: int) -> bool {
    exists|i: int|
        0 <= i < m.states[u].trs.len() && !done[(#[trigger] m.states[u].trs[i]).nextstate as int]
}

/// The rank of the state `s` is below `count`, and every transition of `s`
/// leads to a state that is done and has a smaller rank.
pub open spec fn settled<W>(
    m: FstModel<W>,
    done: Seq<bool>,
    rank: Seq<nat>,
    count: nat,
    s: int,
) -> bool {
    &&& rank[s] < count
    &&& forall|i: int|
        0 <= i < m.states[s].trs.len() ==> done[(#[trigger] m.states[s].trs[i]).nextstate as int]
            && rank[m.states[s].trs[i].nextstate as int] < rank[s]
}

/// Where every state that is not done has a transition to such a state,
/// and a rank falls along every transition, every state is done: a state
/// that is not done lies before a cycle.
proof fn lemma_ranked_is_done<W>(m: FstModel<W>, done: Seq<bool>, rank: Seq<nat>, s: int)
    requires
        m.wf(),
        done.len() == m.states.len(),
        is_ranking(m, rank),
        0 <= s < done.len(),
        forall|u: int| 0 <= u < done.len() && !done[u] ==> blocked(m, done, u),
    ensures
        done[s],
    decreases rank[s],
{
    if !done[s] {
        assert(blocked(m, done, s));
        let i = choose|i: int|
            0 <= i < m.states[s].trs.len() && !done[(
            #[trigger] m.states[s].trs[i]).nextstate as int];
        let t = m.states[s].trs[i].nextstate;
        assert(m.has_state(t));
        lemma_ranked_is_done(m, done, rank, t as int);
    }
}

/// Whether every transition of `state` leads to a state that is done.
fn leads_to_done<W: Semiring>(fst: &VectorFst<W>, done: &Vec<bool>, state: usize) -> (free: bool)
    requires
        fst.wf(),
        done@.len() == fst@.states.len(),
        state < done@.len(),
    ensures
        free <==> !blocked(fst@, done@, state as int),
{
    let trs = fst.trs(state);
    let mut i: usize = 0;
    while i < trs.len()
        invariant
            i <= trs.len(),
            fst.wf(),
            done@.len() == fst@.states.len(),
            state < done@.len(),
            trs@ == fst@.states[state as int].trs,
            forall|j: int| 0 <= j < i ==> done@[(#[trigger] trs@[j]).nextstate as int],
        decreases trs.len() - i,
    {
        assert(fst@.has_state(fst@.states[state as int].trs[i as int].nextstate));
        if !done[trs[i].nextstate] {
            assert(!done@[fst@.states[state as int].trs[i as int].nextstate as int]);
            return false;
        }
        i = i + 1;
    }
    true
}

/// Whether no path of the transducer leads from a state back to it.
///
/// The states whose transitions all lead to states that are done are done,
/// again and again, until no state is left or none can be done.
pub fn is_acyclic<W: Semiring>(fst: &VectorFst<W>) -> (b: bool)
    requires
        fst.wf(),
    ensures
        b == acyclic(fst@),
{
    let n = fst.num_states();
    let mut done: Vec<bool> = Vec::with_capacity(n);
    let mut k: usize = 0;
    while k < n
        invariant
            k <= n,
            done@.len() == k,
            forall|s: int| 0 <= s < k ==> !done@[s],
        decreases n - k,
    {
        done.push(false);
        k = k + 1;
    }
    let ghost mut rank: Seq<nat> = Seq::new(n as nat, |s: int| 0nat);
    let ghost mut count: nat = 0;
    let mut changed = true;
    while changed
        invariant
            n == fst@.states.len(),
            fst.wf(),
            done@.len() == n,
            rank.len() == n,
            forall|s: int|
                0 <= s < n && done@[s] ==> #[trigger] settled(fst@, done@, rank, count, s),
            !changed ==> forall|u: int| 0 <= u < n && !done@[u] ==> blocked(fst@, done@, u),
        decreases
                count_pending(done@) + if changed {
                    1nat
                } else {
                    0nat
                },
    {
        changed = false;
        let ghost before = done@;
        let mut s: usize = 0;
        while s < n
            invariant
                s <= n,
                n == fst@.states.len(),
                fst.wf(),
                done@.len() == n,
                rank.len() == n,
                before.len() == n,
                forall|s: int|
                    0 <= s < n && done@[s] ==> #[trigger] settled(fst@, done@, rank, count, s),
                !changed ==> done@ == before,
                !changed ==> forall|u: int| 0 <= u < s && !done@[u] ==> blocked(fst@, done@, u),
                changed ==> count_pending(done@) < count_pending(before),
                count_pending(done@) <= count_pending(before),
            decreases n - s,
        {
            if !done[s] {
                if leads_to_done(fst, &done, s) {
                    let ghost earlier = done@;
                    let ghost ranks = rank;
                    let ghost counted = count;
                    done.set(s, true);
                    proof {
                        lemma_count_pending_update(earlier, s as int);
                        rank = rank.update(s as int, count);
                        count = count + 1;
                        assert forall|u: int| 0 <= u < n && done@[u] implies #[trigger] settled(
                            fst@,
                            done@,
                            rank,
                            count,
                            u,
                        ) by {
                            if u != s {
                                assert(settled(fst@, earlier, ranks, counted, u));
                            }
                            assert forall|i: int| 0 <= i < fst@.states[u].trs.len() implies done@[(
                            #[trigger] fst@.states[u].trs[i]).nextstate as int]
                                && rank[fst@.states[u].trs[i].nextstate as int] < rank[u] by {
                                let t = fst@.states[u].trs[i].nextstate;
                                assert(fst@.has_state(t));
                                assert(earlier[t as int]);
                                assert(settled(fst@, earlier, ranks, counted, t as int));
                            }
                        }
                    }
                    changed = true;
                }
            }
            s = s + 1;
        }
    }
    let mut all: bool = true;
    let mut s: usize = 0;
    while s < n
        invariant
            s <= n,
            done@.len() == n,
            all <==> forall|u: int| 0 <= u < s ==> done@[u],
        decreases n - s,
    {
        if !done[s] {
            all = false;
        }
        s = s + 1;
    }
    proof {
        if all {
            assert forall|u: int, i: int|
                0 <= u < fst@.states.len() && 0 <= i < fst@.states[u].trs.len() implies rank[(
            #[trigger] fst@.states[u].trs[i]).nextstate as int] < rank[u] by {
                assert(settled(fst@, done@, rank, count, u));
            }
            assert(is_ranking(fst@, rank));
        } else {
            let u = choose|u: int| 0 <= u < n && !done@[u];
            if acyclic(fst@) {
                let other = choose|other: Seq<nat>| is_ranking(fst@, other);
                lemma_ranked_is_done(fst@, done@, other, u);
            }
        }
    }
    all
}

} // verus!
