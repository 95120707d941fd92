//! Trimming a transducer: removing the states that lie on no path from the
//! start state to a final state.

use vstd::prelude::*;

use crate::algorithms::state_sort::{count_pending, lemma_count_pending_update};
use crate::error::FstError;
use crate::fst_impls::vector_fst::state_models;
use crate::fst_impls::{FstModel, StateModel, VectorFst, VectorFstState};
use crate::fst_traits::paths::{
    among, input_string, is_path, is_successful, output_string, path_weight, total_weight,
};
use crate::semirings::Semiring;
use crate::tr::Tr;
use crate::StateId;

verus! {

/// A path of `steps` transitions leads from `from` to `to`.
pub open spec fn reaches<W>(m: FstModel<W>, from: StateId, to: StateId, steps: nat) -> bool
    decreases steps,
{
    if steps == 0 {
        from == to
    } else {
        exists|i: int|
            0 <= i < m.states[from as int].trs.len() && reaches(
                m,
                (#[trigger] m.states[from as int].trs[i]).nextstate,
                to,
                (steps - 1) as nat,
            )
    }
}

/// A path leads from the start state to `s`.
pub open spec fn accessible<W>(m: FstModel<W>, s: StateId) -> bool {
    m.start matches Some(q) && exists|steps: nat| reaches(m, q, s, steps)
}

/// A path leads from `s` to a final state.
pub open spec fn coaccessible<W>(m: FstModel<W>, s: StateId) -> bool {
    exists|f: StateId, steps: nat|
        m.has_state(f) && m.states[f as int].final_weight is Some && #[trigger] reaches(
            m,
            s,
            f,
            steps,
        )
}

/// `s` lies on a path from the start state to a final state.
pub open spec fn useful<W>(m: FstModel<W>, s: StateId) -> bool {
    accessible(m, s) && coaccessible(m, s)
}

/// How many of the first `s` states are kept.
pub open spec fn kept_below(keep: Seq<bool>, s: nat) -> nat
    decreases s,
{
    if s == 0 {
        0
    } else {
        kept_below(keep, (s - 1) as nat) + if keep[s - 1] {
            1nat
        } else {
            0nat
        }
    }
}

/// Those of `trs` that lead to a state that is kept, each led to the new id
/// of its target.
pub open spec fn trim_trs<W>(trs: Seq<Tr<W>>, keep: Seq<bool>) -> Seq<Tr<W>>
    decreases trs.len(),
{
    if trs.len() == 0 {
        Seq::empty()
    } else {
        let tr = trs.last();
        if keep[tr.nextstate as int] {
            trim_trs(trs.drop_last(), keep).push(
                Tr {
                    ilabel: tr.ilabel,
                    olabel: tr.olabel,
                    weight: tr.weight,
                    nextstate: kept_below(keep, tr.nextstate as nat) as StateId,
                },
            )
        } else {
            trim_trs(trs.drop_last(), keep)
        }
    }
}

/// Those of the first `s` states of `m` that are kept, as they stand after
/// the others are removed.
pub open spec fn trim_states<W>(m: FstModel<W>, keep: Seq<bool>, s: nat) -> Seq<StateModel<W>>
    decreases s,
{
    if s == 0 {
        Seq::empty()
    } else if keep[s - 1] {
        trim_states(m, keep, (s - 1) as nat).push(
            StateModel {
                final_weight: m.states[s - 1].final_weight,
                trs: trim_trs(m.states[s - 1].trs, keep),
            },
        )
    } else {
        trim_states(m, keep, (s - 1) as nat)
    }
}

/// The transducer `m` with the states removed that `keep` does not keep:
/// the kept states move up in their order, the transitions into removed
/// states go, and so does the start state if it is removed.
pub open spec fn trimmed<W>(m: FstModel<W>, keep: Seq<bool>) -> FstModel<W> {
    FstModel {
        start: match m.start {
            Some(q) => if keep[q as int] {
                Some(kept_below(keep, q as nat) as StateId)
            } else {
                None
            },
            None => None,
        },
        states: trim_states(m, keep, m.states.len()),
    }
}

/// The transducer `m` with the states removed that lie on no path from the
/// start state to a final state.
pub open spec fn connect_spec<W>(m: FstModel<W>) -> FstModel<W> {
    trimmed(m, useful_states(m))
}

/// A path goes on by a transition.
proof fn lemma_reaches_extend<W>(m: FstModel<W>, from: StateId, to: StateId, steps: nat, i: int)
    requires
        reaches(m, from, to, steps),
        0 <= i < m.states[to as int].trs.len(),
    ensures
        reaches(m, from, m.states[to as int].trs[i].nextstate, steps + 1),
    decreases steps,
{
    if steps == 0 {
        assert(reaches(m, m.states[from as int].trs[i].nextstate,
            m.states[to as int].trs[i].nextstate, 0));
    } else {
        let j = choose|j: int|
            0 <= j < m.states[from as int].trs.len() && reaches(
                m,
                (#[trigger] m.states[from as int].trs[j]).nextstate,
                to,
                (steps - 1) as nat,
            );
        lemma_reaches_extend(m, m.states[from as int].trs[j].nextstate, to, (steps - 1) as nat, i);
    }
}

/// `marked` holds every target of a transition of a state that it holds.
pub open spec fn closed_forward<W>(m: FstModel<W>, marked: Seq<bool>) -> bool {
    forall|s: int, i: int|
        0 <= s < m.states.len() && 0 <= i < m.states[s].trs.len() && marked[s] ==> marked[(
        #[trigger] m.states[s].trs[i]).nextstate as int]
}

/// `marked` holds every state with a transition to a state that it holds.
pub open spec fn closed_backward<W>(m: FstModel<W>, marked: Seq<bool>) -> bool {
    forall|s: int, i: int|
        0 <= s < m.states.len() && 0 <= i < m.states[s].trs.len() && marked[(
        #[trigger] m.states[s].trs[i]).nextstate as int] ==> marked[s]
}

proof fn lemma_closed_forward<W>(
    m: FstModel<W>,
    marked: Seq<bool>,
    from: StateId,
    to: StateId,
    steps: nat,
)
    requires
        m.wf(),
        marked.len() == m.states.len(),
        m.has_state(from),
        marked[from as int],
        closed_forward(m, marked),
        reaches(m, from, to, steps),
    ensures
        m.has_state(to),
        marked[to as int],
    decreases steps,
{
    if steps > 0 {
        let i = choose|i: int|
            0 <= i < m.states[from as int].trs.len() && reaches(
                m,
                (#[trigger] m.states[from as int].trs[i]).nextstate,
                to,
                (steps - 1) as nat,
            );
        lemma_closed_forward(m, marked, m.states[from as int].trs[i].nextstate, to,
            (steps - 1) as nat);
    }
}

proof fn lemma_closed_backward<W>(
    m: FstModel<W>,
    marked: Seq<bool>,
    from: StateId,
    to: StateId,
    steps: nat,
)
    requires
        m.wf(),
        marked.len() == m.states.len(),
        m.has_state(from),
        m.has_state(to),
        marked[to as int],
        closed_backward(m, marked),
        reaches(m, from, to, steps),
    ensures
        marked[from as int],
    decreases steps,
{
    if steps > 0 {
        let i = choose|i: int|
            0 <= i < m.states[from as int].trs.len() && reaches(
                m,
                (#[trigger] m.states[from as int].trs[i]).nextstate,
                to,
                (steps - 1) as nat,
            );
        lemma_closed_backward(m, marked, m.states[from as int].trs[i].nextstate, to,
            (steps - 1) as nat);
    }
}

/// As many entries as `n`, all false.
fn all_false(n: usize) -> (marked: Vec<bool>)
    ensures
        marked@.len() == n,
        forall|s: int| 0 <= s < n ==> !marked@[s],
{
    let mut marked: Vec<bool> = Vec::with_capacity(n);
    let mut k: usize = 0;
    while k < n
        invariant
            k <= n,
            marked@.len() == k,
            forall|s: int| 0 <= s < k ==> !marked@[s],
        decreases n - k,
    {
        marked.push(false);
        k = k + 1;
    }
    marked
}

/// Which states a path leads to from the start state.
pub fn accessible_states<W: Semiring>(fst: &VectorFst<W>) -> (marked: Vec<bool>)
    requires
        fst.wf(),
    ensures
        marked@.len() == fst@.states.len(),
        forall|s: int|
            0 <= s < fst@.states.len() ==> (#[trigger] marked@[s] <==> accessible(
                fst@,
                s as StateId,
            )),
{
    let n = fst.num_states();
    let mut marked = all_false(n);
    let start = match fst.start() {
        Some(q) => q,
        None => {
            return marked;
        },
    };
    marked.set(start, true);
    assert(reaches(fst@, start, start, 0));
    let mut changed = true;
    while changed
        invariant
            n == fst@.states.len(),
            fst.wf(),
            fst@.start == Some(start),
            marked@.len() == n,
            marked@[start as int],
            forall|s: int| 0 <= s < n && marked@[s] ==> accessible(fst@, s as StateId),
            !changed ==> closed_forward(fst@, marked@),
        decreases count_pending(marked@) + (if changed { 1nat } else { 0nat }),
    {
        changed = false;
        let ghost at_start = marked@;
        let mut s: usize = 0;
        while s < n
            invariant
                s <= n,
                n == fst@.states.len(),
                fst.wf(),
                fst@.start == Some(start),
                marked@.len() == n,
                marked@[start as int],
                forall|t: int| 0 <= t < n && marked@[t] ==> accessible(fst@, t as StateId),
                !changed ==> marked@ == at_start,
                changed ==> count_pending(marked@) < count_pending(at_start),
                !changed ==> forall|t: int, i: int|
                    0 <= t < s && 0 <= i < fst@.states[t].trs.len() && marked@[t] ==> marked@[(
                    #[trigger] fst@.states[t].trs[i]).nextstate as int],
            decreases n - s,
        {
            if marked[s] {
                let trs = fst.trs(s);
                let mut i: usize = 0;
                while i < trs.len()
                    invariant
                        i <= trs.len(),
                        s < n,
                        n == fst@.states.len(),
                        fst.wf(),
                        fst@.start == Some(start),
                        trs@ == fst@.states[s as int].trs,
                        marked@.len() == n,
                        marked@[start as int],
                        marked@[s as int],
                        forall|t: int| 0 <= t < n && marked@[t] ==> accessible(fst@, t as StateId),
                        !changed ==> marked@ == at_start,
                        changed ==> count_pending(marked@) < count_pending(at_start),
                        !changed ==> forall|t: int, j: int|
                            0 <= t < s && 0 <= j < fst@.states[t].trs.len() && marked@[t]
                                ==> marked@[(#[trigger] fst@.states[t].trs[j]).nextstate as int],
                        !changed ==> forall|j: int|
                            0 <= j < i ==> marked@[(#[trigger] trs@[j]).nextstate as int],
                    decreases trs.len() - i,
                {
                    let next = trs[i].nextstate;
                    assert(fst@.has_state(fst@.states[s as int].trs[i as int].nextstate));
                    if !marked[next] {
                        proof {
                            lemma_count_pending_update(marked@, next as int);
                            let steps = choose|steps: nat| reaches(fst@, start, s, steps);
                            lemma_reaches_extend(fst@, start, s, steps, i as int);
                        }
                        marked.set(next, true);
                        changed = true;
                    }
                    i = i + 1;
                }
            }
            s = s + 1;
        }
    }
    proof {
        assert forall|s: int| 0 <= s < n && accessible(fst@, s as StateId) implies marked@[s] by {
            let t = s as StateId;
            let steps = choose|steps: nat| reaches(fst@, start, t, steps);
            lemma_closed_forward(fst@, marked@, start, t, steps);
        }
    }
    marked
}

/// From which states a path leads to a final state.
pub fn coaccessible_states<W: Semiring>(fst: &VectorFst<W>) -> (marked: Vec<bool>)
    requires
        fst.wf(),
    ensures
        marked@.len() == fst@.states.len(),
        forall|s: int|
            0 <= s < fst@.states.len() ==> (#[trigger] marked@[s] <==> coaccessible(
                fst@,
                s as StateId,
            )),
{
    let n = fst.num_states();
    let mut marked = all_false(n);
    let mut f: usize = 0;
    while f < n
        invariant
            f <= n,
            n == fst@.states.len(),
            marked@.len() == n,
            forall|s: int| 0 <= s < f ==> marked@[s] == (fst@.states[s].final_weight is Some),
            forall|s: int| f <= s < n ==> !marked@[s],
        decreases n - f,
    {
        if fst.is_final(f).unwrap() {
            marked.set(f, true);
        }
        f = f + 1;
    }
    assert forall|s: int| 0 <= s < n && marked@[s] implies coaccessible(fst@, s as StateId) by {
        assert(reaches(fst@, s as StateId, s as StateId, 0));
    }
    let mut changed = true;
    while changed
        invariant
            n == fst@.states.len(),
            fst.wf(),
            marked@.len() == n,
            forall|s: int| 0 <= s < n && fst@.states[s].final_weight is Some ==> marked@[s],
            forall|s: int| 0 <= s < n && marked@[s] ==> coaccessible(fst@, s as StateId),
            !changed ==> closed_backward(fst@, marked@),
        decreases count_pending(marked@) + (if changed { 1nat } else { 0nat }),
    {
        changed = false;
        let ghost at_start = marked@;
        let mut s: usize = n;
        while s > 0
            invariant
                s <= n,
                n == fst@.states.len(),
                fst.wf(),
                marked@.len() == n,
                forall|t: int| 0 <= t < n && fst@.states[t].final_weight is Some ==> marked@[t],
                forall|t: int| 0 <= t < n && marked@[t] ==> coaccessible(fst@, t as StateId),
                !changed ==> marked@ == at_start,
                changed ==> count_pending(marked@) < count_pending(at_start),
                !changed ==> forall|t: int, i: int|
                    s <= t < n && 0 <= i < fst@.states[t].trs.len() && marked@[(
                    #[trigger] fst@.states[t].trs[i]).nextstate as int] ==> marked@[t],
            decreases s,
        {
            s = s - 1;
            if !marked[s] {
                let trs = fst.trs(s);
                let mut i: usize = 0;
                let mut found = false;
                while i < trs.len() && !found
                    invariant
                        i <= trs.len(),
                        s < n,
                        n == fst@.states.len(),
                        fst.wf(),
                        trs@ == fst@.states[s as int].trs,
                        marked@.len() == n,
                        !marked@[s as int],
                        found ==> i > 0 && marked@[trs@[i - 1].nextstate as int],
                        !found ==> forall|j: int|
                            0 <= j < i ==> !marked@[(#[trigger] trs@[j]).nextstate as int],
                    decreases trs.len() - i,
                {
                    assert(fst@.has_state(fst@.states[s as int].trs[i as int].nextstate));
                    if marked[trs[i].nextstate] {
                        found = true;
                    }
                    i = i + 1;
                }
                if found {
                    proof {
                        lemma_count_pending_update(marked@, s as int);
                        let next = trs@[i - 1].nextstate;
                        assert(fst@.has_state(fst@.states[s as int].trs[i - 1].nextstate));
                        let (fin, steps) = choose|fin: StateId, steps: nat|
                            fst@.has_state(fin) && fst@.states[fin as int].final_weight is Some
                                && #[trigger] reaches(fst@, next, fin, steps);
                        assert(reaches(fst@, s, fin, steps + 1));
                    }
                    marked.set(s, true);
                    changed = true;
                }
            }
        }
    }
    proof {
        assert forall|s: int| 0 <= s < n && coaccessible(fst@, s as StateId) implies marked@[s] by {
            let t = s as StateId;
            let (fin, steps) = choose|fin: StateId, steps: nat|
                fst@.has_state(fin) && fst@.states[fin as int].final_weight is Some
                    && #[trigger] reaches(fst@, t, fin, steps);
            lemma_closed_backward(fst@, marked@, t, fin, steps);
        }
    }
    marked
}

/// The number of kept states below a state is below the number of all
/// kept states if the state is kept, and at most that number else.
proof fn lemma_kept_below(keep: Seq<bool>, s: nat, n: nat)
    requires
        s <= n,
    ensures
        kept_below(keep, s) <= kept_below(keep, n),
        kept_below(keep, n) <= n,
        s < n && keep[s as int] ==> kept_below(keep, s) < kept_below(keep, n),
    decreases n,
{
    if s < n {
        lemma_kept_below(keep, s, (n - 1) as nat);
    }
    if n > 0 {
        lemma_kept_below(keep, (n - 1) as nat, (n - 1) as nat);
    }
}

/// The kept states, in their order, are as many as are kept.
proof fn lemma_trim_states_len<W>(m: FstModel<W>, keep: Seq<bool>, s: nat)
    ensures
        trim_states(m, keep, s).len() == kept_below(keep, s),
    decreases s,
{
    if s > 0 {
        lemma_trim_states_len(m, keep, (s - 1) as nat);
    }
}

/// A path and a path from its end make a path.
proof fn lemma_reaches_concat<W>(
    m: FstModel<W>,
    a: StateId,
    b: StateId,
    c: StateId,
    k1: nat,
    k2: nat,
)
    requires
        reaches(m, a, b, k1),
        reaches(m, b, c, k2),
    ensures
        reaches(m, a, c, k1 + k2),
    decreases k1,
{
    if k1 > 0 {
        let i = choose|i: int|
            0 <= i < m.states[a as int].trs.len() && reaches(
                m,
                (#[trigger] m.states[a as int].trs[i]).nextstate,
                b,
                (k1 - 1) as nat,
            );
        lemma_reaches_concat(m, m.states[a as int].trs[i].nextstate, b, c, (k1 - 1) as nat, k2);
        assert(reaches(m, m.states[a as int].trs[i].nextstate, c, (k1 - 1 + k2) as nat));
    }
}

/// The transition `tr` as it stands after the states are renumbered.
pub open spec fn renumbered<W>(tr: Tr<W>, keep: Seq<bool>) -> Tr<W> {
    Tr {
        ilabel: tr.ilabel,
        olabel: tr.olabel,
        weight: tr.weight,
        nextstate: kept_below(keep, tr.nextstate as nat) as StateId,
    }
}

/// A transition to a state that is kept is found again among those that
/// are left, and those that are left lead to new ids.
proof fn lemma_trim_trs<W>(trs: Seq<Tr<W>>, keep: Seq<bool>)
    requires
        keep.len() <= usize::MAX,
        forall|i: int| 0 <= i < trs.len() ==> (#[trigger] trs[i]).nextstate < keep.len(),
    ensures
        forall|i: int|
            0 <= i < trs.len() && keep[(#[trigger] trs[i]).nextstate as int] ==> exists|j: int|
                0 <= j < trim_trs(trs, keep).len() && #[trigger] trim_trs(trs, keep)[j]
                    == renumbered(trs[i], keep),
        forall|j: int|
            0 <= j < trim_trs(trs, keep).len() ==> (#[trigger] trim_trs(trs, keep)[j]).nextstate
                < kept_below(keep, keep.len()),
        trim_trs(trs, keep).len() <= trs.len(),
    decreases trs.len(),
{
    if trs.len() > 0 {
        let init = trs.drop_last();
        let last = trs.last();
        assert forall|i: int| 0 <= i < init.len() implies (#[trigger] init[i]).nextstate
            < keep.len() by {
            assert(init[i] == trs[i]);
        }
        lemma_trim_trs(init, keep);
        let _ = trs[trs.len() - 1];
        lemma_kept_below(keep, last.nextstate as nat, keep.len());
        let left = trim_trs(trs, keep);
        assert forall|i: int|
            0 <= i < trs.len() && keep[(#[trigger] trs[i]).nextstate as int] implies exists|
            j: int,
        | 0 <= j < left.len() && #[trigger] left[j] == renumbered(trs[i], keep) by {
            if i < trs.len() - 1 {
                assert(init[i] == trs[i]);
                let j = choose|j: int|
                    0 <= j < trim_trs(init, keep).len() && #[trigger] trim_trs(init, keep)[j]
                        == renumbered(init[i], keep);
                assert(left[j] == renumbered(trs[i], keep));
            } else {
                assert(left[left.len() - 1] == renumbered(trs[i], keep));
            }
        }
        assert forall|j: int| 0 <= j < left.len() implies (#[trigger] left[j]).nextstate
            < kept_below(keep, keep.len()) by {
            if j < trim_trs(init, keep).len() {
                assert(left[j] == trim_trs(init, keep)[j]);
            }
        }
    }
}

/// A state that is kept stands, with its transitions trimmed, at its new
/// id.
proof fn lemma_trim_states_index<W>(m: FstModel<W>, keep: Seq<bool>, s: int, n: nat)
    requires
        0 <= s < n,
        keep[s],
    ensures
        kept_below(keep, s as nat) < trim_states(m, keep, n).len(),
        trim_states(m, keep, n)[kept_below(keep, s as nat) as int] == (StateModel {
            final_weight: m.states[s].final_weight,
            trs: trim_trs(m.states[s].trs, keep),
        }),
    decreases n,
{
    lemma_trim_states_len(m, keep, n);
    lemma_trim_states_len(m, keep, (n - 1) as nat);
    if s < n - 1 {
        lemma_trim_states_index(m, keep, s, (n - 1) as nat);
    }
}

/// Every new id is the new id of a state that is kept.
proof fn lemma_kept_onto(keep: Seq<bool>, n: nat, j: int) -> (s: int)
    requires
        0 <= j < kept_below(keep, n),
    ensures
        0 <= s < n,
        keep[s],
        kept_below(keep, s as nat) == j,
    decreases n,
{
    if keep[n - 1] && kept_below(keep, (n - 1) as nat) == j {
        n - 1
    } else {
        lemma_kept_onto(keep, (n - 1) as nat, j)
    }
}

/// Which states of `m` lie on a path from the start state to a final
/// state.
pub open spec fn useful_states<W>(m: FstModel<W>) -> Seq<bool> {
    Seq::new(m.states.len(), |s: int| useful(m, s as StateId))
}

/// A path between useful states is found again in the trimmed transducer.
proof fn lemma_path_survives<W>(m: FstModel<W>, a: StateId, b: StateId, steps: nat)
    requires
        m.wf(),
        m.states.len() <= usize::MAX,
        m.has_state(a),
        accessible(m, a),
        coaccessible(m, b),
        reaches(m, a, b, steps),
    ensures
        m.has_state(b),
        useful(m, a),
        useful(m, b),
        reaches(
            connect_spec(m),
            kept_below(useful_states(m), a as nat) as StateId,
            kept_below(useful_states(m), b as nat) as StateId,
            steps,
        ),
    decreases steps,
{
    let keep = useful_states(m);
    let r = connect_spec(m);
    let n = m.states.len();
    let q = m.start->Some_0;
    let (fin, more) = choose|fin: StateId, more: nat|
        m.has_state(fin) && m.states[fin as int].final_weight is Some && #[trigger] reaches(
            m,
            b,
            fin,
            more,
        );
    lemma_reaches_concat(m, a, b, fin, steps, more);
    assert(coaccessible(m, a));
    if steps == 0 {
        assert(reaches(r, kept_below(keep, a as nat) as StateId, kept_below(keep,
            b as nat) as StateId, 0));
    } else {
        let i = choose|i: int|
            0 <= i < m.states[a as int].trs.len() && reaches(
                m,
                (#[trigger] m.states[a as int].trs[i]).nextstate,
                b,
                (steps - 1) as nat,
            );
        let x = m.states[a as int].trs[i].nextstate;
        assert(m.has_state(x));
        let reached = choose|reached: nat| reaches(m, q, a, reached);
        lemma_reaches_extend(m, q, a, reached, i);
        assert(accessible(m, x));
        lemma_path_survives(m, x, b, (steps - 1) as nat);
        // The transition from `a` to `x` is left.
        assert(keep[a as int] && keep[x as int]);
        assert forall|k: int| 0 <= k < m.states[a as int].trs.len() implies (
        #[trigger] m.states[a as int].trs[k]).nextstate < keep.len() by {
            assert(m.has_state(m.states[a as int].trs[k].nextstate));
        }
        lemma_trim_trs(m.states[a as int].trs, keep);
        lemma_trim_states_index(m, keep, a as int, n);
        let left = trim_trs(m.states[a as int].trs, keep);
        let j = choose|j: int|
            0 <= j < left.len() && #[trigger] left[j] == renumbered(
                m.states[a as int].trs[i],
                keep,
            );
        lemma_kept_below(keep, a as nat, n);
        let na = kept_below(keep, a as nat) as StateId;
        assert(r.states[na as int].trs[j].nextstate == kept_below(keep, x as nat) as StateId);
        assert(reaches(
            r,
            r.states[na as int].trs[j].nextstate,
            kept_below(keep, b as nat) as StateId,
            (steps - 1) as nat,
        ));
    }
}

/// The transitions `path` as they stand after the states are renumbered.
pub open spec fn renumbered_path<W>(path: Seq<Tr<W>>, keep: Seq<bool>) -> Seq<Tr<W>> {
    Seq::new(path.len(), |i: int| renumbered(path[i], keep))
}

/// Renumbering the states changes neither what a path consumes or emits
/// nor its weight.
pub proof fn lemma_renumbered_path<W: Semiring>(path: Seq<Tr<W>>, keep: Seq<bool>)
    ensures
        input_string(renumbered_path(path, keep)) == input_string(path),
        output_string(renumbered_path(path, keep)) == output_string(path),
        path_weight(renumbered_path(path, keep)) == path_weight(path),
    decreases path.len(),
{
    if path.len() > 0 {
        lemma_renumbered_path(path.drop_first(), keep);
        assert(renumbered_path(path, keep).drop_first() =~= renumbered_path(
            path.drop_first(),
            keep,
        ));
    }
}

/// A transition that is left is a transition to a state that is kept,
/// renumbered; the result is the place of that transition.
proof fn lemma_trim_trs_source<W>(trs: Seq<Tr<W>>, keep: Seq<bool>, j: int) -> (i: int)
    requires
        0 <= j < trim_trs(trs, keep).len(),
    ensures
        0 <= i < trs.len(),
        keep[trs[i].nextstate as int],
        trim_trs(trs, keep)[j] == renumbered(trs[i], keep),
    decreases trs.len(),
{
    let init = trs.drop_last();
    if keep[trs.last().nextstate as int] && j == trim_trs(init, keep).len() {
        trs.len() - 1
    } else {
        let i = lemma_trim_trs_source(init, keep, j);
        assert(init[i] == trs[i]);
        i
    }
}

/// A path from a state that the start state reaches to a final state runs
/// through useful states, and is found again, renumbered, in the trimmed
/// transducer.
proof fn lemma_path_kept<W>(m: FstModel<W>, from: StateId, path: Seq<Tr<W>>, to: StateId)
    requires
        m.wf(),
        m.states.len() <= usize::MAX,
        accessible(m, from),
        is_path(m, from, path, to),
        m.states[to as int].final_weight is Some,
    ensures
        m.has_state(to),
        useful(m, from),
        useful(m, to),
        is_path(
            connect_spec(m),
            kept_below(useful_states(m), from as nat) as StateId,
            renumbered_path(path, useful_states(m)),
            kept_below(useful_states(m), to as nat) as StateId,
        ),
    decreases path.len(),
{
    let keep = useful_states(m);
    let r = connect_spec(m);
    let n = m.states.len();
    let q = m.start->Some_0;
    lemma_kept_below(keep, from as nat, n);
    lemma_trim_states_len(m, keep, n);
    if path.len() == 0 {
        assert(reaches(m, from, to, 0));
        assert(coaccessible(m, from));
        assert(keep[from as int]);
    } else {
        let tr = path[0];
        let rest = path.drop_first();
        let trs = m.states[from as int].trs;
        let i = choose|i: int| 0 <= i < trs.len() && #[trigger] trs[i] == tr;
        let x = tr.nextstate;
        assert(m.has_state(m.states[from as int].trs[i].nextstate));
        let reached = choose|reached: nat| reaches(m, q, from, reached);
        lemma_reaches_extend(m, q, from, reached, i);
        assert(accessible(m, x));
        lemma_path_kept(m, x, rest, to);
        let (fin, more) = choose|fin: StateId, more: nat|
            m.has_state(fin) && m.states[fin as int].final_weight is Some && #[trigger] reaches(
                m,
                x,
                fin,
                more,
            );
        assert(reaches(m, m.states[from as int].trs[i].nextstate, fin, more));
        assert(reaches(m, from, fin, more + 1));
        assert(coaccessible(m, from));
        assert(keep[from as int] && keep[x as int]);
        assert forall|k: int| 0 <= k < trs.len() implies (#[trigger] trs[k]).nextstate
            < keep.len() by {
            assert(m.has_state(m.states[from as int].trs[k].nextstate));
        }
        lemma_trim_trs(trs, keep);
        lemma_trim_states_index(m, keep, from as int, n);
        let left = trim_trs(trs, keep);
        let j = choose|j: int| 0 <= j < left.len()
            && #[trigger] left[j] == renumbered(trs[i], keep);
        let path2 = renumbered_path(path, keep);
        assert(path2[0] == left[j]);
        assert(path2.drop_first() =~= renumbered_path(rest, keep));
    }
}

/// A path of the trimmed transducer is a path of the transducer,
/// renumbered; the result holds that path and the state where it ends.
proof fn lemma_path_lifted<W>(m: FstModel<W>, s: StateId, path2: Seq<Tr<W>>, to2: StateId) -> (r: (
    Seq<Tr<W>>,
    StateId,
))
    requires
        m.wf(),
        m.states.len() <= usize::MAX,
        m.has_state(s),
        useful(m, s),
        is_path(connect_spec(m), kept_below(useful_states(m), s as nat) as StateId, path2, to2),
    ensures
        is_path(m, s, r.0, r.1),
        m.has_state(r.1),
        useful(m, r.1),
        kept_below(useful_states(m), r.1 as nat) == to2,
        renumbered_path(r.0, useful_states(m)) == path2,
    decreases path2.len(),
{
    let keep = useful_states(m);
    let n = m.states.len();
    lemma_kept_below(keep, s as nat, n);
    lemma_trim_states_index(m, keep, s as int, n);
    if path2.len() == 0 {
        assert(renumbered_path(Seq::<Tr<W>>::empty(), keep) =~= path2);
        (Seq::empty(), s)
    } else {
        let trs = m.states[s as int].trs;
        let left = trim_trs(trs, keep);
        let j = choose|j: int| 0 <= j < left.len() && #[trigger] left[j] == path2[0];
        let i = lemma_trim_trs_source(trs, keep, j);
        let tr = trs[i];
        let x = tr.nextstate;
        assert(m.has_state(m.states[s as int].trs[i].nextstate));
        assert(keep[x as int]);
        lemma_kept_below(keep, x as nat, n);
        let (rest, to) = lemma_path_lifted(m, x, path2.drop_first(), to2);
        let path = seq![tr] + rest;
        assert(path.drop_first() =~= rest);
        assert(renumbered_path(rest, keep).len() == rest.len());
        assert(path2.drop_first().len() == path2.len() - 1);
        assert(renumbered_path(path, keep) =~= path2) by {
            assert forall|k: int| 0 <= k < path2.len() implies renumbered_path(path, keep)[k]
                == path2[k] by {
                if k > 0 {
                    assert(path[k] == rest[k - 1]);
                    assert(renumbered_path(rest, keep)[k - 1] == path2.drop_first()[k - 1]);
                }
            }
        }
        (path, to)
    }
}

/// Trimming keeps what a transducer accepts: a path from the start state to
/// a final state is found again in the trimmed transducer, with its states
/// renumbered, and consumes and emits there what it did, with the weight
/// that it had.
pub proof fn lemma_connect_keeps_accepted<W: Semiring>(
    m: FstModel<W>,
    path: Seq<Tr<W>>,
    to: StateId,
)
    requires
        m.wf(),
        m.states.len() <= usize::MAX,
        is_successful(m, path, to),
    ensures
        is_successful(
            connect_spec(m),
            renumbered_path(path, useful_states(m)),
            kept_below(useful_states(m), to as nat) as StateId,
        ),
        input_string(renumbered_path(path, useful_states(m))) == input_string(path),
        output_string(renumbered_path(path, useful_states(m))) == output_string(path),
        total_weight(
            connect_spec(m),
            renumbered_path(path, useful_states(m)),
            kept_below(useful_states(m), to as nat) as StateId,
        ) == total_weight(m, path, to),
{
    let keep = useful_states(m);
    let n = m.states.len();
    let q = m.start->Some_0;
    assert(reaches(m, q, q, 0));
    lemma_path_kept(m, q, path, to);
    lemma_renumbered_path(path, keep);
    lemma_kept_below(keep, to as nat, n);
    lemma_trim_states_len(m, keep, n);
    lemma_trim_states_index(m, keep, to as int, n);
}

/// Trimming adds nothing to what a transducer accepts: a path from the
/// start state to a final state of the trimmed transducer is such a path of
/// the transducer, with its states renumbered, and consumes and emits what
/// that path does, with its weight. The result holds that path and the
/// state where it ends.
pub proof fn lemma_connect_adds_nothing<W: Semiring>(
    m: FstModel<W>,
    path: Seq<Tr<W>>,
    to: StateId,
) -> (r: (Seq<Tr<W>>, StateId))
    requires
        m.wf(),
        m.states.len() <= usize::MAX,
        is_successful(connect_spec(m), path, to),
    ensures
        is_successful(m, r.0, r.1),
        renumbered_path(r.0, useful_states(m)) == path,
        kept_below(useful_states(m), r.1 as nat) == to,
        input_string(r.0) == input_string(path),
        output_string(r.0) == output_string(path),
        total_weight(m, r.0, r.1) == total_weight(connect_spec(m), path, to),
{
    let keep = useful_states(m);
    let n = m.states.len();
    let q = m.start->Some_0;
    let r = lemma_path_lifted(m, q, path, to);
    lemma_renumbered_path(r.0, keep);
    lemma_trim_states_index(m, keep, r.1 as int, n);
    r
}

/// Where every state is kept, nothing is removed.
proof fn lemma_trim_nothing<W>(r: FstModel<W>, keep: Seq<bool>)
    requires
        r.wf(),
        r.states.len() <= usize::MAX,
        keep.len() == r.states.len(),
        forall|s: int| 0 <= s < keep.len() ==> keep[s],
    ensures
        trimmed(r, keep) == r,
{
    assert forall|s: nat| s <= keep.len() implies kept_below(keep, s) == s by {
        lemma_keep_all(keep, s);
    }
    assert forall|s: nat| s <= r.states.len() implies #[trigger] trim_states(r, keep, s)
        == r.states.take(s as int) by {
        lemma_trim_states_all(r, keep, s);
    }
    assert(r.states.take(r.states.len() as int) =~= r.states);
    if let Some(q) = r.start {
        lemma_keep_all(keep, q as nat);
    }
}

proof fn lemma_keep_all(keep: Seq<bool>, s: nat)
    requires
        s <= keep.len(),
        forall|t: int| 0 <= t < keep.len() ==> keep[t],
    ensures
        kept_below(keep, s) == s,
    decreases s,
{
    if s > 0 {
        lemma_keep_all(keep, (s - 1) as nat);
    }
}

proof fn lemma_trim_trs_all<W>(trs: Seq<Tr<W>>, keep: Seq<bool>)
    requires
        keep.len() <= usize::MAX,
        forall|t: int| 0 <= t < keep.len() ==> keep[t],
        forall|i: int| 0 <= i < trs.len() ==> (#[trigger] trs[i]).nextstate < keep.len(),
    ensures
        trim_trs(trs, keep) == trs,
    decreases trs.len(),
{
    if trs.len() > 0 {
        let init = trs.drop_last();
        assert forall|i: int| 0 <= i < init.len() implies (#[trigger] init[i]).nextstate
            < keep.len() by {
            assert(init[i] == trs[i]);
        }
        lemma_trim_trs_all(init, keep);
        let last = trs[trs.len() - 1];
        lemma_keep_all(keep, last.nextstate as nat);
        assert(trim_trs(trs, keep) =~= trs);
    }
}

proof fn lemma_trim_states_all<W>(r: FstModel<W>, keep: Seq<bool>, s: nat)
    requires
        r.wf(),
        r.states.len() <= usize::MAX,
        keep.len() == r.states.len(),
        s <= r.states.len(),
        forall|t: int| 0 <= t < keep.len() ==> keep[t],
    ensures
        trim_states(r, keep, s) == r.states.take(s as int),
    decreases s,
{
    if s > 0 {
        lemma_trim_states_all(r, keep, (s - 1) as nat);
        let trs = r.states[s - 1].trs;
        assert forall|i: int| 0 <= i < trs.len() implies (#[trigger] trs[i]).nextstate
            < keep.len() by {
            assert(r.has_state(r.states[s - 1].trs[i].nextstate));
        }
        lemma_trim_trs_all(trs, keep);
        assert(trim_states(r, keep, s) =~= r.states.take(s as int));
    } else {
        assert(r.states.take(0) =~= Seq::<StateModel<W>>::empty());
    }
}

/// A trimmed transducer names only states that it has.
proof fn lemma_connect_wf<W>(m: FstModel<W>)
    requires
        m.wf(),
        m.states.len() <= usize::MAX,
    ensures
        connect_spec(m).wf(),
        connect_spec(m).states.len() <= usize::MAX,
{
    let keep = useful_states(m);
    let n = m.states.len();
    let r = connect_spec(m);
    lemma_trim_states_len(m, keep, n);
    lemma_kept_below(keep, n, n);
    if let Some(q) = m.start {
        lemma_kept_below(keep, q as nat, n);
    }
    assert forall|t: int, i: int|
        0 <= t < r.states.len() && 0 <= i < r.states[t].trs.len() implies r.has_state(
        (#[trigger] r.states[t].trs[i]).nextstate,
    ) by {
        let s = lemma_kept_onto(keep, n, t);
        lemma_trim_states_index(m, keep, s, n);
        assert forall|k: int| 0 <= k < m.states[s].trs.len() implies (
        #[trigger] m.states[s].trs[k]).nextstate < keep.len() by {
            assert(m.has_state(m.states[s].trs[k].nextstate));
        }
        lemma_trim_trs(m.states[s].trs, keep);
    }
}

/// Trimming a trimmed transducer changes nothing.
pub proof fn lemma_connect_idempotent<W>(m: FstModel<W>)
    requires
        m.wf(),
        m.states.len() <= usize::MAX,
    ensures
        connect_spec(connect_spec(m)) == connect_spec(m),
{
    let keep = useful_states(m);
    let n = m.states.len();
    let r = connect_spec(m);
    lemma_connect_wf(m);
    lemma_trim_states_len(m, keep, n);
    let again = useful_states(r);
    assert forall|t: int| 0 <= t < again.len() implies again[t] by {
        let s = lemma_kept_onto(keep, n, t);
        let state = s as StateId;
        assert(useful(m, state));
        let q = m.start->Some_0;
        // From the start state to the state.
        let to = choose|to: nat| reaches(m, q, state, to);
        assert(reaches(m, q, q, 0));
        assert(accessible(m, q));
        lemma_path_survives(m, q, state, to);
        assert(r.start == Some(kept_below(keep, q as nat) as StateId));
        assert(accessible(r, t as StateId));
        // From the state to a final state.
        let (fin, from) = choose|fin: StateId, from: nat|
            m.has_state(fin) && m.states[fin as int].final_weight is Some && #[trigger] reaches(
                m,
                state,
                fin,
                from,
            );
        assert(reaches(m, fin, fin, 0));
        assert(coaccessible(m, fin));
        lemma_path_survives(m, state, fin, from);
        lemma_trim_states_index(m, keep, fin as int, n);
        let nfin = kept_below(keep, fin as nat) as StateId;
        assert(r.has_state(nfin) && r.states[nfin as int].final_weight is Some);
        assert(reaches(r, t as StateId, nfin, from));
        assert(coaccessible(r, t as StateId));
    }
    lemma_trim_nothing(r, again);
}

/// Removes the states of `fst` that `keep` does not keep.
pub fn trim<W: Semiring>(fst: &VectorFst<W>, keep: &Vec<bool>) -> (r: VectorFst<W>)
    requires
        fst.wf(),
        keep@.len() == fst@.states.len(),
    ensures
        r.wf(),
        r@ == trimmed(fst@, keep@),
{
    let n = fst.num_states();
    // The new id of each state: the number of kept states below it.
    let mut new_id: Vec<usize> = Vec::with_capacity(n);
    let mut count: usize = 0;
    let mut s: usize = 0;
    while s < n
        invariant
            s <= n,
            n == keep@.len(),
            new_id@.len() == s,
            count == kept_below(keep@, s as nat),
            count <= s,
            forall|t: int| 0 <= t < s ==> new_id@[t] == kept_below(keep@, t as nat),
        decreases n - s,
    {
        new_id.push(count);
        if keep[s] {
            count = count + 1;
        }
        s = s + 1;
    }
    let mut states: Vec<VectorFstState<W>> = Vec::with_capacity(count);
    assert(state_models(states@) =~= trim_states(fst@, keep@, 0));
    let mut s: usize = 0;
    while s < n
        invariant
            s <= n,
            n == keep@.len(),
            n == fst@.states.len(),
            fst.wf(),
            new_id@.len() == n,
            count == kept_below(keep@, n as nat),
            forall|t: int| 0 <= t < n ==> new_id@[t] == kept_below(keep@, t as nat),
            state_models(states@) == trim_states(fst@, keep@, s as nat),
            forall|t: int, i: int|
                0 <= t < states@.len() && 0 <= i < states@[t].trs@.len() ==> (
                #[trigger] states@[t].trs@[i]).nextstate < count,
        decreases n - s,
    {
        if keep[s] {
            let trs = fst.trs(s);
            let mut kept: Vec<Tr<W>> = Vec::new();
            let mut i: usize = 0;
            while i < trs.len()
                invariant
                    i <= trs.len(),
                    s < n,
                    n == keep@.len(),
                    n == fst@.states.len(),
                    fst.wf(),
                    trs@ == fst@.states[s as int].trs,
                    new_id@.len() == n,
                    count == kept_below(keep@, n as nat),
                    forall|t: int| 0 <= t < n ==> new_id@[t] == kept_below(keep@, t as nat),
                    kept@ == trim_trs(trs@.take(i as int), keep@),
                    forall|j: int| 0 <= j < kept@.len() ==> (#[trigger] kept@[j]).nextstate < count,
                decreases trs.len() - i,
            {
                let tr = trs[i];
                assert(trs@.take(i + 1).drop_last() =~= trs@.take(i as int));
                assert(fst@.has_state(fst@.states[s as int].trs[i as int].nextstate));
                if keep[tr.nextstate] {
                    proof {
                        lemma_kept_below(keep@, tr.nextstate as nat, n as nat);
                    }
                    kept.push(Tr::new(tr.ilabel, tr.olabel, tr.weight, new_id[tr.nextstate]));
                }
                i = i + 1;
            }
            assert(trs@.take(i as int) =~= trs@);
            let ghost before = state_models(states@);
            let final_weight = fst.final_weight(s).unwrap();
            states.push(VectorFstState { final_weight, trs: kept });
            assert(state_models(states@) =~= before.push(
                StateModel { final_weight, trs: kept@ },
            ));
        }
        s = s + 1;
    }
    let start = match fst.start() {
        Some(q) => if keep[q] {
            Some(new_id[q])
        } else {
            None
        },
        None => None,
    };
    proof {
        lemma_trim_states_len(fst@, keep@, n as nat);
        let m = FstModel { start, states: state_models(states@) };
        if let Some(q) = fst@.start {
            lemma_kept_below(keep@, q as nat, n as nat);
        }
        assert forall|t: int, i: int|
            0 <= t < m.states.len() && 0 <= i < m.states[t].trs.len() implies m.has_state(
            (#[trigger] m.states[t].trs[i]).nextstate,
        ) by {
            assert(m.states[t].trs[i] == states@[t].trs@[i]);
        }
        assert(m.wf());
        assert(m == trimmed(fst@, keep@));
    }
    match VectorFst::from_parts(states, start) {
        Ok(r) => r,
        Err(_) => VectorFst::new(),
    }
}

/// Trims a transducer: removes the states that lie on no path from the
/// start state to a final state, and the transitions to them. The states
/// that stay keep their order.
pub fn connect<W: Semiring>(fst: &mut VectorFst<W>) -> (r: Result<(), FstError>)
    requires
        old(fst).wf(),
    ensures
        final(fst).wf(),
        r is Ok,
        final(fst)@ == connect_spec(old(fst)@),
{
    let access = accessible_states(fst);
    let coaccess = coaccessible_states(fst);
    let n = fst.num_states();
    let mut keep: Vec<bool> = Vec::with_capacity(n);
    let mut s: usize = 0;
    while s < n
        invariant
            s <= n,
            n == fst@.states.len(),
            access@.len() == n,
            coaccess@.len() == n,
            keep@.len() == s,
            forall|t: int| 0 <= t < s ==> keep@[t] == (access@[t] && coaccess@[t]),
        decreases n - s,
    {
        keep.push(access[s] && coaccess[s]);
        s = s + 1;
    }
    assert(keep@ =~= useful_states(fst@));
    let trimmed_fst = trim(fst, &keep);
    *fst = trimmed_fst;
    Ok(())
}

} // verus!
