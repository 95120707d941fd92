//! Reversing a transducer.

use vstd::prelude::*;

use crate::error::FstError;
use crate::fst_impls::{FstModel, StateModel, VectorFst};
use crate::semirings::Semiring;
use crate::tr::Tr;
use crate::{StateId, EPS_LABEL};

verus! {

/// The transitions that leave the new start state, found in the first `s`
/// states of `m`: one for each final state, on the empty string, with the
/// final weight read backwards, to the state moved up by one.
pub open spec fn from_finals<W: Semiring>(m: FstModel<W>, s: nat) -> Seq<Tr<W>>
    decreases s,
{
    if s == 0 {
        Seq::empty()
    } else {
        let rest = from_finals(m, (s - 1) as nat);
        match m.states[s - 1].final_weight {
            Some(w) => rest.push(
                Tr {
                    ilabel: EPS_LABEL,
                    olabel: EPS_LABEL,
                    weight: w.reverse_spec(),
                    nextstate: s as StateId,
                },
            ),
            None => rest,
        }
    }
}

/// The first `i` transitions of `trs`, which leave the state `s`, that lead
/// to `t`, each turned round: with its weight read backwards, to `s` moved
/// up by one.
pub open spec fn turned<W: Semiring>(trs: Seq<Tr<W>>, s: StateId, t: StateId, i: nat) -> Seq<Tr<W>>
    decreases i,
{
    if i == 0 {
        Seq::empty()
    } else {
        let rest = turned(trs, s, t, (i - 1) as nat);
        let tr = trs[i - 1];
        if tr.nextstate == t {
            rest.push(
                Tr {
                    ilabel: tr.ilabel,
                    olabel: tr.olabel,
                    weight: tr.weight.reverse_spec(),
                    nextstate: (s + 1) as StateId,
                },
            )
        } else {
            rest
        }
    }
}

/// The transitions of the first `s` states of `m` that lead to `t`, each
/// turned round, those of a state with a smaller id first.
pub open spec fn into<W: Semiring>(m: FstModel<W>, t: StateId, s: nat) -> Seq<Tr<W>>
    decreases s,
{
    if s == 0 {
        Seq::empty()
    } else {
        into(m, t, (s - 1) as nat) + turned(
            m.states[s - 1].trs,
            (s - 1) as StateId,
            t,
            m.states[s - 1].trs.len(),
        )
    }
}

/// The state `id` of the reverse of `m`. The state 0 is the new start
/// state, from which a transition leads to each final state of `m`; the
/// state `t + 1` is the state `t` of `m`, final if `t` is the start state of
/// `m`, with the transitions of `m` into `t` turned round.
pub open spec fn reverse_state<W: Semiring>(m: FstModel<W>, id: int) -> StateModel<W> {
    if id == 0 {
        StateModel { final_weight: None, trs: from_finals(m, m.states.len()) }
    } else {
        StateModel {
            final_weight: if m.start == Some((id - 1) as StateId) {
                Some(W::one_spec())
            } else {
                None
            },
            trs: into(m, (id - 1) as StateId, m.states.len()),
        }
    }
}

/// The reverse of `m`: if `m` transduces a string x to y with weight a, its
/// reverse transduces the reverse of x to the reverse of y with the weight
/// a read backwards.
pub open spec fn reverse_spec<W: Semiring>(m: FstModel<W>) -> FstModel<W> {
    FstModel {
        start: Some(0),
        states: Seq::new(m.states.len() + 1, |id: int| reverse_state(m, id)),
    }
}

/// Reverses a transducer. A transducer with as many states as can be
/// counted is refused, for the result has one more.
pub fn reverse<W: Semiring>(ifst: &VectorFst<W>) -> (r: Result<VectorFst<W>, FstError>)
    requires
        ifst.wf(),
    ensures
        ifst@.states.len() < usize::MAX ==> r is Ok && r->Ok_0.wf() && r->Ok_0@ == reverse_spec(
            ifst@,
        ),
        ifst@.states.len() >= usize::MAX ==> r == Err::<VectorFst<W>, FstError>(
            FstError::InvalidState(usize::MAX),
        ),
{
    let n = ifst.num_states();
    if n == usize::MAX {
        return Err(FstError::InvalidState(usize::MAX));
    }
    let mut ofst = VectorFst::<W>::new();
    ofst.add_states(n + 1);
    let _ = ofst.set_start(0);
    let ghost m = ifst@;
    let mut is: usize = 0;
    while is < n
        invariant
            is <= n,
            n < usize::MAX,
            ifst.wf(),
            m == ifst@,
            n == m.states.len(),
            ofst.wf(),
            ofst@.start == Some(0usize),
            ofst@.states.len() == n + 1,
            ofst@.states[0] == (StateModel {
                final_weight: None,
                trs: from_finals(m, is as nat),
            }),
            forall|t: int|
                0 <= t < n ==> #[trigger] ofst@.states[t + 1] == (StateModel {
                    final_weight: if t < is && m.start == Some(t as StateId) {
                        Some(W::one_spec())
                    } else {
                        None
                    },
                    trs: into(m, t as StateId, is as nat),
                }),
        decreases n - is,
    {
        let os = is + 1;
        if let Some(start) = ifst.start() {
            if start == is {
                let _ = ofst.set_final(os, W::one());
            }
        }
        if let Some(weight) = ifst.final_weight(is).unwrap() {
            let _ = ofst.add_tr(0, Tr::new(EPS_LABEL, EPS_LABEL, weight.reverse(), os));
        }
        let ghost head = ofst@;
        let trs = ifst.trs(is);
        let mut i: usize = 0;
        while i < trs.len()
            invariant
                i <= trs.len(),
                is < n,
                n < usize::MAX,
                os == is + 1,
                ifst.wf(),
                m == ifst@,
                n == m.states.len(),
                trs@ == m.states[is as int].trs,
                ofst.wf(),
                ofst@.start == Some(0usize),
                ofst@.states.len() == n + 1,
                ofst@.states[0] == head.states[0],
                forall|t: int|
                    0 <= t < n ==> #[trigger] ofst@.states[t + 1] == (StateModel {
                        final_weight: head.states[t + 1].final_weight,
                        trs: head.states[t + 1].trs + turned(trs@, is, t as StateId, i as nat),
                    }),
            decreases trs.len() - i,
        {
            let iarc = trs[i];
            let ghost before = ofst@;
            assert(m.has_state(m.states[is as int].trs[i as int].nextstate));
            let nos = iarc.nextstate + 1;
            let _ = ofst.add_tr(nos, Tr::new(iarc.ilabel, iarc.olabel, iarc.weight.reverse(), os));
            i = i + 1;
            proof {
                assert forall|t: int| 0 <= t < n implies #[trigger] ofst@.states[t + 1]
                    == (StateModel {
                    final_weight: head.states[t + 1].final_weight,
                    trs: head.states[t + 1].trs + turned(trs@, is, t as StateId, i as nat),
                }) by {
                    let was = before.states[t + 1];
                    if t == iarc.nextstate {
                        assert(ofst@.states[t + 1].trs =~= head.states[t + 1].trs + turned(
                            trs@,
                            is,
                            t as StateId,
                            i as nat,
                        ));
                    } else {
                        assert(ofst@.states[t + 1] == was);
                    }
                }
            }
        }
        proof {
            assert forall|t: int| 0 <= t < n implies #[trigger] ofst@.states[t + 1]
                == (StateModel {
                final_weight: if t < is + 1 && m.start == Some(t as StateId) {
                    Some(W::one_spec())
                } else {
                    None
                },
                trs: into(m, t as StateId, (is + 1) as nat),
            }) by {
                let _ = head.states[t + 1];
                assert(head.states[t + 1].trs + turned(trs@, is, t as StateId, trs@.len())
                    =~= into(m, t as StateId, (is + 1) as nat));
            }
        }
        is = is + 1;
    }
    proof {
        assert forall|id: int| 0 <= id < n + 1 implies ofst@.states[id] == reverse_state(
            m,
            id,
        ) by {
            if id > 0 {
                let _ = ofst@.states[(id - 1) + 1];
            }
        }
        assert(ofst@.states =~= reverse_spec(m).states);
    }
    Ok(ofst)
}

} // verus!
