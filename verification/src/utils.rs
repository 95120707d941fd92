//! Small transducers.

use vstd::prelude::*;

use crate::fst_impls::{FstModel, StateModel, VectorFst};
use crate::semirings::Semiring;
use crate::tr::Tr;
use crate::{Label, StateId};

verus! {

/// The state `s` of the transducer that accepts the string `labels` with the
/// weight `weight`: one transition to the next state, or, after the last
/// label, final.
pub open spec fn acceptor_state<W: Semiring>(labels: Seq<Label>, weight: W, s: int) -> StateModel<
    W,
> {
    if s < labels.len() {
        StateModel {
            final_weight: None,
            trs: seq![
                Tr {
                    ilabel: labels[s],
                    olabel: labels[s],
                    weight: W::one_spec(),
                    nextstate: (s + 1) as StateId,
                },
            ],
        }
    } else {
        StateModel { final_weight: Some(weight), trs: Seq::empty() }
    }
}

/// The transducer that accepts the string `labels`, and nothing else, with
/// the weight `weight`.
pub open spec fn acceptor_spec<W: Semiring>(labels: Seq<Label>, weight: W) -> FstModel<W> {
    FstModel {
        start: Some(0),
        states: Seq::new(labels.len() + 1, |s: int| acceptor_state(labels, weight, s)),
    }
}

/// Turns a list of labels into a linear transducer that accepts it with the
/// weight `weight`.
pub fn acceptor<W: Semiring>(labels: &[Label], weight: W) -> (fst: VectorFst<W>)
    requires
        labels@.len() < usize::MAX,
    ensures
        fst.wf(),
        fst@ == acceptor_spec(labels@, weight),
{
    let n = labels.len();
    let mut fst = VectorFst::<W>::new();
    fst.add_states(n + 1);
    let _ = fst.set_start(0);
    let mut state_cour: usize = 0;
    while state_cour < n
        invariant
            state_cour <= n,
            n == labels@.len(),
            n < usize::MAX,
            fst.wf(),
            fst@.start == Some(0usize),
            fst@.states.len() == n + 1,
            forall|s: int|
                0 <= s < state_cour ==> #[trigger] fst@.states[s] == acceptor_state(
                    labels@,
                    weight,
                    s,
                ),
            forall|s: int|
                state_cour <= s <= n ==> #[trigger] fst@.states[s] == StateModel::<W>::empty(),
        decreases n - state_cour,
    {
        let l = labels[state_cour];
        let _ = fst.add_tr(state_cour, Tr::new(l, l, W::one(), state_cour + 1));
        assert(fst@.states[state_cour as int].trs =~= acceptor_state(
            labels@,
            weight,
            state_cour as int,
        ).trs);
        state_cour = state_cour + 1;
    }
    let _ = fst.set_final(state_cour, weight);
    assert(fst@.states =~= acceptor_spec(labels@, weight).states);
    fst
}

} // verus!
