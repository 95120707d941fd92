//! Rewriting a transducer transition by transition into another semiring.

use vstd::prelude::*;

use crate::error::FstError;
use crate::fst_impls::{FstModel, StateModel, VectorFst};
use crate::semirings::Semiring;
use crate::tr::Tr;
use crate::{Label, StateId, EPS_LABEL};

verus! {

/// The final weight of a state, seen as a transition into a notional
/// superfinal state.
#[derive(Clone, Copy, Debug, PartialEq, Eq, Hash)]
pub struct FinalArc<W> {
    pub ilabel: Label,
    pub olabel: Label,
    pub weight: W,
}

/// How the mapped final weights are laid out in the result.
#[derive(Clone, Copy, Debug, PartialEq, Eq, Structural, Hash)]
pub enum MapFinalAction {
    /// A mapped final weight stays a final weight; no superfinal state is made.
    MapNoSuperfinal,
    /// A superfinal state is made when a mapped final weight needs one.
    MapAllowSuperfinal,
    /// The result has a superfinal state, the only final one.
    MapRequireSuperfinal,
}

/// A rule that rewrites transitions and final weights from the semiring `SI`
/// into the semiring `SO`.
///
/// A converter may keep state between calls: the specification functions give
/// the result of a call together with the converter after it.
pub trait WeightConverter<SI: Semiring, SO: Semiring>: Sized {
    spec fn arc_map_spec(self, arc: Tr<SI>) -> (Result<Tr<SO>, FstError>, Self);

    spec fn final_arc_map_spec(self, final_arc: FinalArc<SI>) -> (
        Result<FinalArc<SO>, FstError>,
        Self,
    );

    spec fn final_action_spec(self) -> MapFinalAction;

    fn arc_map(&mut self, arc: &Tr<SI>) -> (r: Result<Tr<SO>, FstError>)
        ensures
            (r, *final(self)) == old(self).arc_map_spec(*arc),
    ;

    fn final_arc_map(&mut self, final_arc: &FinalArc<SI>) -> (r: Result<FinalArc<SO>, FstError>)
        ensures
            (r, *final(self)) == old(self).final_arc_map_spec(*final_arc),
    ;

    fn final_action(&self) -> (a: MapFinalAction)
        ensures
            a == self.final_action_spec(),
    ;
}

/// The converter that carries each weight over by its value, between two
/// semirings on the same carrier.
#[derive(Clone, Copy, Debug, PartialEq, Eq, Hash, Default)]
pub struct SimpleWeightConverter {}

impl<T, SI: Semiring<Type = T>, SO: Semiring<Type = T>> WeightConverter<
    SI,
    SO,
> for SimpleWeightConverter {
    open spec fn arc_map_spec(self, arc: Tr<SI>) -> (Result<Tr<SO>, FstError>, Self) {
        (
            Ok(
                Tr {
                    ilabel: arc.ilabel,
                    olabel: arc.olabel,
                    weight: SO::new_spec(arc.weight.value_spec()),
                    nextstate: arc.nextstate,
                },
            ),
            self,
        )
    }

    open spec fn final_arc_map_spec(self, final_arc: FinalArc<SI>) -> (
        Result<FinalArc<SO>, FstError>,
        Self,
    ) {
        (
            Ok(
                FinalArc {
                    ilabel: final_arc.ilabel,
                    olabel: final_arc.olabel,
                    weight: SO::new_spec(final_arc.weight.value_spec()),
                },
            ),
            self,
        )
    }

    open spec fn final_action_spec(self) -> MapFinalAction {
        MapFinalAction::MapNoSuperfinal
    }

    fn arc_map(&mut self, arc: &Tr<SI>) -> (r: Result<Tr<SO>, FstError>) {
        Ok(Tr::new(arc.ilabel, arc.olabel, SO::new(arc.weight.value()), arc.nextstate))
    }

    fn final_arc_map(&mut self, final_arc: &FinalArc<SI>) -> (r: Result<
        FinalArc<SO>,
        FstError,
    >) {
        Ok(
            FinalArc {
                ilabel: final_arc.ilabel,
                olabel: final_arc.olabel,
                weight: SO::new(final_arc.weight.value()),
            },
        )
    }

    fn final_action(&self) -> (a: MapFinalAction) {
        MapFinalAction::MapNoSuperfinal
    }
}

/// A conversion under way: the result so far, the converter as the calls made
/// so far have left it, the superfinal state if one was made, and the error
/// that stopped the conversion, if one did.
pub ghost struct Conversion<SO, M> {
    pub out: FstModel<SO>,
    pub mapper: M,
    pub superfinal: Option<StateId>,
    pub error: Option<FstError>,
}

/// The transducer `out` with `tr` appended to the transitions of `state`.
pub open spec fn push_tr<W>(out: FstModel<W>, state: StateId, tr: Tr<W>) -> FstModel<W> {
    out.with_state(
        state,
        StateModel { trs: out.states[state as int].trs.push(tr), ..out.states[state as int] },
    )
}

/// The transducer `out` with the final weight of `state` replaced.
pub open spec fn with_final<W>(out: FstModel<W>, state: StateId, w: Option<W>) -> FstModel<W> {
    out.with_state(state, StateModel { final_weight: w, ..out.states[state as int] })
}

/// The transducer `out` with one more state, final with weight one.
pub open spec fn push_superfinal<W: Semiring>(out: FstModel<W>) -> FstModel<W> {
    FstModel {
        states: out.states.push(
            StateModel { final_weight: Some(W::one_spec()), trs: Seq::empty() },
        ),
        ..out
    }
}

/// Where the mapped final weight `mapped` of `state` goes: the result, the
/// superfinal state after it, and the error if the rule refuses it.
///
/// `final_arc` is the final weight before the mapping. Without a superfinal
/// state its labels must be empty. Where one is allowed, labels that are not
/// empty turn the final weight into a transition to the superfinal state,
/// which is made on first use. Where one is required, every final weight but
/// an unlabelled zero becomes such a transition, and the state is not final.
pub open spec fn final_action_spec<SI: Semiring, SO: Semiring>(
    out: FstModel<SO>,
    state: StateId,
    final_arc: FinalArc<SI>,
    mapped: FinalArc<SO>,
    superfinal: Option<StateId>,
    action: MapFinalAction,
) -> (FstModel<SO>, Option<StateId>, Option<FstError>) {
    let labelled = final_arc.ilabel != EPS_LABEL || final_arc.olabel != EPS_LABEL;
    match action {
        MapFinalAction::MapNoSuperfinal => {
            if labelled {
                (
                    out,
                    superfinal,
                    Some(
                        FstError::LabelOutOfRange(
                            if final_arc.ilabel != EPS_LABEL {
                                final_arc.ilabel
                            } else {
                                final_arc.olabel
                            },
                        ),
                    ),
                )
            } else {
                (with_final(out, state, Some(mapped.weight)), superfinal, None)
            }
        },
        MapFinalAction::MapAllowSuperfinal => {
            if labelled {
                let out1 = if superfinal is None {
                    push_superfinal(out)
                } else {
                    out
                };
                let sf = if superfinal is None {
                    out.states.len() as StateId
                } else {
                    superfinal->Some_0
                };
                let tr = Tr {
                    ilabel: mapped.ilabel,
                    olabel: mapped.olabel,
                    weight: mapped.weight,
                    nextstate: sf,
                };
                (with_final(push_tr(out1, state, tr), state, None), Some(sf), None)
            } else {
                (with_final(out, state, Some(mapped.weight)), superfinal, None)
            }
        },
        MapFinalAction::MapRequireSuperfinal => {
            let tr = Tr {
                ilabel: mapped.ilabel,
                olabel: mapped.olabel,
                weight: mapped.weight,
                nextstate: superfinal->Some_0,
            };
            if labelled || final_arc.weight != SI::zero_spec() {
                (with_final(push_tr(out, state, tr), state, None), superfinal, None)
            } else {
                (with_final(out, state, None), superfinal, None)
            }
        },
    }
}

/// The conversion `c` after the first `k` of `trs` were mapped, one after the
/// other, and appended to the transitions of `state`. It stops at the first
/// transition that the converter refuses, or whose image leads to no state of
/// the result.
pub open spec fn convert_trs<SI: Semiring, SO: Semiring, M: WeightConverter<SI, SO>>(
    c: Conversion<SO, M>,
    state: StateId,
    trs: Seq<Tr<SI>>,
    k: nat,
) -> Conversion<SO, M>
    decreases k,
{
    if k == 0 {
        c
    } else {
        let c1 = convert_trs(c, state, trs, (k - 1) as nat);
        if c1.error is Some {
            c1
        } else {
            let (r, m) = c1.mapper.arc_map_spec(trs[k - 1]);
            match r {
                Err(e) => Conversion { mapper: m, error: Some(e), ..c1 },
                Ok(tr) => if c1.out.has_state(tr.nextstate) {
                    Conversion { out: push_tr(c1.out, state, tr), mapper: m, ..c1 }
                } else {
                    Conversion {
                        mapper: m,
                        error: Some(FstError::InvalidState(tr.nextstate)),
                        ..c1
                    }
                },
            }
        }
    }
}

/// The conversion `c` after the state `state` of `fst_in` was converted: first
/// its transitions, then its final weight.
pub open spec fn convert_state<SI: Semiring, SO: Semiring, M: WeightConverter<SI, SO>>(
    c: Conversion<SO, M>,
    fst_in: FstModel<SI>,
    state: StateId,
    action: MapFinalAction,
) -> Conversion<SO, M> {
    let st = fst_in.states[state as int];
    let c1 = convert_trs(c, state, st.trs, st.trs.len());
    if c1.error is Some {
        c1
    } else {
        match st.final_weight {
            None => c1,
            Some(w) => {
                let final_arc = FinalArc { ilabel: EPS_LABEL, olabel: EPS_LABEL, weight: w };
                let (r, m) = c1.mapper.final_arc_map_spec(final_arc);
                match r {
                    Err(e) => Conversion { mapper: m, error: Some(e), ..c1 },
                    Ok(mapped) => {
                        let (out, sf, err) = final_action_spec(
                            c1.out,
                            state,
                            final_arc,
                            mapped,
                            c1.superfinal,
                            action,
                        );
                        Conversion { out, mapper: m, superfinal: sf, error: err }
                    },
                }
            },
        }
    }
}

/// The conversion `c` after the first `k` states of `fst_in` were converted in
/// the order of their ids, up to the first error.
pub open spec fn convert_states<SI: Semiring, SO: Semiring, M: WeightConverter<SI, SO>>(
    c: Conversion<SO, M>,
    fst_in: FstModel<SI>,
    action: MapFinalAction,
    k: nat,
) -> Conversion<SO, M>
    decreases k,
{
    if k == 0 {
        c
    } else {
        let c1 = convert_states(c, fst_in, action, (k - 1) as nat);
        if c1.error is Some {
            c1
        } else {
            convert_state(c1, fst_in, (k - 1) as StateId, action)
        }
    }
}

/// The conversion before any state is converted: as many states as `fst_in`
/// has, none final and none with a transition, the same start state, and the
/// superfinal state after them where the rule requires one.
pub open spec fn conversion_start<SI: Semiring, SO: Semiring, M: WeightConverter<SI, SO>>(
    fst_in: FstModel<SI>,
    mapper: M,
) -> Conversion<SO, M> {
    let blank = FstModel {
        start: fst_in.start,
        states: Seq::new(fst_in.states.len(), |i: int| StateModel::<SO>::empty()),
    };
    if mapper.final_action_spec() == MapFinalAction::MapRequireSuperfinal {
        Conversion {
            out: push_superfinal(blank),
            mapper,
            superfinal: Some(fst_in.states.len() as StateId),
            error: None,
        }
    } else {
        Conversion { out: blank, mapper, superfinal: None, error: None }
    }
}

/// What `weight_convert` computes from `fst_in` with the converter `mapper`.
/// A transducer without start state is converted to the empty transducer and
/// the converter is not called.
pub open spec fn weight_convert_spec<SI: Semiring, SO: Semiring, M: WeightConverter<SI, SO>>(
    fst_in: FstModel<SI>,
    mapper: M,
) -> Conversion<SO, M> {
    if fst_in.start is None {
        Conversion { out: FstModel::empty(), mapper, superfinal: None, error: None }
    } else {
        convert_states(
            conversion_start(fst_in, mapper),
            fst_in,
            mapper.final_action_spec(),
            fst_in.states.len(),
        )
    }
}

/// Lays the mapped final weight `mapped` of `state` out in `fst_out`, as the
/// rule `action` says, and returns the superfinal state after that.
pub fn apply_final_action<SI: Semiring, SO: Semiring>(
    fst_out: &mut VectorFst<SO>,
    state: StateId,
    final_arc: &FinalArc<SI>,
    mapped: FinalArc<SO>,
    superfinal: Option<StateId>,
    action: MapFinalAction,
) -> (r: Result<Option<StateId>, FstError>)
    requires
        old(fst_out).wf(),
        old(fst_out)@.has_state(state),
        superfinal matches Some(sf) ==> old(fst_out)@.has_state(sf),
        action == MapFinalAction::MapRequireSuperfinal ==> superfinal is Some,
    ensures
        final(fst_out).wf(),
        ({
            let (out, sf, err) = final_action_spec(
                old(fst_out)@,
                state,
                *final_arc,
                mapped,
                superfinal,
                action,
            );
            &&& final(fst_out)@ == out
            &&& match err {
                Some(e) => r == Err::<Option<StateId>, FstError>(e),
                None => r == Ok::<Option<StateId>, FstError>(sf),
            }
        }),
{
    let labelled = final_arc.ilabel != EPS_LABEL || final_arc.olabel != EPS_LABEL;
    match action {
        MapFinalAction::MapNoSuperfinal => {
            if labelled {
                if final_arc.ilabel != EPS_LABEL {
                    return Err(FstError::LabelOutOfRange(final_arc.ilabel));
                }
                return Err(FstError::LabelOutOfRange(final_arc.olabel));
            }
            let _ = fst_out.set_final(state, mapped.weight);
            Ok(superfinal)
        },
        MapFinalAction::MapAllowSuperfinal => {
            if labelled {
                let sf = match superfinal {
                    Some(sf) => sf,
                    None => {
                        let sf = fst_out.add_state();
                        let _ = fst_out.set_final(sf, SO::one());
                        assert(fst_out@.states =~= push_superfinal(old(fst_out)@).states);
                        sf
                    },
                };
                let _ = fst_out.add_tr(
                    state,
                    Tr::new(mapped.ilabel, mapped.olabel, mapped.weight, sf),
                );
                let _ = fst_out.delete_final_weight(state);
                Ok(Some(sf))
            } else {
                let _ = fst_out.set_final(state, mapped.weight);
                Ok(superfinal)
            }
        },
        MapFinalAction::MapRequireSuperfinal => {
            if labelled || !final_arc.weight.is_zero() {
                let _ = fst_out.add_tr(
                    state,
                    Tr::new(mapped.ilabel, mapped.olabel, mapped.weight, superfinal.unwrap()),
                );
            }
            let _ = fst_out.delete_final_weight(state);
            Ok(superfinal)
        },
    }
}

/// Once a conversion has stopped on an error, further transitions leave it
/// as it is.
proof fn lemma_convert_trs_stops<SI: Semiring, SO: Semiring, M: WeightConverter<SI, SO>>(
    c: Conversion<SO, M>,
    state: StateId,
    trs: Seq<Tr<SI>>,
    k: nat,
    k2: nat,
)
    requires
        k <= k2,
        convert_trs(c, state, trs, k).error is Some,
    ensures
        convert_trs(c, state, trs, k2) == convert_trs(c, state, trs, k),
    decreases k2,
{
    if k < k2 {
        lemma_convert_trs_stops(c, state, trs, k, (k2 - 1) as nat);
    }
}

/// Once a conversion has stopped on an error, further states leave it as it
/// is.
proof fn lemma_convert_states_stops<SI: Semiring, SO: Semiring, M: WeightConverter<SI, SO>>(
    c: Conversion<SO, M>,
    fst_in: FstModel<SI>,
    action: MapFinalAction,
    k: nat,
    k2: nat,
)
    requires
        k <= k2,
        convert_states(c, fst_in, action, k).error is Some,
    ensures
        convert_states(c, fst_in, action, k2) == convert_states(c, fst_in, action, k),
    decreases k2,
{
    if k < k2 {
        lemma_convert_states_stops(c, fst_in, action, k, (k2 - 1) as nat);
    }
}

/// Converts `fst_in` into the semiring `SO`: the result has the states of
/// `fst_in`, each transition and each final weight as `mapper` rewrites it,
/// the states taken in the order of their ids, the transitions of a state
/// before its final weight. The first error ends the conversion.
pub fn weight_convert<SI: Semiring, SO: Semiring, M: WeightConverter<SI, SO>>(
    fst_in: &VectorFst<SI>,
    mapper: &mut M,
) -> (r: Result<VectorFst<SO>, FstError>)
    requires
        fst_in.wf(),
    ensures
        ({
            let c = weight_convert_spec::<SI, SO, M>(fst_in@, *old(mapper));
            &&& *final(mapper) == c.mapper
            &&& match c.error {
                Some(e) => r == Err::<VectorFst<SO>, FstError>(e),
                None => r is Ok && r->Ok_0.wf() && r->Ok_0@ == c.out,
            }
        }),
{
    let mut fst_out = VectorFst::<SO>::new();
    let final_action = mapper.final_action();

    // Empty FST.
    let start_state = match fst_in.start() {
        None => {
            return Ok(fst_out);
        },
        Some(start_state) => start_state,
    };

    // Reserve enough space for all the states to avoid re-allocations.
    let n = fst_in.num_states();
    let mut num_states_needed = n;
    if !(final_action == MapFinalAction::MapNoSuperfinal) && n < usize::MAX {
        num_states_needed = n + 1;
    }
    fst_out.reserve_states(num_states_needed);

    // Add all the states from the input fst to the output fst.
    fst_out.add_states(n);

    // Set superfinal states as final.
    let mut superfinal: Option<StateId> = None;
    if final_action == MapFinalAction::MapRequireSuperfinal {
        let sf = fst_out.add_state();
        let _ = fst_out.set_final(sf, SO::one());
        superfinal = Some(sf);
    }
    let _ = fst_out.set_start(start_state);

    let ghost c0 = conversion_start::<SI, SO, M>(fst_in@, *old(mapper));
    assert(fst_out@.states =~= c0.out.states);

    let mut state: usize = 0;
    while state < n
        invariant
            fst_in.wf(),
            fst_out.wf(),
            n == fst_in@.states.len(),
            state <= n,
            n <= fst_out@.states.len(),
            superfinal matches Some(sf) ==> fst_out@.has_state(sf),
            final_action == MapFinalAction::MapRequireSuperfinal ==> superfinal is Some,
            final_action == old(mapper).final_action_spec(),
            fst_in@.start is Some,
            c0 == conversion_start::<SI, SO, M>(fst_in@, *old(mapper)),
            convert_states(c0, fst_in@, final_action, state as nat) == (Conversion {
                out: fst_out@,
                mapper: *mapper,
                superfinal,
                error: None,
            }),
        decreases n - state,
    {
        let ghost c1 = convert_states(c0, fst_in@, final_action, state as nat);
        let trs = fst_in.trs(state);
        let _ = fst_out.reserve_trs(state, trs.len());
        let mut i: usize = 0;
        while i < trs.len()
            invariant
                fst_in.wf(),
                fst_out.wf(),
                n == fst_in@.states.len(),
                state < n,
                n <= fst_out@.states.len(),
                i <= trs.len(),
                trs@ == fst_in@.states[state as int].trs,
                superfinal matches Some(sf) ==> fst_out@.has_state(sf),
                fst_in@.start is Some,
                c0 == conversion_start::<SI, SO, M>(fst_in@, *old(mapper)),
                final_action == old(mapper).final_action_spec(),
                c1 == convert_states(c0, fst_in@, final_action, state as nat),
                c1.error is None,
                c1.superfinal == superfinal,
                convert_trs(c1, state, trs@, i as nat) == (Conversion {
                    out: fst_out@,
                    mapper: *mapper,
                    superfinal,
                    error: None,
                }),
            decreases trs.len() - i,
        {
            let mapped = mapper.arc_map(&trs[i]);
            let added = match mapped {
                Ok(tr) => fst_out.add_tr(state, tr),
                Err(e) => Err(e),
            };
            if let Err(e) = added {
                proof {
                    let stopped = convert_trs(c1, state, trs@, (i + 1) as nat);
                    assert(stopped.error == Some(e));
                    lemma_convert_trs_stops(c1, state, trs@, (i + 1) as nat, trs@.len());
                    assert(convert_state(c1, fst_in@, state, final_action) == stopped);
                    assert(convert_states(c0, fst_in@, final_action, (state + 1) as nat)
                        == stopped);
                    lemma_convert_states_stops(
                        c0,
                        fst_in@,
                        final_action,
                        (state + 1) as nat,
                        n as nat,
                    );
                }
                return Err(e);
            }
            i = i + 1;
        }
        if let Some(w) = fst_in.final_weight(state).unwrap() {
            let final_arc = FinalArc { ilabel: EPS_LABEL, olabel: EPS_LABEL, weight: w };
            let placed = match mapper.final_arc_map(&final_arc) {
                Ok(mapped) => apply_final_action(
                    &mut fst_out,
                    state,
                    &final_arc,
                    mapped,
                    superfinal,
                    final_action,
                ),
                Err(e) => Err(e),
            };
            match placed {
                Ok(sf) => {
                    superfinal = sf;
                },
                Err(e) => {
                    proof {
                        let stopped = convert_state(c1, fst_in@, state, final_action);
                        assert(stopped.error == Some(e));
                        assert(convert_states(c0, fst_in@, final_action, (state + 1) as nat)
                            == stopped);
                        lemma_convert_states_stops(
                            c0,
                            fst_in@,
                            final_action,
                            (state + 1) as nat,
                            n as nat,
                        );
                    }
                    return Err(e);
                },
            }
        }
        state = state + 1;
    }
    Ok(fst_out)
}

} // verus!
