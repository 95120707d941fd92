use rustfst::algorithms::compose::lookahead_matchers::{IntInterval, IntervalSet};
use rustfst::algorithms::connect;
use rustfst::algorithms::dfs_visit::{dfs_visit, Visitor};
use rustfst::algorithms::queues::{FifoQueue, Queue, QueueType, SccQueue};
use rustfst::algorithms::visitors::{union_vec_isets_unordered, IntervalReachVisitor};
use rustfst::algorithms::{
    apply_final_action, check_permutation, state_sort, weight_convert, AnyTrFilter,
    EpsilonTrFilter, FinalArc, InputEpsilonTrFilter, MapFinalAction, OutputEpsilonTrFilter,
    SimpleWeightConverter, TrFilter,
};
use rustfst::algorithms::reverse;
use rustfst::cmds::{ConnectAlgorithm, ReverseAlgorithm, UnaryFstAlgorithm};
use rustfst::error::FstError;
use rustfst::fst_impls::VectorFst;
use rustfst::semirings::{BooleanWeight, IntegerWeight, Semiring};
use rustfst::tr::Tr;

fn diamond() -> VectorFst<IntegerWeight> {
    // 0 -> 1 -> 3 (final), 0 -> 2 (dead end), 4 -> 3 (not accessible)
    let mut fst = VectorFst::new();
    fst.add_states(5);
    fst.set_start(0).unwrap();
    fst.add_tr(0, Tr::new(1, 1, IntegerWeight::new(2), 1)).unwrap();
    fst.add_tr(0, Tr::new(2, 2, IntegerWeight::new(3), 2)).unwrap();
    fst.add_tr(1, Tr::new(3, 3, IntegerWeight::new(5), 3)).unwrap();
    fst.add_tr(4, Tr::new(4, 4, IntegerWeight::new(7), 3)).unwrap();
    fst.set_final(3, IntegerWeight::new(11)).unwrap();
    fst
}

#[test]
fn test_connect_removes_useless_states() {
    let mut fst = diamond();
    connect(&mut fst).unwrap();
    assert_eq!(fst.num_states(), 3);
    assert_eq!(fst.start(), Some(0));
    assert_eq!(
        fst.get_trs(0).unwrap(),
        &[Tr::new(1, 1, IntegerWeight::new(2), 1)][..]
    );
    assert_eq!(
        fst.get_trs(1).unwrap(),
        &[Tr::new(3, 3, IntegerWeight::new(5), 2)][..]
    );
    assert_eq!(fst.final_weight(2).unwrap(), Some(IntegerWeight::new(11)));
}

#[test]
fn test_connect_is_idempotent_on_values() {
    let mut once = diamond();
    connect(&mut once).unwrap();
    let mut twice = diamond();
    connect(&mut twice).unwrap();
    connect(&mut twice).unwrap();
    assert_eq!(once.num_states(), twice.num_states());
    assert_eq!(once.start(), twice.start());
    for s in 0..once.num_states() {
        assert_eq!(once.get_trs(s).unwrap(), twice.get_trs(s).unwrap());
        assert_eq!(once.final_weight(s).unwrap(), twice.final_weight(s).unwrap());
    }
}

#[test]
fn test_connect_without_final_state_is_empty() {
    let mut fst: VectorFst<IntegerWeight> = VectorFst::new();
    fst.add_states(2);
    fst.set_start(0).unwrap();
    fst.add_tr(0, Tr::new(1, 1, IntegerWeight::one(), 1)).unwrap();
    connect(&mut fst).unwrap();
    assert_eq!(fst.num_states(), 0);
    assert_eq!(fst.start(), None);
}

#[test]
fn test_connect_algorithm_runs_connect() {
    let algorithm = ConnectAlgorithm::new("in.fst", "out.fst");
    assert_eq!(
        UnaryFstAlgorithm::<IntegerWeight>::get_path_in(&algorithm),
        "in.fst"
    );
    assert_eq!(
        UnaryFstAlgorithm::<IntegerWeight>::get_path_out(&algorithm),
        "out.fst"
    );
    assert_eq!(
        UnaryFstAlgorithm::<IntegerWeight>::get_algorithm_name(&algorithm),
        "connect"
    );
    let fst = algorithm.run_algorithm(diamond()).unwrap();
    assert_eq!(fst.num_states(), 3);
}

#[test]
fn test_state_sort_reverses_states() {
    let mut fst: VectorFst<IntegerWeight> = VectorFst::new();
    fst.add_states(3);
    fst.set_start(0).unwrap();
    fst.add_tr(0, Tr::new(1, 1, IntegerWeight::new(2), 1)).unwrap();
    fst.add_tr(1, Tr::new(2, 2, IntegerWeight::new(3), 2)).unwrap();
    fst.set_final(2, IntegerWeight::new(5)).unwrap();
    state_sort(&mut fst, &[2, 1, 0]).unwrap();
    assert_eq!(fst.start(), Some(2));
    assert_eq!(
        fst.get_trs(2).unwrap(),
        &[Tr::new(1, 1, IntegerWeight::new(2), 1)][..]
    );
    assert_eq!(
        fst.get_trs(1).unwrap(),
        &[Tr::new(2, 2, IntegerWeight::new(3), 0)][..]
    );
    assert_eq!(fst.get_trs(0).unwrap().len(), 0);
    assert_eq!(fst.final_weight(0).unwrap(), Some(IntegerWeight::new(5)));
    assert_eq!(fst.final_weight(2).unwrap(), None);
}

#[test]
fn test_state_sort_cycle_of_three() {
    let mut fst: VectorFst<IntegerWeight> = VectorFst::new();
    fst.add_states(3);
    fst.set_start(1).unwrap();
    fst.add_tr(0, Tr::new(1, 1, IntegerWeight::new(1), 0)).unwrap();
    fst.add_tr(1, Tr::new(2, 2, IntegerWeight::new(2), 2)).unwrap();
    fst.set_final(2, IntegerWeight::new(9)).unwrap();
    // 0 -> 1, 1 -> 2, 2 -> 0
    state_sort(&mut fst, &[1, 2, 0]).unwrap();
    assert_eq!(fst.start(), Some(2));
    assert_eq!(
        fst.get_trs(1).unwrap(),
        &[Tr::new(1, 1, IntegerWeight::new(1), 1)][..]
    );
    assert_eq!(
        fst.get_trs(2).unwrap(),
        &[Tr::new(2, 2, IntegerWeight::new(2), 0)][..]
    );
    assert_eq!(fst.final_weight(0).unwrap(), Some(IntegerWeight::new(9)));
}

#[test]
fn test_state_sort_bad_order_size() {
    let mut fst = diamond();
    assert_eq!(
        state_sort(&mut fst, &[0, 1]),
        Err(FstError::InvalidState(2))
    );
    assert_eq!(fst.num_states(), 5);
}

#[test]
fn test_check_permutation() {
    assert!(check_permutation(&[2, 0, 1]));
    assert!(check_permutation(&[]));
    assert!(!check_permutation(&[0, 0, 1]));
    assert!(!check_permutation(&[0, 3, 1]));
}

#[test]
fn test_weight_convert_simple() {
    let mut fst: VectorFst<BooleanWeight> = VectorFst::new();
    fst.add_states(2);
    fst.set_start(0).unwrap();
    fst.add_tr(0, Tr::new(4, 5, BooleanWeight::new(true), 1))
        .unwrap();
    fst.set_final(1, BooleanWeight::new(true)).unwrap();
    let mut mapper = SimpleWeightConverter {};
    let out: VectorFst<BooleanWeight> = weight_convert(&fst, &mut mapper).unwrap();
    assert_eq!(out.num_states(), 2);
    assert_eq!(out.start(), Some(0));
    assert_eq!(
        out.get_trs(0).unwrap(),
        &[Tr::new(4, 5, BooleanWeight::new(true), 1)][..]
    );
    assert_eq!(out.final_weight(1).unwrap(), Some(BooleanWeight::new(true)));
}

#[test]
fn test_weight_convert_without_start_is_empty() {
    let mut fst: VectorFst<BooleanWeight> = VectorFst::new();
    fst.add_states(2);
    let mut mapper = SimpleWeightConverter {};
    let out: VectorFst<BooleanWeight> = weight_convert(&fst, &mut mapper).unwrap();
    assert_eq!(out.num_states(), 0);
    assert_eq!(out.start(), None);
}

#[test]
fn test_tr_filters() {
    let both = Tr::new(0, 0, IntegerWeight::one(), 0);
    let input = Tr::new(0, 3, IntegerWeight::one(), 0);
    let output = Tr::new(3, 0, IntegerWeight::one(), 0);
    let neither = Tr::new(3, 4, IntegerWeight::one(), 0);
    for tr in [both, input, output, neither].iter() {
        assert!(AnyTrFilter {}.keep(tr));
    }
    assert!(EpsilonTrFilter {}.keep(&both));
    assert!(!EpsilonTrFilter {}.keep(&input));
    assert!(!EpsilonTrFilter {}.keep(&output));
    assert!(InputEpsilonTrFilter {}.keep(&input));
    assert!(!InputEpsilonTrFilter {}.keep(&output));
    assert!(OutputEpsilonTrFilter {}.keep(&output));
    assert!(!OutputEpsilonTrFilter {}.keep(&neither));
}

#[test]
fn test_fifo_queue() {
    let mut queue = FifoQueue::new();
    assert!(queue.is_empty());
    assert_eq!(queue.head(), None);
    queue.enqueue(3);
    queue.enqueue(1);
    assert_eq!(queue.head(), Some(3));
    queue.dequeue();
    assert_eq!(queue.head(), Some(1));
    queue.update(1);
    queue.clear();
    assert!(queue.is_empty());
    assert_eq!(queue.queue_type(), QueueType::FifoQueue);
}

fn scc_queue() -> SccQueue {
    let queues: Vec<Box<dyn Queue>> = vec![
        Box::new(FifoQueue::new()),
        Box::new(FifoQueue::new()),
        Box::new(FifoQueue::new()),
        Box::new(FifoQueue::new()),
    ];
    // States 0 and 1 are in the component 1, the state 2 in 3, the state 3 in 0.
    SccQueue::new(queues, vec![1, 1, 3, 0])
}

#[test]
fn test_scc_queue_serves_by_component() {
    let mut queue = scc_queue();
    assert!(queue.is_empty());
    queue.enqueue(2);
    queue.enqueue(1);
    queue.enqueue(0);
    queue.enqueue(3);
    assert!(!queue.is_empty());
    assert_eq!(queue.head(), Some(3));
    queue.dequeue();
    assert_eq!(queue.head(), Some(1));
    queue.dequeue();
    assert_eq!(queue.head(), Some(0));
    queue.dequeue();
    assert_eq!(queue.head(), Some(2));
    queue.dequeue();
    assert!(queue.is_empty());
    assert_eq!(queue.head(), None);
    assert_eq!(queue.queue_type(), QueueType::SccQueue);
}

#[test]
fn test_scc_queue_empty_after_lower_component_is_served() {
    let mut queue = scc_queue();
    queue.enqueue(2);
    queue.dequeue();
    queue.enqueue(0);
    assert_eq!(queue.head(), Some(0));
    queue.dequeue();
    assert!(queue.is_empty());
    queue.enqueue(1);
    queue.clear();
    assert!(queue.is_empty());
}

#[test]
fn test_interval_set_normalize_and_member() {
    let mut set = IntervalSet::new();
    let mut other = IntervalSet::new();
    other.intervals.push(IntInterval::new(7, 9));
    other.intervals.push(IntInterval::new(1, 3));
    other.intervals.push(IntInterval::new(3, 5));
    other.intervals.push(IntInterval::new(4, 4));
    set.union(&other);
    set.normalize();
    assert_eq!(
        set.intervals,
        vec![IntInterval::new(1, 5), IntInterval::new(7, 9)]
    );
    assert!(set.member(1));
    assert!(set.member(4));
    assert!(!set.member(5));
    assert!(!set.member(6));
    assert!(set.member(8));
    assert!(!set.member(9));
    assert!(!set.member(0));
}

#[test]
fn test_union_vec_isets_unordered_both_orders() {
    let mut low = IntervalSet::new();
    low.intervals.push(IntInterval::new(1, 2));
    let mut high = IntervalSet::new();
    high.intervals.push(IntInterval::new(5, 6));
    let mut isets = vec![low, high];
    union_vec_isets_unordered(&mut isets, 1, 0);
    assert_eq!(
        isets[1].intervals,
        vec![IntInterval::new(5, 6), IntInterval::new(1, 2)]
    );
    assert_eq!(isets[0].intervals, vec![IntInterval::new(1, 2)]);
    union_vec_isets_unordered(&mut isets, 0, 1);
    assert_eq!(
        isets[0].intervals,
        vec![
            IntInterval::new(1, 2),
            IntInterval::new(5, 6),
            IntInterval::new(1, 2)
        ]
    );
    union_vec_isets_unordered(&mut isets, 0, 0);
    assert_eq!(isets[0].intervals.len(), 3);
}

#[test]
fn test_interval_reach_visitor() {
    // 0 -> 1 (final), 0 -> 2 -> 3 (final), 2 -> 1
    let mut fst: VectorFst<IntegerWeight> = VectorFst::new();
    fst.add_states(4);
    fst.set_start(0).unwrap();
    fst.add_tr(0, Tr::new(1, 1, IntegerWeight::one(), 1)).unwrap();
    fst.add_tr(0, Tr::new(2, 2, IntegerWeight::one(), 2)).unwrap();
    fst.add_tr(2, Tr::new(3, 3, IntegerWeight::one(), 3)).unwrap();
    fst.add_tr(2, Tr::new(4, 4, IntegerWeight::one(), 1)).unwrap();
    fst.set_final(1, IntegerWeight::one()).unwrap();
    fst.set_final(3, IntegerWeight::one()).unwrap();
    let mut visitor = IntervalReachVisitor::new(&fst);
    dfs_visit(&fst, &mut visitor, &AnyTrFilter {}, false);
    assert!(!visitor.error());
    assert_eq!(visitor.state2index()[1], 1);
    assert_eq!(visitor.state2index()[3], 2);
    assert_eq!(visitor.isets()[1].intervals, vec![IntInterval::new(1, 2)]);
    assert_eq!(visitor.isets()[3].intervals, vec![IntInterval::new(2, 3)]);
    assert_eq!(visitor.isets()[2].intervals, vec![IntInterval::new(1, 3)]);
    let mut root = IntervalSet::new();
    root.union(&visitor.isets()[0]);
    root.normalize();
    assert_eq!(root.intervals, vec![IntInterval::new(1, 3)]);
}

#[test]
fn test_interval_reach_visitor_cycle() {
    let mut fst: VectorFst<IntegerWeight> = VectorFst::new();
    fst.add_states(2);
    fst.set_start(0).unwrap();
    fst.add_tr(0, Tr::new(1, 1, IntegerWeight::one(), 1)).unwrap();
    fst.add_tr(1, Tr::new(1, 1, IntegerWeight::one(), 0)).unwrap();
    let mut visitor = IntervalReachVisitor::new(&fst);
    dfs_visit(&fst, &mut visitor, &AnyTrFilter {}, false);
    assert!(visitor.error());
}

#[test]
fn test_reverse() {
    let fst = diamond();
    let reversed = reverse(&fst).unwrap();
    assert_eq!(reversed.num_states(), 6);
    assert_eq!(reversed.start(), Some(0));
    assert_eq!(
        reversed.get_trs(0).unwrap(),
        &[Tr::new(0, 0, IntegerWeight::new(11), 4)][..]
    );
    assert_eq!(reversed.final_weight(1).unwrap(), Some(IntegerWeight::one()));
    assert_eq!(reversed.final_weight(4).unwrap(), None);
    assert_eq!(
        reversed.get_trs(4).unwrap(),
        &[
            Tr::new(3, 3, IntegerWeight::new(5), 2),
            Tr::new(4, 4, IntegerWeight::new(7), 5),
        ][..]
    );
    assert_eq!(
        reversed.get_trs(2).unwrap(),
        &[Tr::new(1, 1, IntegerWeight::new(2), 1)][..]
    );
    assert_eq!(
        reversed.get_trs(3).unwrap(),
        &[Tr::new(2, 2, IntegerWeight::new(3), 1)][..]
    );
    assert_eq!(reversed.get_trs(1).unwrap().len(), 0);
    assert_eq!(IntegerWeight::new(6).reverse(), IntegerWeight::new(6));
    assert_eq!(BooleanWeight::new(true).reverse(), BooleanWeight::new(true));
}

#[test]
fn test_reverse_of_empty_has_start_state() {
    let fst: VectorFst<IntegerWeight> = VectorFst::new();
    let reversed = reverse(&fst).unwrap();
    assert_eq!(reversed.num_states(), 1);
    assert_eq!(reversed.start(), Some(0));
    assert_eq!(reversed.final_weight(0).unwrap(), None);
}

#[test]
fn test_reverse_algorithm_runs_reverse() {
    let algorithm = ReverseAlgorithm::new("a", "b");
    assert_eq!(UnaryFstAlgorithm::<IntegerWeight>::get_path_in(&algorithm), "a");
    assert_eq!(UnaryFstAlgorithm::<IntegerWeight>::get_path_out(&algorithm), "b");
    assert_eq!(
        UnaryFstAlgorithm::<IntegerWeight>::get_algorithm_name(&algorithm),
        "reverse"
    );
    let reversed = algorithm.run_algorithm(diamond()).unwrap();
    assert!(reversed.same(&reverse(&diamond()).unwrap()));
}

#[test]
fn test_final_action_without_superfinal_rejects_labels() {
    let mut out: VectorFst<BooleanWeight> = VectorFst::new();
    out.add_states(1);
    let plain = FinalArc { ilabel: 0, olabel: 0, weight: BooleanWeight::new(true) };
    let input = FinalArc { ilabel: 7, olabel: 0, weight: BooleanWeight::new(true) };
    let output = FinalArc { ilabel: 0, olabel: 9, weight: BooleanWeight::new(true) };
    let action = MapFinalAction::MapNoSuperfinal;
    assert_eq!(
        apply_final_action(&mut out, 0, &input, plain, None, action),
        Err(FstError::LabelOutOfRange(7))
    );
    assert_eq!(
        apply_final_action(&mut out, 0, &output, plain, None, action),
        Err(FstError::LabelOutOfRange(9))
    );
    assert_eq!(out.final_weight(0).unwrap(), None);
    assert_eq!(apply_final_action(&mut out, 0, &plain, plain, None, action), Ok(None));
    assert_eq!(out.final_weight(0).unwrap(), Some(BooleanWeight::new(true)));
}

#[test]
fn test_final_action_with_superfinal_adds_state() {
    let mut out: VectorFst<BooleanWeight> = VectorFst::new();
    out.add_states(1);
    let arc = FinalArc { ilabel: 0, olabel: 0, weight: BooleanWeight::new(true) };
    let mapped = FinalArc { ilabel: 3, olabel: 4, weight: BooleanWeight::new(true) };
    let labelled = FinalArc { ilabel: 3, olabel: 4, weight: BooleanWeight::new(true) };
    let action = MapFinalAction::MapAllowSuperfinal;
    assert_eq!(apply_final_action(&mut out, 0, &labelled, mapped, None, action), Ok(Some(1)));
    assert_eq!(out.num_states(), 2);
    assert_eq!(out.final_weight(0).unwrap(), None);
    assert_eq!(out.final_weight(1).unwrap(), Some(BooleanWeight::new(true)));
    assert_eq!(
        out.get_trs(0).unwrap(),
        &[Tr::new(3, 4, BooleanWeight::new(true), 1)][..]
    );
    assert_eq!(apply_final_action(&mut out, 1, &arc, arc, Some(1), action), Ok(Some(1)));
}

#[test]
fn test_dfs_visit_discovers_what_it_walks() {
    // 0 -> 1 -> 2, and 3 on its own.
    let mut fst: VectorFst<IntegerWeight> = VectorFst::new();
    fst.add_states(4);
    fst.set_start(0).unwrap();
    fst.add_tr(0, Tr::new(1, 1, IntegerWeight::one(), 1)).unwrap();
    fst.add_tr(1, Tr::new(0, 0, IntegerWeight::one(), 2)).unwrap();
    fst.set_final(2, IntegerWeight::one()).unwrap();

    let mut reached = IntervalReachVisitor::new(&fst);
    dfs_visit(&fst, &mut reached, &AnyTrFilter {}, true);
    assert!(!reached.error());
    assert_eq!(reached.isets().len(), 3);
    assert_eq!(reached.isets()[0].intervals, vec![IntInterval::new(1, 2)]);

    let mut all = IntervalReachVisitor::new(&fst);
    dfs_visit(&fst, &mut all, &AnyTrFilter {}, false);
    assert!(!all.error());
    assert_eq!(all.isets().len(), 4);
    assert_eq!(all.isets()[3].intervals.len(), 0);

    // Only the transition from 1 to 2 has the empty string on both sides.
    let mut filtered = IntervalReachVisitor::new(&fst);
    dfs_visit(&fst, &mut filtered, &EpsilonTrFilter {}, true);
    assert!(!filtered.error());
    assert_eq!(filtered.isets().len(), 1);

    let empty: VectorFst<IntegerWeight> = VectorFst::new();
    let mut none = IntervalReachVisitor::new(&empty);
    dfs_visit(&empty, &mut none, &AnyTrFilter {}, false);
    assert_eq!(none.isets().len(), 0);

    // Without a start state nothing is walked.
    let mut lost: VectorFst<IntegerWeight> = VectorFst::new();
    lost.add_states(2);
    let mut unstarted = IntervalReachVisitor::new(&lost);
    dfs_visit(&lost, &mut unstarted, &AnyTrFilter {}, false);
    assert_eq!(unstarted.isets().len(), 0);
}

#[test]
fn test_interval_reach_visitor_makes_room_up_to_the_state() {
    let mut fst: VectorFst<IntegerWeight> = VectorFst::new();
    fst.add_states(4);
    fst.set_start(0).unwrap();
    fst.set_final(2, IntegerWeight::one()).unwrap();
    let mut visitor = IntervalReachVisitor::new(&fst);
    assert!(visitor.init_state(2, 2));
    assert_eq!(visitor.isets().len(), 3);
    assert_eq!(visitor.state2index().len(), 3);
    assert_eq!(visitor.isets()[0].intervals, vec![]);
    assert_eq!(visitor.isets()[1].intervals, vec![]);
    assert_eq!(visitor.isets()[2].intervals, vec![IntInterval::new(1, 2)]);
    assert_eq!(visitor.state2index()[2], 1);
    assert_eq!(visitor.state2index()[0], usize::MAX);
    // A state that is not final gets no number, and no room is taken back.
    assert!(visitor.init_state(0, 0));
    assert_eq!(visitor.isets().len(), 3);
    assert_eq!(visitor.isets()[0].intervals, vec![]);
    assert_eq!(visitor.state2index()[0], usize::MAX);
    // A second discovery appends to what the set held.
    assert!(visitor.init_state(3, 3));
    assert_eq!(visitor.isets().len(), 4);
    assert_eq!(visitor.isets()[3].intervals, vec![]);
    visitor.finish_state(2, None, None);
    assert_eq!(visitor.isets()[2].intervals, vec![IntInterval::new(1, 2)]);
}
