use counter::Counter;

use rustfst::fst_impls::VectorFst;
use rustfst::fst_path::FstPath;
use rustfst::fst_traits::{PathsIterator, StructPathsIterator};
use rustfst::semirings::{IntegerWeight, Semiring};
use rustfst::tr::Tr;
use rustfst::utils::acceptor;

fn collect_paths(fst: &VectorFst<IntegerWeight>) -> Vec<FstPath<IntegerWeight>> {
    let mut iter: StructPathsIterator<'_, IntegerWeight> = fst.paths_iter();
    let mut paths = vec![];
    while let Some(path) = iter.next() {
        paths.push(path);
    }
    paths
}

#[test]
fn test_paths_iterator_empty_fst() {
    let fst = VectorFst::<IntegerWeight>::new();

    assert_eq!(collect_paths(&fst).len(), 0);
}

#[test]
fn test_paths_iterator_single_state_start_and_final() {
    let mut fst = VectorFst::<IntegerWeight>::new();

    let s = fst.add_state();
    fst.set_start(s).unwrap();
    fst.set_final(s, IntegerWeight::one()).unwrap();

    let paths: Counter<_> = collect_paths(&fst).into_iter().collect();

    let mut paths_ref: Counter<_> = Counter::new();
    paths_ref.update(vec![FstPath::default()]);

    assert_eq!(paths, paths_ref);
}

#[test]
fn test_paths_iterator_linear_fst() {
    let labels = vec![153, 45, 96];

    let fst: VectorFst<IntegerWeight> = acceptor(&labels, IntegerWeight::one());

    assert_eq!(collect_paths(&fst).len(), 1);

    for path in collect_paths(&fst) {
        assert_eq!(
            path,
            FstPath::new(labels.clone(), labels.clone(), IntegerWeight::one())
        );
    }
}

#[test]
fn test_paths_iterator_small_fst_one_final_state() {
    let mut fst: VectorFst<IntegerWeight> = VectorFst::new();

    let s1 = fst.add_state();
    let s2 = fst.add_state();
    let s3 = fst.add_state();
    let s4 = fst.add_state();

    fst.set_start(s1).unwrap();
    fst.set_final(s4, IntegerWeight::new(18)).unwrap();

    fst.add_tr(s1, Tr::new(1, 1, IntegerWeight::new(1), s2))
        .unwrap();
    fst.add_tr(s1, Tr::new(2, 2, IntegerWeight::new(2), s3))
        .unwrap();
    fst.add_tr(s1, Tr::new(3, 3, IntegerWeight::new(3), s4))
        .unwrap();
    fst.add_tr(s2, Tr::new(4, 4, IntegerWeight::new(4), s4))
        .unwrap();
    fst.add_tr(s3, Tr::new(5, 5, IntegerWeight::new(5), s4))
        .unwrap();

    assert_eq!(collect_paths(&fst).len(), 3);

    let mut paths_ref = Counter::new();
    paths_ref.update(vec![FstPath::new(
        vec![1, 4],
        vec![1, 4],
        IntegerWeight::new(4 * 18),
    )]);
    paths_ref.update(vec![FstPath::new(
        vec![2, 5],
        vec![2, 5],
        IntegerWeight::new(10 * 18),
    )]);
    paths_ref.update(vec![FstPath::new(
        vec![3],
        vec![3],
        IntegerWeight::new(3 * 18),
    )]);

    let paths: Counter<_> = collect_paths(&fst).into_iter().collect();

    assert_eq!(paths_ref, paths);
}

#[test]
fn test_paths_iterator_small_fst_multiple_final_states() {
    let mut fst: VectorFst<IntegerWeight> = VectorFst::new();

    let s1 = fst.add_state();
    let s2 = fst.add_state();
    let s3 = fst.add_state();
    let s4 = fst.add_state();

    fst.set_start(s1).unwrap();
    fst.set_final(s1, IntegerWeight::new(38)).unwrap();
    fst.set_final(s2, IntegerWeight::new(41)).unwrap();
    fst.set_final(s3, IntegerWeight::new(53)).unwrap();
    fst.set_final(s4, IntegerWeight::new(185)).unwrap();

    fst.add_tr(s1, Tr::new(1, 1, IntegerWeight::new(1), s2))
        .unwrap();
    fst.add_tr(s1, Tr::new(2, 2, IntegerWeight::new(2), s3))
        .unwrap();
    fst.add_tr(s1, Tr::new(3, 3, IntegerWeight::new(3), s4))
        .unwrap();
    fst.add_tr(s2, Tr::new(4, 4, IntegerWeight::new(4), s4))
        .unwrap();
    fst.add_tr(s3, Tr::new(5, 5, IntegerWeight::new(5), s4))
        .unwrap();

    assert_eq!(collect_paths(&fst).len(), 6);

    let mut paths_ref = Counter::new();
    paths_ref.update(vec![FstPath::new(vec![], vec![], IntegerWeight::new(38))]);
    paths_ref.update(vec![FstPath::new(
        vec![1],
        vec![1],
        IntegerWeight::new(1 * 41),
    )]);
    paths_ref.update(vec![FstPath::new(
        vec![2],
        vec![2],
        IntegerWeight::new(2 * 53),
    )]);
    paths_ref.update(vec![FstPath::new(
        vec![1, 4],
        vec![1, 4],
        IntegerWeight::new(4 * 185),
    )]);
    paths_ref.update(vec![FstPath::new(
        vec![2, 5],
        vec![2, 5],
        IntegerWeight::new(10 * 185),
    )]);
    paths_ref.update(vec![FstPath::new(
        vec![3],
        vec![3],
        IntegerWeight::new(3 * 185),
    )]);

    let paths: Counter<_> = collect_paths(&fst).into_iter().collect();

    assert_eq!(paths_ref, paths);
}

#[test]
fn test_paths_iterator_breadth_first_order() {
    let mut fst: VectorFst<IntegerWeight> = VectorFst::new();
    let s0 = fst.add_state();
    let s1 = fst.add_state();
    fst.set_start(s0).unwrap();
    fst.set_final(s0, IntegerWeight::new(2)).unwrap();
    fst.set_final(s1, IntegerWeight::new(3)).unwrap();
    fst.add_tr(s0, Tr::new(7, 0, IntegerWeight::new(5), s1))
        .unwrap();
    let paths = collect_paths(&fst);
    assert_eq!(
        paths,
        vec![
            FstPath::new(vec![], vec![], IntegerWeight::new(2)),
            FstPath::new(vec![7], vec![], IntegerWeight::new(15)),
        ]
    );
}

#[test]
fn test_paths_iterator_cycle_without_start_state() {
    let mut fst = VectorFst::<IntegerWeight>::new();
    fst.add_states(2);
    fst.add_tr(0, Tr::new(1, 1, IntegerWeight::one(), 1)).unwrap();
    fst.add_tr(1, Tr::new(2, 2, IntegerWeight::one(), 0)).unwrap();
    fst.set_final(1, IntegerWeight::one()).unwrap();

    let mut iter: StructPathsIterator<'_, IntegerWeight> = fst.paths_iter();
    assert_eq!(iter.next(), None);
    assert_eq!(iter.next(), None);
    assert_eq!(collect_paths(&fst).len(), 0);
}
