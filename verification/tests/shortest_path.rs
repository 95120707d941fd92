use rustfst::error::FstError;
use rustfst::fst_impls::VectorFst;
use rustfst::fst_path::{check_path_in_fst, collect_paths, FstPath};
use rustfst::fst_traits::acyclic::is_acyclic;
use rustfst::semirings::{IntegerWeight, Semiring};
use rustfst::tests_openfst::algorithms::shortest_path::{
    check_shortest_path, test_shortest_path, ShorestPathOperationResult, ShortestPathTestData,
};
use rustfst::tr::Tr;

fn w(value: i32) -> IntegerWeight {
    IntegerWeight::new(value)
}

/// Two paths from 0 to 2: over 1 with the labels 1 2 and the weight 6, and
/// at once with the label 3 and the weight 5; the state 2 is final with
/// the weight 1.
fn raw() -> VectorFst<IntegerWeight> {
    let mut fst = VectorFst::new();
    fst.add_states(3);
    fst.set_start(0).unwrap();
    fst.add_tr(0, Tr::new(1, 1, w(2), 1)).unwrap();
    fst.add_tr(0, Tr::new(3, 3, w(5), 2)).unwrap();
    fst.add_tr(1, Tr::new(2, 2, w(3), 2)).unwrap();
    fst.set_final(2, w(1)).unwrap();
    fst
}

fn single(label: usize, weight: i32) -> VectorFst<IntegerWeight> {
    let mut fst = VectorFst::new();
    fst.add_states(2);
    fst.set_start(0).unwrap();
    fst.add_tr(0, Tr::new(label, label, w(weight), 1)).unwrap();
    fst.set_final(1, w(1)).unwrap();
    fst
}

fn cycle() -> VectorFst<IntegerWeight> {
    let mut fst = VectorFst::new();
    fst.add_states(2);
    fst.set_start(0).unwrap();
    fst.add_tr(0, Tr::new(1, 1, w(1), 1)).unwrap();
    fst.add_tr(1, Tr::new(1, 1, w(1), 0)).unwrap();
    fst.set_final(1, w(1)).unwrap();
    fst
}

fn record(result: Result<VectorFst<IntegerWeight>, FstError>) -> ShortestPathTestData<IntegerWeight> {
    ShortestPathTestData { unique: false, nshortest: 1, result }
}

#[test]
fn test_is_acyclic() {
    assert!(is_acyclic(&raw()));
    assert!(is_acyclic(&VectorFst::<IntegerWeight>::new()));
    assert!(!is_acyclic(&cycle()));
    let mut looped = raw();
    looped.add_tr(2, Tr::new(9, 9, w(1), 2)).unwrap();
    assert!(!is_acyclic(&looped));
    let mut back = raw();
    back.add_tr(2, Tr::new(9, 9, w(1), 0)).unwrap();
    assert!(!is_acyclic(&back));
}

#[test]
fn test_collect_paths_in_walk_order() {
    let found = collect_paths(&raw());
    assert_eq!(
        found,
        vec![
            FstPath::new(vec![3], vec![3], w(5)),
            FstPath::new(vec![1, 2], vec![1, 2], w(6)),
        ]
    );
    assert_eq!(collect_paths(&VectorFst::<IntegerWeight>::new()), vec![]);
}

#[test]
fn test_check_path_in_fst() {
    let fst = raw();
    assert!(check_path_in_fst(&fst, &FstPath::new(vec![3], vec![3], w(5))));
    assert!(check_path_in_fst(&fst, &FstPath::new(vec![1, 2], vec![1, 2], w(6))));
    assert!(!check_path_in_fst(&fst, &FstPath::new(vec![3], vec![3], w(6))));
    assert!(!check_path_in_fst(&fst, &FstPath::new(vec![1], vec![1], w(2))));
    assert!(!check_path_in_fst(&fst, &FstPath::new(vec![3], vec![1], w(5))));
}

#[test]
fn test_fst_path_same() {
    let path = FstPath::new(vec![1, 2], vec![3], w(4));
    assert!(path.same(&FstPath::new(vec![1, 2], vec![3], w(4))));
    assert!(!path.same(&FstPath::new(vec![1], vec![3], w(4))));
    assert!(!path.same(&FstPath::new(vec![1, 2], vec![4], w(4))));
    assert!(!path.same(&FstPath::new(vec![1, 2], vec![3], w(5))));
    assert!(!path.same(&FstPath::new(vec![1, 3], vec![3], w(4))));
}

#[test]
fn test_check_shortest_path_verdicts() {
    let fst = raw();
    // The same path.
    assert_eq!(check_shortest_path(&fst, &Ok(single(3, 5)), &Ok(single(3, 5))), Ok(true));
    // A path of the expected weight that the transducer does not accept.
    assert_eq!(check_shortest_path(&fst, &Ok(single(3, 5)), &Ok(single(4, 5))), Ok(false));
    // A path of another weight.
    assert_eq!(check_shortest_path(&fst, &Ok(single(3, 5)), &Ok(single(3, 4))), Ok(false));
    // Another number of paths.
    assert_eq!(check_shortest_path(&fst, &Ok(raw()), &Ok(single(3, 5))), Ok(false));
    assert_eq!(check_shortest_path(&fst, &Ok(raw()), &Ok(raw())), Ok(true));
    // The one failed and the other did not.
    assert_eq!(check_shortest_path(&fst, &Ok(single(3, 5)), &Err(FstError::NoStart)), Ok(false));
    assert_eq!(check_shortest_path(&fst, &Err(FstError::Format), &Ok(single(3, 5))), Ok(false));
    // Both failed.
    assert_eq!(
        check_shortest_path(&fst, &Err(FstError::Format), &Err(FstError::NoStart)),
        Ok(true)
    );
    // A cycle.
    assert_eq!(
        check_shortest_path(&fst, &Ok(cycle()), &Ok(single(3, 5))),
        Err(FstError::PropertyViolation)
    );
    assert_eq!(
        check_shortest_path(&cycle(), &Ok(single(3, 5)), &Ok(single(3, 5))),
        Err(FstError::PropertyViolation)
    );
}

#[test]
fn test_shortest_path_harness() {
    let fst = raw();
    let records = vec![record(Ok(single(3, 5))), record(Err(FstError::Format))];
    let good = vec![Ok(single(3, 5)), Err(FstError::NoStart)];
    assert_eq!(test_shortest_path(&fst, &records, &good), Ok(true));
    let bad = vec![Ok(single(3, 5)), Ok(single(3, 5))];
    assert_eq!(test_shortest_path(&fst, &records, &bad), Ok(false));
    let cyclic = vec![Ok(cycle()), Err(FstError::NoStart)];
    assert_eq!(
        test_shortest_path(&fst, &records, &cyclic),
        Err(FstError::PropertyViolation)
    );
    assert_eq!(test_shortest_path(&fst, &vec![], &vec![]), Ok(true));
}

#[test]
fn test_shortest_path_record_with_file() {
    let record = ShorestPathOperationResult {
        unique: true,
        nshortest: 2,
        result_path: "error".to_string(),
    };
    assert!(!record.has_result_file());
    let data: ShortestPathTestData<IntegerWeight> = record.parse(&[]);
    assert!(data.unique);
    assert_eq!(data.nshortest, 2);
    assert!(data.result.is_err());
    let bytes = single(3, 5).write();
    let named = ShorestPathOperationResult {
        unique: false,
        nshortest: 1,
        result_path: "shortest.fst".to_string(),
    };
    assert!(named.has_result_file());
    let data: ShortestPathTestData<IntegerWeight> = named.parse(&bytes);
    let fst = raw();
    assert_eq!(
        test_shortest_path(&fst, &vec![data], &vec![Ok(single(3, 5))]),
        Ok(true)
    );
}
