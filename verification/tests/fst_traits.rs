use rustfst::error::FstError;
use rustfst::fst_impls::VectorFst;
use rustfst::fst_traits::{CoreFst, MutableFst};
use rustfst::semirings::{IntegerWeight, Semiring};
use rustfst::tr::Tr;

fn build<F: MutableFst<IntegerWeight>>(fst: &mut F) {
    assert_eq!(fst.add_state(), 0);
    assert_eq!(fst.add_state(), 1);
    fst.reserve_states(4);
    fst.set_start(0).unwrap();
    fst.reserve_trs(0, 2).unwrap();
    fst.add_tr(0, Tr::new(0, 7, IntegerWeight::new(2), 1)).unwrap();
    fst.add_tr(0, Tr::new(5, 0, IntegerWeight::new(3), 1)).unwrap();
    fst.set_final(1, IntegerWeight::new(4)).unwrap();
}

fn describe<F: CoreFst<IntegerWeight>>(fst: &F) -> (Option<usize>, usize, usize, usize, usize) {
    (
        fst.start(),
        fst.num_states(),
        fst.num_trs(0).unwrap(),
        fst.num_input_epsilons(0).unwrap(),
        fst.num_output_epsilons(0).unwrap(),
    )
}

#[test]
fn test_vector_fst_through_the_traits() {
    let mut fst: VectorFst<IntegerWeight> = VectorFst::new();
    build(&mut fst);
    assert_eq!(describe(&fst), (Some(0), 2, 2, 1, 1));
    assert_eq!(
        CoreFst::get_trs(&fst, 0).unwrap(),
        &[
            Tr::new(0, 7, IntegerWeight::new(2), 1),
            Tr::new(5, 0, IntegerWeight::new(3), 1)
        ][..]
    );
    assert_eq!(CoreFst::final_weight(&fst, 1), Ok(Some(IntegerWeight::new(4))));
    assert_eq!(CoreFst::final_weight(&fst, 0), Ok(None));
    assert_eq!(CoreFst::properties(&fst), fst.properties());
}

#[test]
fn test_traits_refuse_states_that_are_not_there() {
    let mut fst: VectorFst<IntegerWeight> = VectorFst::new();
    build(&mut fst);
    assert_eq!(CoreFst::num_trs(&fst, 2), Err(FstError::InvalidState(2)));
    assert_eq!(CoreFst::final_weight(&fst, 9), Err(FstError::InvalidState(9)));
    assert_eq!(MutableFst::set_start(&mut fst, 2), Err(FstError::InvalidState(2)));
    assert_eq!(
        MutableFst::add_tr(&mut fst, 0, Tr::new(1, 1, IntegerWeight::new(1), 5)),
        Err(FstError::InvalidState(5))
    );
    assert_eq!(MutableFst::reserve_trs(&mut fst, 3, 1), Err(FstError::InvalidState(3)));
    assert_eq!(describe(&fst), (Some(0), 2, 2, 1, 1));
    MutableFst::delete_final_weight(&mut fst, 1).unwrap();
    assert_eq!(CoreFst::final_weight(&fst, 1), Ok(None));
    MutableFst::delete_trs(&mut fst, 0).unwrap();
    assert_eq!(CoreFst::num_trs(&fst, 0), Ok(0));
}
