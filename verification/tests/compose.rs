use rustfst::algorithms::compose::compose_filters::{
    AltSequenceComposeFilter, MatchComposeFilter, NoMatchComposeFilter, NullComposeFilter,
    SequenceComposeFilter, TrivialComposeFilter,
};
use rustfst::algorithms::compose::compose_fst::{compose_with_filter, ComposeFst};
use rustfst::algorithms::compose::matchers::SortedMatcher;
use rustfst::algorithms::connect::connect;
use rustfst::algorithms::state_sort;
use rustfst::error::FstError;
use rustfst::fst_impls::VectorFst;
use rustfst::fst_path::FstPath;
use rustfst::fst_traits::PathsIterator;
use rustfst::parsers::bin_fst::utils_parsing::{read_i32, write_bin_i32};
use rustfst::semirings::{
    Semiring, SemiringProperties, SerializableSemiring, SpecBytes, SpecChars, SpecInt, COMMUTATIVE, IDEMPOTENT, LEFT_SEMIRING, PATH, RIGHT_SEMIRING, WeightQuantize, approx_equal,
};
use rustfst::tr::Tr;

/// The tropical semiring on `f32`: `plus` is the minimum, `times` the sum.
#[derive(Clone, Copy, Debug, PartialEq)]
struct TropicalWeight {
    value: f32,
}

impl Semiring for TropicalWeight {
    type Type = f32;

    fn plus_spec(self, _rhs: Self) -> Self {
        panic!("specification only")
    }

    fn times_spec(self, _rhs: Self) -> Self {
        panic!("specification only")
    }

    fn zero_spec() -> Self {
        panic!("specification only")
    }

    fn one_spec() -> Self {
        panic!("specification only")
    }

    fn new_spec(_value: f32) -> Self {
        panic!("specification only")
    }

    fn value_spec(self) -> f32 {
        panic!("specification only")
    }

    fn reverse_spec(self) -> Self {
        panic!("specification only")
    }

    fn lemma_reverse(_a: Self, _b: Self) {}

    fn properties_spec() -> SemiringProperties {
        panic!("specification only")
    }

    fn lemma_properties(_a: Self, _b: Self) {}

    fn lemma_plus_associative(_a: Self, _b: Self, _c: Self) {}

    fn lemma_plus_commutative(_a: Self, _b: Self) {}

    fn lemma_times_associative(_a: Self, _b: Self, _c: Self) {}

    fn lemma_distributive(_a: Self, _b: Self, _c: Self) {}

    fn lemma_identities(_a: Self) {}

    fn new(value: f32) -> Self {
        TropicalWeight { value }
    }

    fn plus(&self, rhs: &Self) -> Self {
        if self.value < rhs.value {
            *self
        } else {
            *rhs
        }
    }

    fn times(&self, rhs: &Self) -> Self {
        TropicalWeight {
            value: self.value + rhs.value,
        }
    }

    fn zero() -> Self {
        TropicalWeight {
            value: f32::INFINITY,
        }
    }

    fn one() -> Self {
        TropicalWeight { value: 0.0 }
    }

    fn value(&self) -> f32 {
        self.value
    }

    fn reverse(&self) -> Self {
        *self
    }

    fn properties() -> SemiringProperties {
        SemiringProperties {
            bits: LEFT_SEMIRING | RIGHT_SEMIRING | COMMUTATIVE | IDEMPOTENT | PATH,
        }
    }

    fn is_zero(&self) -> bool {
        self.value == f32::INFINITY
    }

    fn same(&self, rhs: &Self) -> bool {
        self.value == rhs.value
    }
}

const KDELTA: f32 = 1.0 / 1024.0;

impl WeightQuantize for TropicalWeight {
    fn quantize_spec(self) -> Self {
        panic!("specification only")
    }

    fn lemma_quantize_settles(_a: Self) {}

    fn quantize(&self) -> Self {
        if self.value.is_infinite() {
            *self
        } else {
            TropicalWeight {
                value: (self.value / KDELTA + 0.5).floor() * KDELTA,
            }
        }
    }
}

impl SerializableSemiring for TropicalWeight {
    fn weight_type_spec() -> SpecChars {
        panic!("specification only")
    }

    fn binary_spec(self) -> SpecBytes {
        panic!("specification only")
    }

    fn parse_binary_spec(_i: SpecBytes) -> Result<(Self, SpecBytes), FstError> {
        panic!("specification only")
    }

    fn lemma_binary_round_trip(_w: Self, _rest: SpecBytes) {}

    fn lemma_binary_prefix(_w: Self, _k: SpecInt) {}

    fn lemma_weight_type_fits() {}

    fn weight_type() -> String {
        "standard".to_string()
    }

    fn parse_binary(i: &[u8]) -> Result<(&[u8], Self), FstError> {
        let (rest, bits) = read_i32(i)?;
        Ok((
            rest,
            TropicalWeight {
                value: f32::from_bits(bits as u32),
            },
        ))
    }

    fn write_binary(&self, out: &mut Vec<u8>) {
        write_bin_i32(out, self.value.to_bits() as i32);
    }
}

type Sorted<'a> = SortedMatcher<'a, TropicalWeight>;

fn w(value: f32) -> TropicalWeight {
    TropicalWeight::new(value)
}

const A: usize = 1;
const B: usize = 2;
const C: usize = 3;
const D: usize = 4;
const E: usize = 5;

fn single_arc_operands() -> (VectorFst<TropicalWeight>, VectorFst<TropicalWeight>) {
    let mut fst1 = VectorFst::new();
    fst1.add_states(2);
    fst1.set_start(0).unwrap();
    fst1.add_tr(0, Tr::new(A, B, w(0.5), 1)).unwrap();
    fst1.set_final(1, w(0.0)).unwrap();
    let mut fst2 = VectorFst::new();
    fst2.add_states(2);
    fst2.set_start(0).unwrap();
    fst2.add_tr(0, Tr::new(B, C, w(0.25), 1)).unwrap();
    fst2.set_final(1, w(0.0)).unwrap();
    (fst1, fst2)
}

fn epsilon_operands() -> (VectorFst<TropicalWeight>, VectorFst<TropicalWeight>) {
    let mut fst1 = VectorFst::new();
    fst1.add_states(3);
    fst1.set_start(0).unwrap();
    fst1.add_tr(0, Tr::new(A, 0, w(1.0), 1)).unwrap();
    fst1.add_tr(1, Tr::new(B, C, w(2.0), 2)).unwrap();
    fst1.set_final(2, w(0.0)).unwrap();
    let mut fst2 = VectorFst::new();
    fst2.add_states(3);
    fst2.set_start(0).unwrap();
    fst2.add_tr(0, Tr::new(0, D, w(3.0), 1)).unwrap();
    fst2.add_tr(1, Tr::new(C, E, w(4.0), 2)).unwrap();
    fst2.set_final(2, w(0.0)).unwrap();
    (fst1, fst2)
}

fn paths(fst: &VectorFst<TropicalWeight>) -> Vec<FstPath<TropicalWeight>> {
    let mut iter = fst.paths_iter();
    let mut found = vec![];
    while let Some(path) = iter.next() {
        found.push(path);
    }
    found
}

fn assert_single_arc_result(fst: &VectorFst<TropicalWeight>) {
    assert_eq!(fst.num_states(), 2);
    assert_eq!(fst.start(), Some(0));
    assert_eq!(fst.get_trs(0).unwrap(), &[Tr::new(A, C, w(0.75), 1)][..]);
    assert_eq!(fst.get_trs(1).unwrap().len(), 0);
    assert_eq!(fst.final_weight(0).unwrap(), None);
    assert_eq!(fst.final_weight(1).unwrap(), Some(w(0.0)));
}

#[test]
fn test_single_arc_composition_all_filters() {
    let (fst1, fst2) = single_arc_operands();
    assert_single_arc_result(
        &compose_with_filter::<_, NullComposeFilter<Sorted, Sorted>>(&fst1, &fst2).unwrap(),
    );
    assert_single_arc_result(
        &compose_with_filter::<_, TrivialComposeFilter<Sorted, Sorted>>(&fst1, &fst2).unwrap(),
    );
    assert_single_arc_result(
        &compose_with_filter::<_, SequenceComposeFilter<Sorted, Sorted>>(&fst1, &fst2).unwrap(),
    );
    assert_single_arc_result(
        &compose_with_filter::<_, AltSequenceComposeFilter<Sorted, Sorted>>(&fst1, &fst2).unwrap(),
    );
    assert_single_arc_result(
        &compose_with_filter::<_, MatchComposeFilter<Sorted, Sorted>>(&fst1, &fst2).unwrap(),
    );
    assert_single_arc_result(
        &compose_with_filter::<_, NoMatchComposeFilter<Sorted, Sorted>>(&fst1, &fst2).unwrap(),
    );
}

#[test]
fn test_epsilon_composition_sequence_filter() {
    let (fst1, fst2) = epsilon_operands();
    let fst =
        compose_with_filter::<_, SequenceComposeFilter<Sorted, Sorted>>(&fst1, &fst2).unwrap();
    assert_eq!(fst.num_states(), 4);
    let found = paths(&fst);
    assert_eq!(
        found,
        vec![FstPath::new(vec![A, B], vec![D, E], w(10.0))]
    );
    assert_eq!(fst.get_trs(0).unwrap(), &[Tr::new(A, 0, w(1.0), 1)][..]);
    assert_eq!(fst.get_trs(1).unwrap(), &[Tr::new(0, D, w(3.0), 2)][..]);
    assert_eq!(fst.get_trs(2).unwrap(), &[Tr::new(B, E, w(6.0), 3)][..]);
    assert_eq!(fst.final_weight(3).unwrap(), Some(w(0.0)));
}

#[test]
fn test_epsilon_composition_null_filter() {
    let (fst1, fst2) = epsilon_operands();
    let fst = compose_with_filter::<_, NullComposeFilter<Sorted, Sorted>>(&fst1, &fst2).unwrap();
    assert_eq!(paths(&fst).len(), 0);
    assert_eq!(fst.num_states(), 1);
    assert_eq!(fst.get_trs(0).unwrap().len(), 0);
    assert_eq!(fst.final_weight(0).unwrap(), None);
}

#[test]
fn test_empty_start_composition() {
    let (_, fst2) = single_arc_operands();
    let mut fst1: VectorFst<TropicalWeight> = VectorFst::new();
    fst1.add_states(2);
    fst1.add_tr(0, Tr::new(A, B, w(0.5), 1)).unwrap();
    let mut lazy =
        ComposeFst::<_, SequenceComposeFilter<Sorted, Sorted>>::new(&fst1, &fst2).unwrap();
    assert_eq!(lazy.start().unwrap(), None);
    assert_eq!(lazy.num_known_states(), 0);
    let fst = lazy.compute().unwrap();
    assert_eq!(fst.start(), None);
    assert_eq!(fst.num_states(), 0);
    assert_eq!(paths(&fst).len(), 0);
}

#[test]
fn test_binary_format_of_composition() {
    let (fst1, fst2) = single_arc_operands();
    let fst =
        compose_with_filter::<_, SequenceComposeFilter<Sorted, Sorted>>(&fst1, &fst2).unwrap();
    let bytes = fst.write();
    let back = VectorFst::<TropicalWeight>::read(&bytes).unwrap();
    assert_eq!(back.get_trs(0).unwrap(), &[Tr::new(A, C, w(0.75), 1)][..]);
    assert_eq!(back.final_weight(1).unwrap(), Some(w(0.0)));
    assert_eq!(back.final_weight(0).unwrap(), None);
    assert_eq!(back.start(), Some(0));
    assert_eq!(back.num_states(), 2);
}

#[test]
fn test_state_sort_identity_on_composition() {
    let (fst1, fst2) = epsilon_operands();
    let fst =
        compose_with_filter::<_, SequenceComposeFilter<Sorted, Sorted>>(&fst1, &fst2).unwrap();
    let mut sorted =
        compose_with_filter::<_, SequenceComposeFilter<Sorted, Sorted>>(&fst1, &fst2).unwrap();
    state_sort(&mut sorted, &[0, 1, 2, 3]).unwrap();
    assert_eq!(sorted.num_states(), fst.num_states());
    assert_eq!(sorted.start(), fst.start());
    for s in 0..fst.num_states() {
        assert_eq!(sorted.get_trs(s).unwrap(), fst.get_trs(s).unwrap());
        assert_eq!(sorted.final_weight(s).unwrap(), fst.final_weight(s).unwrap());
    }
}

#[test]
fn test_lazy_agrees_with_eager() {
    let (fst1, fst2) = epsilon_operands();
    let eager =
        compose_with_filter::<_, SequenceComposeFilter<Sorted, Sorted>>(&fst1, &fst2).unwrap();
    let mut lazy =
        ComposeFst::<_, SequenceComposeFilter<Sorted, Sorted>>::new(&fst1, &fst2).unwrap();
    assert_eq!(lazy.start().unwrap(), eager.start());
    let mut s = 0;
    while s < lazy.num_known_states() {
        assert_eq!(&lazy.get_trs(s).unwrap()[..], eager.get_trs(s).unwrap());
        assert_eq!(lazy.num_trs(s).unwrap(), eager.num_trs(s).unwrap());
        assert_eq!(lazy.final_weight(s).unwrap(), eager.final_weight(s).unwrap());
        s += 1;
    }
    assert_eq!(s, eager.num_states());
    assert_eq!(lazy.get_trs(s), Err(FstError::InvalidState(s)));
}

#[test]
fn test_no_duplicate_paths_under_epsilon_filters() {
    let (fst1, fst2) = epsilon_operands();
    let expected = FstPath::new(vec![A, B], vec![D, E], w(10.0));

    let sequenced =
        compose_with_filter::<_, SequenceComposeFilter<Sorted, Sorted>>(&fst1, &fst2).unwrap();
    assert_eq!(paths(&sequenced), vec![expected.clone()]);

    let alt =
        compose_with_filter::<_, AltSequenceComposeFilter<Sorted, Sorted>>(&fst1, &fst2).unwrap();
    assert_eq!(paths(&alt), vec![expected.clone()]);
    assert_eq!(alt.get_trs(0).unwrap(), &[Tr::new(0, D, w(3.0), 1)][..]);
    assert_eq!(alt.get_trs(1).unwrap(), &[Tr::new(A, 0, w(1.0), 2)][..]);

    let matched =
        compose_with_filter::<_, MatchComposeFilter<Sorted, Sorted>>(&fst1, &fst2).unwrap();
    assert_eq!(paths(&matched), vec![expected.clone()]);
    assert_eq!(matched.get_trs(0).unwrap(), &[Tr::new(A, D, w(4.0), 1)][..]);

    // The filter that keeps every pair finds the same path three times: the
    // first transducer moving first, the second moving first, both at once.
    let trivial =
        compose_with_filter::<_, TrivialComposeFilter<Sorted, Sorted>>(&fst1, &fst2).unwrap();
    assert_eq!(
        paths(&trivial),
        vec![expected.clone(), expected.clone(), expected]
    );
}

#[test]
fn test_connect_keeps_accepted_paths() {
    let (fst1, fst2) = epsilon_operands();
    let mut fst =
        compose_with_filter::<_, TrivialComposeFilter<Sorted, Sorted>>(&fst1, &fst2).unwrap();
    let extra = fst.add_state();
    fst.add_tr(0, Tr::new(C, C, w(1.0), extra)).unwrap();
    let before = paths(&fst);
    connect(&mut fst).unwrap();
    assert_eq!(paths(&fst), before);
    assert_eq!(fst.num_states(), 5);
}

#[test]
fn test_quantized_equality_of_tropical_weights() {
    let a = w(0.75);
    let near = w(0.75 + KDELTA / 8.0);
    let far = w(0.75 + 2.0 * KDELTA);
    assert!(approx_equal(&a, &a));
    assert!(approx_equal(&a, &near));
    assert!(approx_equal(&near, &a));
    assert!(!approx_equal(&a, &far));
    assert!(!approx_equal(&near, &far));
    assert!(approx_equal(&a, &a.quantize()));
    assert_eq!(a.quantize().quantize(), a.quantize());
    assert!(approx_equal(&TropicalWeight::zero(), &TropicalWeight::zero()));
    assert!(!approx_equal(&TropicalWeight::zero(), &a));
}
