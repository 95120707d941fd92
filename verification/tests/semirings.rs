use rustfst::error::FstError;
use rustfst::semirings::{
    approx_equal, BooleanWeight, DivideType, IntegerWeight, Semiring, WeaklyDivisibleSemiring,
    WeightQuantize, COMMUTATIVE, IDEMPOTENT, LEFT_SEMIRING, PATH, RIGHT_SEMIRING,
};

#[test]
fn test_boolean_weight() {
    let b_true = BooleanWeight::new(true);
    let b_false = BooleanWeight::new(false);

    // Test plus
    assert_eq!(b_true.plus(&b_true), b_true);
    assert_eq!(b_true.plus(&b_false), b_true);
    assert_eq!(b_false.plus(&b_true), b_true);
    assert_eq!(b_false.plus(&b_false), b_false);

    // Test times
    assert_eq!(b_true.times(&b_true), b_true);
    assert_eq!(b_true.times(&b_false), b_false);
    assert_eq!(b_false.times(&b_true), b_false);
    assert_eq!(b_false.times(&b_false), b_false);
}

#[test]
fn test_boolean_weight_identities() {
    assert_eq!(BooleanWeight::zero(), BooleanWeight::new(false));
    assert_eq!(BooleanWeight::one(), BooleanWeight::new(true));
    assert!(BooleanWeight::zero().is_zero());
    assert!(!BooleanWeight::one().is_zero());
    assert!(BooleanWeight::new(true).value());
}

#[test]
fn test_integer_weight_operations() {
    let a = IntegerWeight::new(6);
    let b = IntegerWeight::new(7);
    assert_eq!(a.plus(&b), IntegerWeight::new(13));
    assert_eq!(a.times(&b), IntegerWeight::new(42));
    assert_eq!(IntegerWeight::zero().value(), 0);
    assert_eq!(IntegerWeight::one().value(), 1);
    assert_eq!(a.times(&IntegerWeight::one()), a);
    assert_eq!(a.plus(&IntegerWeight::zero()), a);
    assert_eq!(a.times(&IntegerWeight::zero()), IntegerWeight::zero());
}

#[test]
fn test_integer_weight_wraps() {
    let big = IntegerWeight::new(i32::MAX);
    assert_eq!(big.plus(&IntegerWeight::one()), IntegerWeight::new(i32::MIN));
    assert_eq!(
        IntegerWeight::new(65536).times(&IntegerWeight::new(65536)),
        IntegerWeight::new(0)
    );
}

#[test]
fn test_integer_weight_laws_on_values() {
    let ws = [-7, 0, 1, 3, i32::MAX, i32::MIN];
    for &x in ws.iter() {
        for &y in ws.iter() {
            for &z in ws.iter() {
                let (a, b, c) = (
                    IntegerWeight::new(x),
                    IntegerWeight::new(y),
                    IntegerWeight::new(z),
                );
                assert_eq!(a.plus(&b).plus(&c), a.plus(&b.plus(&c)));
                assert_eq!(a.times(&b).times(&c), a.times(&b.times(&c)));
                assert_eq!(a.times(&b.plus(&c)), a.times(&b).plus(&a.times(&c)));
                assert_eq!(a.plus(&b), b.plus(&a));
            }
        }
    }
}

#[test]
fn test_semiring_properties() {
    let boolean = BooleanWeight::properties();
    assert!(boolean.contains(LEFT_SEMIRING | RIGHT_SEMIRING | COMMUTATIVE | IDEMPOTENT | PATH));
    let integer = IntegerWeight::properties();
    assert!(integer.contains(LEFT_SEMIRING | RIGHT_SEMIRING | COMMUTATIVE));
    assert!(!integer.contains(IDEMPOTENT));
    assert!(!integer.contains(PATH));
}

#[test]
fn test_boolean_weight_division() {
    let b_true = BooleanWeight::new(true);
    let b_false = BooleanWeight::new(false);
    assert_eq!(b_true.divide(&b_true, DivideType::DivideAny), Ok(b_true));
    assert_eq!(b_false.divide(&b_true, DivideType::DivideLeft), Ok(b_false));
    assert_eq!(
        b_true.divide(&b_false, DivideType::DivideRight),
        Err(FstError::WeightNotDivisible)
    );
}

#[test]
fn test_exact_weights_are_their_own_grid() {
    let three = IntegerWeight::new(3);
    let four = IntegerWeight::new(4);
    assert_eq!(three.quantize(), three);
    assert!(approx_equal(&three, &three));
    assert!(!approx_equal(&three, &four));
    assert!(!approx_equal(&four, &three));
    let yes = BooleanWeight::new(true);
    let no = BooleanWeight::new(false);
    assert_eq!(yes.quantize(), yes);
    assert!(approx_equal(&no, &no));
    assert!(!approx_equal(&yes, &no));
}
