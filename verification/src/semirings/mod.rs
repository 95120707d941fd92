//! Weight algebras.

use vstd::prelude::*;

pub mod boolean_weight;
pub mod integer_weight;

pub use self::boolean_weight::BooleanWeight;
pub use self::integer_weight::IntegerWeight;

use crate::error::FstError;
use crate::parsers::bin_fst::utils_parsing::{parsed_as, Parsed};

verus! {

/// `times` from the left distributes over `plus`.
pub const LEFT_SEMIRING: u64 = 0x01;

/// `times` from the right distributes over `plus`.
pub const RIGHT_SEMIRING: u64 = 0x02;

/// `times` does not mind the order of its factors.
pub const COMMUTATIVE: u64 = 0x04;

/// The sum of a weight and itself is the weight.
pub const IDEMPOTENT: u64 = 0x08;

/// The sum of two weights is one of them.
pub const PATH: u64 = 0x10;

/// What holds of a semiring beyond the laws of all semirings, as a set of
/// bits.
#[derive(Clone, Copy, Debug, PartialEq, Eq, Structural, Hash)]
pub struct SemiringProperties {
    pub bits: u64,
}

impl SemiringProperties {
    /// Whether every bit of `bits` is set.
    pub open spec fn contains_spec(self, bits: u64) -> bool {
        self.bits & bits == bits
    }

    pub fn contains(&self, bits: u64) -> (b: bool)
        ensures
            b == self.contains_spec(bits),
    {
        self.bits & bits == bits
    }
}

/// The side from which a weight is divided.
#[derive(Clone, Copy, Debug, PartialEq, Eq, Structural, Hash)]
pub enum DivideType {
    /// Left division.
    DivideLeft,
    /// Right division.
    DivideRight,
    /// Division in a commutative semiring.
    DivideAny,
}

/// A semiring `(W, plus, times, zero, one)`.
///
/// The operations are given twice: as specification functions, which the
/// contracts of the whole library speak of, and as executable methods that
/// compute them. The proof obligations are the semiring laws.
pub trait Semiring: Sized + Copy {
    /// The carrier of a weight.
    type Type;

    /// Addition of the semiring.
    spec fn plus_spec(self, rhs: Self) -> Self;

    /// Multiplication of the semiring.
    spec fn times_spec(self, rhs: Self) -> Self;

    /// The neutral element of `plus`, which annihilates `times`.
    spec fn zero_spec() -> Self;

    /// The neutral element of `times`.
    spec fn one_spec() -> Self;

    /// The weight that holds a carrier value.
    spec fn new_spec(value: Self::Type) -> Self;

    /// The carrier value of a weight.
    spec fn value_spec(self) -> Self::Type;

    /// What holds of the semiring beyond the laws of all semirings.
    spec fn properties_spec() -> SemiringProperties;

    /// The properties that the semiring declares hold of it.
    proof fn lemma_properties(a: Self, b: Self)
        ensures
            Self::properties_spec().contains_spec(COMMUTATIVE) ==> a.times_spec(b)
                == b.times_spec(a),
            Self::properties_spec().contains_spec(IDEMPOTENT) ==> a.plus_spec(a) == a,
            Self::properties_spec().contains_spec(PATH) ==> a.plus_spec(b) == a || a.plus_spec(b)
                == b,
    ;

    /// The weight read backwards: the weight of a path is the reverse of the
    /// weight of the path taken the other way round.
    spec fn reverse_spec(self) -> Self;

    /// Reading a weight backwards twice gives it back, and reading a
    /// product backwards exchanges the factors.
    proof fn lemma_reverse(a: Self, b: Self)
        ensures
            a.reverse_spec().reverse_spec() == a,
            a.times_spec(b).reverse_spec() == b.reverse_spec().times_spec(a.reverse_spec()),
            a.plus_spec(b).reverse_spec() == a.reverse_spec().plus_spec(b.reverse_spec()),
    ;

    proof fn lemma_plus_associative(a: Self, b: Self, c: Self)
        ensures
            a.plus_spec(b).plus_spec(c) == a.plus_spec(b.plus_spec(c)),
    ;

    proof fn lemma_plus_commutative(a: Self, b: Self)
        ensures
            a.plus_spec(b) == b.plus_spec(a),
    ;

    proof fn lemma_times_associative(a: Self, b: Self, c: Self)
        ensures
            a.times_spec(b).times_spec(c) == a.times_spec(b.times_spec(c)),
    ;

    proof fn lemma_distributive(a: Self, b: Self, c: Self)
        ensures
            a.times_spec(b.plus_spec(c)) == a.times_spec(b).plus_spec(a.times_spec(c)),
            b.plus_spec(c).times_spec(a) == b.times_spec(a).plus_spec(c.times_spec(a)),
    ;

    proof fn lemma_identities(a: Self)
        ensures
            a.plus_spec(Self::zero_spec()) == a,
            Self::zero_spec().plus_spec(a) == a,
            a.times_spec(Self::one_spec()) == a,
            Self::one_spec().times_spec(a) == a,
            a.times_spec(Self::zero_spec()) == Self::zero_spec(),
            Self::zero_spec().times_spec(a) == Self::zero_spec(),
    ;

    fn new(value: Self::Type) -> (w: Self)
        ensures
            w == Self::new_spec(value),
    ;

    fn plus(&self, rhs: &Self) -> (w: Self)
        ensures
            w == self.plus_spec(*rhs),
    ;

    fn times(&self, rhs: &Self) -> (w: Self)
        ensures
            w == self.times_spec(*rhs),
    ;

    fn zero() -> (w: Self)
        ensures
            w == Self::zero_spec(),
    ;

    fn one() -> (w: Self)
        ensures
            w == Self::one_spec(),
    ;

    fn value(&self) -> (v: Self::Type)
        ensures
            v == self.value_spec(),
    ;

    fn reverse(&self) -> (w: Self)
        ensures
            w == self.reverse_spec(),
    ;

    fn properties() -> (p: SemiringProperties)
        ensures
            p == Self::properties_spec(),
    ;

    /// Whether the weight is the zero of the semiring.
    fn is_zero(&self) -> (b: bool)
        ensures
            b == (*self == Self::zero_spec()),
    ;

    /// Whether two weights are the same element.
    fn same(&self, rhs: &Self) -> (b: bool)
        ensures
            b == (*self == *rhs),
    ;
}

/// A semiring in which a product can be divided by its factor.
pub trait WeaklyDivisibleSemiring: Semiring {
    /// The quotient of `self` by `rhs`, unless `rhs` cannot be divided by.
    spec fn divide_spec(self, rhs: Self, divide_type: DivideType) -> Result<Self, FstError>;

    /// The zero cannot be divided by; a product by another weight, divided
    /// by that weight from the side on which it stands, is the other factor.
    proof fn lemma_divide(a: Self, b: Self, divide_type: DivideType)
        ensures
            a.divide_spec(Self::zero_spec(), divide_type) == Err::<Self, FstError>(
                FstError::WeightNotDivisible,
            ),
            b != Self::zero_spec() ==> a.times_spec(b).divide_spec(b, DivideType::DivideRight)
                == Ok::<Self, FstError>(a),
            b != Self::zero_spec() ==> b.times_spec(a).divide_spec(b, DivideType::DivideLeft)
                == Ok::<Self, FstError>(a),
    ;

    fn divide(&self, rhs: &Self, divide_type: DivideType) -> (r: Result<Self, FstError>)
        ensures
            r == self.divide_spec(*rhs, divide_type),
    ;
}

/// A semiring whose weights are compared on a grid: two weights count as
/// equal if the same weight of the grid stands for both.
pub trait WeightQuantize: Semiring {
    /// The weight of the grid that stands for the weight.
    spec fn quantize_spec(self) -> Self;

    /// A weight of the grid stands for itself.
    proof fn lemma_quantize_settles(a: Self)
        ensures
            a.quantize_spec().quantize_spec() == a.quantize_spec(),
    ;

    fn quantize(&self) -> (w: Self)
        ensures
            w == self.quantize_spec(),
    ;
}

/// The same weight of the grid stands for `a` and for `b`.
pub open spec fn quantized_equal<W: WeightQuantize>(a: W, b: W) -> bool {
    a.quantize_spec() == b.quantize_spec()
}

/// Whether the same weight of the grid stands for both weights.
pub fn approx_equal<W: WeightQuantize>(a: &W, b: &W) -> (r: bool)
    ensures
        r == quantized_equal(*a, *b),
{
    a.quantize().same(&b.quantize())
}

/// Equality on the grid is an equivalence: every weight equals itself, two
/// weights equal each other or neither does, and two weights that equal a
/// third equal each other. A weight equals the weight that stands for it.
pub proof fn lemma_quantized_equal_is_equivalence<W: WeightQuantize>(a: W, b: W, c: W)
    ensures
        quantized_equal(a, a),
        quantized_equal(a, b) == quantized_equal(b, a),
        quantized_equal(a, b) && quantized_equal(b, c) ==> quantized_equal(a, c),
        quantized_equal(a, a.quantize_spec()),
{
    W::lemma_quantize_settles(a);
}

/// Bytes, as the contracts speak of them.
pub type SpecBytes = Seq<u8>;

/// A string, as the contracts speak of it.
pub type SpecChars = Seq<char>;

/// A count of bytes, as the contracts speak of it.
pub type SpecInt = int;

/// A semiring whose weights the binary container can hold.
pub trait SerializableSemiring: Semiring {
    /// The name of the semiring in the container's header.
    spec fn weight_type_spec() -> Seq<char>;

    /// The bytes that stand for a weight.
    spec fn binary_spec(self) -> Seq<u8>;

    /// The weight that stands at the front of `i`, with the bytes after it.
    spec fn parse_binary_spec(i: Seq<u8>) -> Parsed<Self>;

    /// Reading what was written gives the weight back, and the bytes behind it.
    proof fn lemma_binary_round_trip(w: Self, rest: Seq<u8>)
        ensures
            Self::parse_binary_spec(w.binary_spec() + rest) == Ok::<(Self, Seq<u8>), FstError>(
                (w, rest),
            ),
    ;

    /// A weight cannot be read from fewer bytes than it was written to: the
    /// reading ends for want of input.
    proof fn lemma_binary_prefix(w: Self, k: int)
        requires
            0 <= k < w.binary_spec().len(),
        ensures
            Self::parse_binary_spec(w.binary_spec().take(k)) == Err::<(Self, Seq<u8>), FstError>(
                FstError::Truncated,
            ),
    ;

    /// The name of the semiring is short enough for the header.
    proof fn lemma_weight_type_fits()
        ensures
            vstd::utf8::encode_utf8(Self::weight_type_spec()).len() < 0x8000_0000,
    ;

    fn weight_type() -> (s: String)
        ensures
            s@ == Self::weight_type_spec(),
    ;

    fn parse_binary(i: &[u8]) -> (r: Result<(&[u8], Self), FstError>)
        ensures
            parsed_as(r, Self::parse_binary_spec(i@)),
    ;

    fn write_binary(&self, out: &mut Vec<u8>)
        ensures
            final(out)@ == old(out)@ + self.binary_spec(),
    ;
}

} // verus!
