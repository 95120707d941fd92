//! The boolean semiring `({false, true}, or, and, false, true)`.

use vstd::prelude::*;

use crate::error::FstError;
use crate::parsers::bin_fst::utils_parsing::{read_u8, u8_spec, Parsed};
use crate::semirings::{
    COMMUTATIVE, DivideType, IDEMPOTENT, LEFT_SEMIRING, PATH, RIGHT_SEMIRING, Semiring,
    SemiringProperties, SerializableSemiring, WeaklyDivisibleSemiring, WeightQuantize,
};

verus! {

#[derive(Clone, Copy, Debug, PartialEq, Eq, Structural, Hash, Default)]
pub struct BooleanWeight {
    value: bool,
}

impl BooleanWeight {
    pub fn new(value: bool) -> (w: Self)
        ensures
            w == <Self as Semiring>::new_spec(value),
    {
        BooleanWeight { value }
    }
}

impl Semiring for BooleanWeight {
    type Type = bool;

    open spec fn plus_spec(self, rhs: Self) -> Self {
        Self::new_spec(self.value_spec() || rhs.value_spec())
    }

    open spec fn times_spec(self, rhs: Self) -> Self {
        Self::new_spec(self.value_spec() && rhs.value_spec())
    }

    open spec fn zero_spec() -> Self {
        Self::new_spec(false)
    }

    open spec fn one_spec() -> Self {
        Self::new_spec(true)
    }

    closed spec fn new_spec(value: bool) -> Self {
        BooleanWeight { value }
    }

    closed spec fn value_spec(self) -> bool {
        self.value
    }

    open spec fn reverse_spec(self) -> Self {
        self
    }

    open spec fn properties_spec() -> SemiringProperties {
        SemiringProperties {
            bits: LEFT_SEMIRING | RIGHT_SEMIRING | COMMUTATIVE | IDEMPOTENT | PATH,
        }
    }

    proof fn lemma_properties(a: Self, b: Self) {
    }

    proof fn lemma_reverse(a: Self, b: Self) {
    }

    proof fn lemma_plus_associative(a: Self, b: Self, c: Self) {
    }

    proof fn lemma_plus_commutative(a: Self, b: Self) {
    }

    proof fn lemma_times_associative(a: Self, b: Self, c: Self) {
    }

    proof fn lemma_distributive(a: Self, b: Self, c: Self) {
    }

    proof fn lemma_identities(a: Self) {
    }

    fn new(value: bool) -> (w: Self) {
        BooleanWeight { value }
    }

    fn plus(&self, rhs: &Self) -> (w: Self) {
        BooleanWeight { value: self.value || rhs.value }
    }

    fn times(&self, rhs: &Self) -> (w: Self) {
        BooleanWeight { value: self.value && rhs.value }
    }

    fn zero() -> (w: Self) {
        BooleanWeight { value: false }
    }

    fn one() -> (w: Self) {
        BooleanWeight { value: true }
    }

    fn value(&self) -> (v: bool) {
        self.value
    }

    fn reverse(&self) -> (w: Self) {
        *self
    }

    fn properties() -> (p: SemiringProperties) {
        SemiringProperties {
            bits: LEFT_SEMIRING | RIGHT_SEMIRING | COMMUTATIVE | IDEMPOTENT | PATH,
        }
    }

    fn is_zero(&self) -> (b: bool) {
        !self.value
    }

    fn same(&self, rhs: &Self) -> (b: bool) {
        self.value == rhs.value
    }
}

impl WeaklyDivisibleSemiring for BooleanWeight {
    /// `false` cannot be divided by; the quotient by `true` is the weight.
    open spec fn divide_spec(self, rhs: Self, divide_type: DivideType) -> Result<Self, FstError> {
        if rhs == Self::zero_spec() {
            Err(FstError::WeightNotDivisible)
        } else {
            Ok(self)
        }
    }

    proof fn lemma_divide(a: Self, b: Self, divide_type: DivideType) {
    }

    fn divide(&self, rhs: &Self, _divide_type: DivideType) -> (r: Result<Self, FstError>) {
        if rhs.is_zero() {
            Err(FstError::WeightNotDivisible)
        } else {
            Ok(*self)
        }
    }
}

impl SerializableSemiring for BooleanWeight {
    open spec fn weight_type_spec() -> Seq<char> {
        "boolean"@
    }

    open spec fn binary_spec(self) -> Seq<u8> {
        seq![if self.value_spec() { 1u8 } else { 0u8 }]
    }

    open spec fn parse_binary_spec(i: Seq<u8>) -> Parsed<Self> {
        match u8_spec(i) {
            Ok((v, rest)) => Ok((Self::new_spec(v != 0), rest)),
            Err(e) => Err(e),
        }
    }

    proof fn lemma_binary_round_trip(w: Self, rest: Seq<u8>) {
        assert((w.binary_spec() + rest).skip(1) =~= rest);
    }

    proof fn lemma_binary_prefix(w: Self, k: int) {
    }

    proof fn lemma_weight_type_fits() {
        reveal_strlit("boolean");
        vstd::utf8::is_ascii_chars_encode_utf8("boolean"@);
    }

    fn weight_type() -> (s: String) {
        "boolean".to_owned()
    }

    fn parse_binary(i: &[u8]) -> (r: Result<(&[u8], Self), FstError>) {
        match read_u8(i) {
            Ok((rest, v)) => Ok((rest, BooleanWeight { value: v != 0 })),
            Err(e) => Err(e),
        }
    }

    fn write_binary(&self, out: &mut Vec<u8>) {
        out.push(if self.value { 1u8 } else { 0u8 });
        assert(out@ =~= old(out)@ + self.binary_spec());
    }
}

/// A weight is determined by its carrier value, and every value is carried.
pub proof fn lemma_boolean_weight_value(v: bool, w: BooleanWeight)
    ensures
        <BooleanWeight as Semiring>::new_spec(v).value_spec() == v,
        <BooleanWeight as Semiring>::new_spec(w.value_spec()) == w,
{
}

impl WeightQuantize for BooleanWeight {
    /// Every weight is a weight of the grid.
    open spec fn quantize_spec(self) -> Self {
        self
    }

    proof fn lemma_quantize_settles(a: Self) {
    }

    fn quantize(&self) -> (w: Self) {
        *self
    }
}

} // verus!
