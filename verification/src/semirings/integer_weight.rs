//! The integers modulo `2^32`, as a semiring with the usual sum and product.

use vstd::arithmetic::div_mod::{lemma_fundamental_div_mod, lemma_mod_multiples_vanish};
use vstd::prelude::*;

use crate::error::FstError;
use crate::parsers::bin_fst::utils_parsing::{
    i32_bytes, i32_spec, lemma_i32_round_trip, read_i32, write_bin_i32, Parsed,
};
use crate::semirings::{
    COMMUTATIVE, IDEMPOTENT, LEFT_SEMIRING, PATH, RIGHT_SEMIRING, Semiring, SemiringProperties,
    SerializableSemiring, WeightQuantize,
};

verus! {

#[derive(Clone, Copy, Debug, PartialEq, Eq, Structural, Hash, Default)]
pub struct IntegerWeight {
    value: i32,
}

/// The number in the range of `i32` that differs from `x` by a multiple of
/// `2^32`.
pub open spec fn wrap_i32(x: int) -> i32 {
    let r = x % 0x1_0000_0000;
    if r >= 0x8000_0000 {
        (r - 0x1_0000_0000) as i32
    } else {
        r as i32
    }
}

/// `wrap_i32` keeps what lies in range, and does not tell apart two numbers
/// that differ by a multiple of `2^32`.
pub proof fn lemma_wrap_i32(x: int, k: int)
    ensures
        wrap_i32(x + k * 0x1_0000_0000) == wrap_i32(x),
        -0x8000_0000 <= x < 0x8000_0000 ==> wrap_i32(x) == x,
{
    lemma_mod_multiples_vanish(k, x, 0x1_0000_0000);
}

/// By which multiple of `2^32` a number differs from what it wraps to.
proof fn lemma_wrap_quotient(x: int) -> (q: int)
    ensures
        x == wrap_i32(x) + q * 0x1_0000_0000,
{
    lemma_fundamental_div_mod(x, 0x1_0000_0000);
    let q = x / 0x1_0000_0000;
    assert(x == 0x1_0000_0000 * q + x % 0x1_0000_0000);
    if x % 0x1_0000_0000 >= 0x8000_0000 {
        q + 1
    } else {
        q
    }
}

/// The product with a wrapped factor wraps to the wrapped product.
proof fn lemma_wrap_mul(x: int, y: int)
    ensures
        wrap_i32(wrap_i32(x) * y) == wrap_i32(x * y),
        wrap_i32(y * wrap_i32(x)) == wrap_i32(y * x),
{
    let q = lemma_wrap_quotient(x);
    let w = wrap_i32(x) as int;
    assert(x * y == w * y + (q * y) * 0x1_0000_0000) by (nonlinear_arith)
        requires
            x == w + q * 0x1_0000_0000,
    ;
    lemma_wrap_i32(w * y, q * y);
    assert(y * x == x * y) by (nonlinear_arith);
    assert(y * w == w * y) by (nonlinear_arith);
}

/// The sum with a wrapped term wraps to the wrapped sum.
proof fn lemma_wrap_add(x: int, y: int)
    ensures
        wrap_i32(wrap_i32(x) + y) == wrap_i32(x + y),
        wrap_i32(y + wrap_i32(x)) == wrap_i32(y + x),
{
    let q = lemma_wrap_quotient(x);
    lemma_wrap_i32(wrap_i32(x) + y, q);
}

impl IntegerWeight {
    pub fn new(value: i32) -> (w: Self)
        ensures
            w == <Self as Semiring>::new_spec(value),
    {
        IntegerWeight { value }
    }
}

impl Semiring for IntegerWeight {
    type Type = i32;

    open spec fn plus_spec(self, rhs: Self) -> Self {
        Self::new_spec(wrap_i32(self.value_spec() + rhs.value_spec()))
    }

    open spec fn times_spec(self, rhs: Self) -> Self {
        Self::new_spec(wrap_i32(self.value_spec() * rhs.value_spec()))
    }

    open spec fn zero_spec() -> Self {
        Self::new_spec(0)
    }

    open spec fn one_spec() -> Self {
        Self::new_spec(1)
    }

    closed spec fn new_spec(value: i32) -> Self {
        IntegerWeight { value }
    }

    closed spec fn value_spec(self) -> i32 {
        self.value
    }

    open spec fn reverse_spec(self) -> Self {
        self
    }

    open spec fn properties_spec() -> SemiringProperties {
        SemiringProperties { bits: LEFT_SEMIRING | RIGHT_SEMIRING | COMMUTATIVE }
    }

    proof fn lemma_properties(a: Self, b: Self) {
        assert(a.value * b.value == b.value * a.value) by (nonlinear_arith);
        assert((0x01u64 | 0x02u64 | 0x04u64) & 0x08u64 != 0x08u64) by (bit_vector);
        assert((0x01u64 | 0x02u64 | 0x04u64) & 0x10u64 != 0x10u64) by (bit_vector);
    }

    proof fn lemma_reverse(a: Self, b: Self) {
        assert(a.value * b.value == b.value * a.value) by (nonlinear_arith);
    }

    proof fn lemma_plus_associative(a: Self, b: Self, c: Self) {
        lemma_wrap_add(a.value + b.value, c.value as int);
        lemma_wrap_add(b.value + c.value, a.value as int);
    }

    proof fn lemma_plus_commutative(a: Self, b: Self) {
    }

    proof fn lemma_times_associative(a: Self, b: Self, c: Self) {
        lemma_wrap_mul(a.value * b.value, c.value as int);
        lemma_wrap_mul(b.value * c.value, a.value as int);
        assert((a.value * b.value) * c.value == a.value * (b.value * c.value))
            by (nonlinear_arith);
    }

    proof fn lemma_distributive(a: Self, b: Self, c: Self) {
        lemma_wrap_mul(b.value + c.value, a.value as int);
        lemma_wrap_add(a.value * b.value, wrap_i32(a.value * c.value) as int);
        lemma_wrap_add(a.value * c.value, a.value * b.value);
        lemma_wrap_add(b.value * a.value, wrap_i32(c.value * a.value) as int);
        lemma_wrap_add(c.value * a.value, b.value * a.value);
        assert(a.value * (b.value + c.value) == a.value * b.value + a.value * c.value)
            by (nonlinear_arith);
        assert((b.value + c.value) * a.value == b.value * a.value + c.value * a.value)
            by (nonlinear_arith);
    }

    proof fn lemma_identities(a: Self) {
        lemma_wrap_i32(a.value as int, 0);
        assert(a.value * 1 == a.value) by (nonlinear_arith);
        assert(1 * a.value == a.value) by (nonlinear_arith);
        assert(a.value * 0 == 0) by (nonlinear_arith);
        assert(0 * a.value == 0) by (nonlinear_arith);
    }

    fn new(value: i32) -> (w: Self) {
        IntegerWeight { value }
    }

    fn plus(&self, rhs: &Self) -> (w: Self) {
        IntegerWeight { value: self.value.wrapping_add(rhs.value) }
    }

    fn times(&self, rhs: &Self) -> (w: Self) {
        IntegerWeight { value: self.value.wrapping_mul(rhs.value) }
    }

    fn zero() -> (w: Self) {
        IntegerWeight { value: 0 }
    }

    fn one() -> (w: Self) {
        IntegerWeight { value: 1 }
    }

    fn value(&self) -> (v: i32) {
        self.value
    }

    fn reverse(&self) -> (w: Self) {
        *self
    }

    fn properties() -> (p: SemiringProperties) {
        SemiringProperties { bits: LEFT_SEMIRING | RIGHT_SEMIRING | COMMUTATIVE }
    }

    fn is_zero(&self) -> (b: bool) {
        self.value == 0
    }

    fn same(&self, rhs: &Self) -> (b: bool) {
        self.value == rhs.value
    }
}

impl SerializableSemiring for IntegerWeight {
    open spec fn weight_type_spec() -> Seq<char> {
        "integer"@
    }

    open spec fn binary_spec(self) -> Seq<u8> {
        i32_bytes(self.value_spec())
    }

    open spec fn parse_binary_spec(i: Seq<u8>) -> Parsed<Self> {
        match i32_spec(i) {
            Ok((v, rest)) => Ok((Self::new_spec(v), rest)),
            Err(e) => Err(e),
        }
    }

    proof fn lemma_binary_round_trip(w: Self, rest: Seq<u8>) {
        lemma_i32_round_trip(w.value, rest);
    }

    proof fn lemma_binary_prefix(w: Self, k: int) {
        lemma_i32_round_trip(w.value, Seq::empty());
    }

    proof fn lemma_weight_type_fits() {
        reveal_strlit("integer");
        vstd::utf8::is_ascii_chars_encode_utf8("integer"@);
    }

    fn weight_type() -> (s: String) {
        "integer".to_owned()
    }

    fn parse_binary(i: &[u8]) -> (r: Result<(&[u8], Self), FstError>) {
        match read_i32(i) {
            Ok((rest, v)) => Ok((rest, IntegerWeight { value: v })),
            Err(e) => Err(e),
        }
    }

    fn write_binary(&self, out: &mut Vec<u8>) {
        write_bin_i32(out, self.value);
    }
}

/// A weight is determined by its carrier value, and every value is carried.
pub proof fn lemma_integer_weight_value(v: i32, w: IntegerWeight)
    ensures
        <IntegerWeight as Semiring>::new_spec(v).value_spec() == v,
        <IntegerWeight as Semiring>::new_spec(w.value_spec()) == w,
{
}

impl WeightQuantize for IntegerWeight {
    /// Every weight is a weight of the grid.
    open spec fn quantize_spec(self) -> Self {
        self
    }

    proof fn lemma_quantize_settles(a: Self) {
    }

    fn quantize(&self) -> (w: Self) {
        *self
    }
}

} // verus!
