//! Little-endian integers, and what the container builds from them.

use vstd::bytes::{
    lemma_auto_spec_u32_to_from_le_bytes, lemma_auto_spec_u64_to_from_le_bytes,
    spec_u32_from_le_bytes, spec_u32_to_le_bytes, spec_u64_from_le_bytes, spec_u64_to_le_bytes,
    u32_to_le_bytes, u64_to_le_bytes,
};
use vstd::prelude::*;
use vstd::string::StringSliceAdditionalSpecFns;

use crate::error::FstError;
use crate::semirings::{Semiring, SerializableSemiring};
use crate::tr::Tr;
use crate::{Label, StateId};

verus! {

#[verifier::external_type_specification]
#[verifier::external_body]
#[verifier::reject_recursive_types(E)]
pub struct ExNomErr<E>(nom::Err<E>);

#[verifier::external_type_specification]
#[verifier::external_body]
#[verifier::reject_recursive_types(I)]
pub struct ExNomError<I>(nom::error::Error<I>);

/// What nom's parsers of numbers return on bytes.
pub type NomResult<'a, T> = Result<(&'a [u8], T), nom::Err<nom::error::Error<&'a [u8]>>>;

/// Calls `nom::number::complete::le_u8`. It is trusted to fail on an empty
/// input and else to return the first byte and the bytes after it.
#[verifier::external_body]
pub(crate) fn parse_bin_u8(i: &[u8]) -> (r: NomResult<'_, u8>)
    ensures
        i@.len() < 1 ==> r is Err,
        i@.len() >= 1 ==> r is Ok && r->Ok_0.0@ == i@.skip(1) && r->Ok_0.1 == i@[0],
{
    nom::number::complete::le_u8(i)
}

/// Calls `nom::number::complete::le_i32`. It is trusted to fail on fewer than
/// four bytes and else to return the first four bytes, read as a
/// little-endian two's complement number, and the bytes after them.
#[verifier::external_body]
pub(crate) fn parse_bin_i32(i: &[u8]) -> (r: NomResult<'_, i32>)
    ensures
        i@.len() < 4 ==> r is Err,
        i@.len() >= 4 ==> r is Ok && r->Ok_0.0@ == i@.skip(4) && r->Ok_0.1
            == spec_u32_from_le_bytes(i@.take(4)) as i32,
{
    nom::number::complete::le_i32(i)
}

/// Calls `nom::number::complete::le_i64`. It is trusted to fail on fewer than
/// eight bytes and else to return the first eight bytes, read as a
/// little-endian two's complement number, and the bytes after them.
#[verifier::external_body]
pub(crate) fn parse_bin_i64(i: &[u8]) -> (r: NomResult<'_, i64>)
    ensures
        i@.len() < 8 ==> r is Err,
        i@.len() >= 8 ==> r is Ok && r->Ok_0.0@ == i@.skip(8) && r->Ok_0.1
            == spec_u64_from_le_bytes(i@.take(8)) as i64,
{
    nom::number::complete::le_i64(i)
}

/// Calls `nom::number::complete::le_u64`. It is trusted to fail on fewer than
/// eight bytes and else to return the first eight bytes, read as a
/// little-endian number, and the bytes after them.
#[verifier::external_body]
pub(crate) fn parse_bin_u64(i: &[u8]) -> (r: NomResult<'_, u64>)
    ensures
        i@.len() < 8 ==> r is Err,
        i@.len() >= 8 ==> r is Ok && r->Ok_0.0@ == i@.skip(8) && r->Ok_0.1
            == spec_u64_from_le_bytes(i@.take(8)),
{
    nom::number::complete::le_u64(i)
}

/// Calls `core::str::from_utf8`. It is trusted to accept exactly the byte
/// strings that are well-formed UTF-8, and to return them as they are.
#[verifier::external_body]
pub(crate) fn str_from_utf8(bytes: &[u8]) -> (r: Option<&str>)
    ensures
        r is Some <==> vstd::utf8::valid_utf8(bytes@),
        r matches Some(s) ==> s.spec_bytes() == bytes@,
{
    core::str::from_utf8(bytes).ok()
}

/// A value read from the front of some bytes, with the bytes after it.
pub type Parsed<T> = Result<(T, Seq<u8>), FstError>;

/// The first byte of `i`.
pub open spec fn u8_spec(i: Seq<u8>) -> Parsed<u8> {
    if i.len() < 1 {
        Err(FstError::Truncated)
    } else {
        Ok((i[0], i.skip(1)))
    }
}

/// The first four bytes of `i` as a little-endian two's complement number.
pub open spec fn i32_spec(i: Seq<u8>) -> Parsed<i32> {
    if i.len() < 4 {
        Err(FstError::Truncated)
    } else {
        Ok((spec_u32_from_le_bytes(i.take(4)) as i32, i.skip(4)))
    }
}

/// The first eight bytes of `i` as a little-endian two's complement number.
pub open spec fn i64_spec(i: Seq<u8>) -> Parsed<i64> {
    if i.len() < 8 {
        Err(FstError::Truncated)
    } else {
        Ok((spec_u64_from_le_bytes(i.take(8)) as i64, i.skip(8)))
    }
}

/// The first eight bytes of `i` as a little-endian number.
pub open spec fn u64_spec(i: Seq<u8>) -> Parsed<u64> {
    if i.len() < 8 {
        Err(FstError::Truncated)
    } else {
        Ok((spec_u64_from_le_bytes(i.take(8)), i.skip(8)))
    }
}

/// Whether an executable parser's result is what the specification gives on
/// the same bytes.
pub open spec fn parsed_as<T>(r: Result<(&[u8], T), FstError>, spec: Parsed<T>) -> bool {
    match spec {
        Ok((v, rest)) => r is Ok && r->Ok_0.1 == v && r->Ok_0.0@ == rest,
        Err(e) => r is Err && r->Err_0 == e,
    }
}

/// Reads a byte.
pub fn read_u8(i: &[u8]) -> (r: Result<(&[u8], u8), FstError>)
    ensures
        parsed_as(r, u8_spec(i@)),
{
    match parse_bin_u8(i) {
        Ok((rest, v)) => Ok((rest, v)),
        Err(_) => Err(FstError::Truncated),
    }
}

/// Reads a little-endian `i32`.
pub fn read_i32(i: &[u8]) -> (r: Result<(&[u8], i32), FstError>)
    ensures
        parsed_as(r, i32_spec(i@)),
{
    match parse_bin_i32(i) {
        Ok((rest, v)) => Ok((rest, v)),
        Err(_) => Err(FstError::Truncated),
    }
}

/// Reads a little-endian `i64`.
pub fn read_i64(i: &[u8]) -> (r: Result<(&[u8], i64), FstError>)
    ensures
        parsed_as(r, i64_spec(i@)),
{
    match parse_bin_i64(i) {
        Ok((rest, v)) => Ok((rest, v)),
        Err(_) => Err(FstError::Truncated),
    }
}

/// Reads a little-endian `u64`.
pub fn read_u64(i: &[u8]) -> (r: Result<(&[u8], u64), FstError>)
    ensures
        parsed_as(r, u64_spec(i@)),
{
    match parse_bin_u64(i) {
        Ok((rest, v)) => Ok((rest, v)),
        Err(_) => Err(FstError::Truncated),
    }
}

/// The four bytes that stand for `v`.
pub open spec fn i32_bytes(v: i32) -> Seq<u8> {
    spec_u32_to_le_bytes(v as u32)
}

/// The eight bytes that stand for `v`.
pub open spec fn i64_bytes(v: i64) -> Seq<u8> {
    spec_u64_to_le_bytes(v as u64)
}

/// The eight bytes that stand for `v`.
pub open spec fn u64_bytes(v: u64) -> Seq<u8> {
    spec_u64_to_le_bytes(v)
}

/// Reading what was written gives the number back, and the bytes behind it.
pub proof fn lemma_i32_round_trip(v: i32, rest: Seq<u8>)
    ensures
        i32_bytes(v).len() == 4,
        i32_spec(i32_bytes(v) + rest) == Ok::<(i32, Seq<u8>), FstError>((v, rest)),
{
    lemma_auto_spec_u32_to_from_le_bytes();
    let b = i32_bytes(v);
    assert((b + rest).take(4) =~= b);
    assert((b + rest).skip(4) =~= rest);
    assert((v as u32) as i32 == v) by (bit_vector);
}

/// Reading what was written gives the number back, and the bytes behind it.
pub proof fn lemma_i64_round_trip(v: i64, rest: Seq<u8>)
    ensures
        i64_bytes(v).len() == 8,
        i64_spec(i64_bytes(v) + rest) == Ok::<(i64, Seq<u8>), FstError>((v, rest)),
{
    lemma_auto_spec_u64_to_from_le_bytes();
    let b = i64_bytes(v);
    assert((b + rest).take(8) =~= b);
    assert((b + rest).skip(8) =~= rest);
    assert((v as u64) as i64 == v) by (bit_vector);
}

/// Reading what was written gives the number back, and the bytes behind it.
pub proof fn lemma_u64_round_trip(v: u64, rest: Seq<u8>)
    ensures
        u64_bytes(v).len() == 8,
        u64_spec(u64_bytes(v) + rest) == Ok::<(u64, Seq<u8>), FstError>((v, rest)),
{
    lemma_auto_spec_u64_to_from_le_bytes();
    let b = u64_bytes(v);
    assert((b + rest).take(8) =~= b);
    assert((b + rest).skip(8) =~= rest);
}

/// Appends `bytes` to `out`.
pub fn write_bytes(out: &mut Vec<u8>, bytes: &[u8])
    ensures
        final(out)@ == old(out)@ + bytes@,
{
    let mut i: usize = 0;
    while i < bytes.len()
        invariant
            i <= bytes.len(),
            out@ == old(out)@ + bytes@.take(i as int),
        decreases bytes.len() - i,
    {
        out.push(bytes[i]);
        i = i + 1;
        assert(out@ =~= old(out)@ + bytes@.take(i as int));
    }
    assert(bytes@.take(i as int) =~= bytes@);
}

/// Appends the four bytes of `v` to `out`.
pub fn write_bin_i32(out: &mut Vec<u8>, v: i32)
    ensures
        final(out)@ == old(out)@ + i32_bytes(v),
{
    let mut bytes = u32_to_le_bytes(v as u32);
    out.append(&mut bytes);
}

/// Appends the eight bytes of `v` to `out`.
pub fn write_bin_i64(out: &mut Vec<u8>, v: i64)
    ensures
        final(out)@ == old(out)@ + i64_bytes(v),
{
    let mut bytes = u64_to_le_bytes(v as u64);
    out.append(&mut bytes);
}

/// Appends the eight bytes of `v` to `out`.
pub fn write_bin_u64(out: &mut Vec<u8>, v: u64)
    ensures
        final(out)@ == old(out)@ + u64_bytes(v),
{
    let mut bytes = u64_to_le_bytes(v);
    out.append(&mut bytes);
}

/// The start state that the header field `s` stands for: none for `-1`.
pub open spec fn start_state_spec(s: i64) -> Option<StateId> {
    if s == -1 {
        None
    } else {
        Some(s as StateId)
    }
}

/// The label that the field `l` of a transition stands for.
pub open spec fn label_spec(l: i32) -> Label {
    l as Label
}

pub fn parse_start_state(s: i64) -> (r: Option<StateId>)
    ensures
        r == start_state_spec(s),
{
    if s == -1 {
        None
    } else {
        Some(s as StateId)
    }
}

/// The final weight that a weight in a state's record stands for: none for
/// the zero of the semiring.
pub open spec fn final_weight_spec<W: Semiring>(weight: W) -> Option<W> {
    if weight == W::zero_spec() {
        None
    } else {
        Some(weight)
    }
}

pub fn parse_final_weight<W: SerializableSemiring>(weight: W) -> (r: Option<W>)
    ensures
        r == final_weight_spec(weight),
{
    if !weight.is_zero() {
        Some(weight)
    } else {
        None
    }
}

/// The transition at the front of `i`: its input label, its output label, its
/// weight and its target, in this order.
pub open spec fn tr_spec<W: SerializableSemiring>(i: Seq<u8>) -> Parsed<Tr<W>> {
    match i32_spec(i) {
        Err(e) => Err(e),
        Ok((ilabel, i1)) => match i32_spec(i1) {
            Err(e) => Err(e),
            Ok((olabel, i2)) => match W::parse_binary_spec(i2) {
                Err(e) => Err(e),
                Ok((weight, i3)) => match i32_spec(i3) {
                    Err(e) => Err(e),
                    Ok((nextstate, i4)) => Ok(
                        (
                            Tr {
                                ilabel: label_spec(ilabel),
                                olabel: label_spec(olabel),
                                weight,
                                nextstate: nextstate as StateId,
                            },
                            i4,
                        ),
                    ),
                },
            },
        },
    }
}

pub fn parse_fst_tr<W: SerializableSemiring>(i: &[u8]) -> (r: Result<(&[u8], Tr<W>), FstError>)
    ensures
        parsed_as(r, tr_spec::<W>(i@)),
{
    let (i, ilabel) = read_i32(i)?;
    let (i, olabel) = read_i32(i)?;
    let (i, weight) = W::parse_binary(i)?;
    let (i, nextstate) = read_i32(i)?;
    Ok(
        (
            i,
            Tr {
                ilabel: ilabel as Label,
                olabel: olabel as Label,
                weight,
                nextstate: nextstate as StateId,
            },
        ),
    )
}

} // verus!
