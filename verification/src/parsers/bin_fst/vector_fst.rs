//! A `VectorFst` in the binary container format.
//!
//! ```text
//! magic:i32  fst-type:string  arc-type:string  version:i32
//! flags:i32  properties:u64   start:i64  num-states:i64  num-arcs:i64
//! repeat num-states times:
//!     final-weight:W   num-arcs:i64
//!     repeat num-arcs times:
//!         ilabel:i32  olabel:i32  weight:W  nextstate:i32
//! ```
//!
//! Every number is little-endian. A string is its length in bytes, as an
//! `i32`, and then that many bytes of UTF-8.

use vstd::prelude::*;
use vstd::string::StringSliceAdditionalSpecFns;
use vstd::utf8::{decode_utf8, encode_utf8, valid_utf8};

use crate::error::FstError;
use crate::fst_impls::{FstModel, StateModel, VectorFst, VectorFstState};
use crate::fst_properties::properties_spec;
use crate::parsers::bin_fst::utils_parsing::{
    label_spec, lemma_i32_round_trip, lemma_i64_round_trip, lemma_u64_round_trip,
};
use crate::parsers::bin_fst::utils_parsing::{
    final_weight_spec, i32_bytes, i32_spec, i64_bytes, i64_spec, parse_final_weight,
    parse_fst_tr, parse_start_state, parsed_as, read_i32, read_i64, read_u64, start_state_spec,
    str_from_utf8, tr_spec, u64_bytes, u64_spec, write_bin_i32, write_bin_i64, write_bin_u64,
    write_bytes, Parsed,
};
use crate::semirings::{Semiring, SerializableSemiring};
use crate::tr::Tr;
use crate::StateId;

verus! {

/// Identifies stream data as an FST (and its endianity).
pub const FST_MAGIC_NUMBER: i32 = 2_125_659_606;

/// The oldest version of the container that is read.
pub const MIN_FILE_VERSION: i32 = 2;

/// The header field that stands for "no start state".
pub const NO_START: i64 = -1;

/// The fixed part of a container, before the states.
pub struct FstHeader {
    pub magic_number: i32,
    pub fst_type: String,
    pub arc_type: String,
    pub version: i32,
    pub flags: i32,
    pub properties: u64,
    pub start: i64,
    pub num_states: i64,
    pub num_arcs: i64,
}

/// What a header holds.
pub ghost struct HeaderModel {
    pub magic_number: i32,
    pub fst_type: Seq<char>,
    pub arc_type: Seq<char>,
    pub version: i32,
    pub flags: i32,
    pub properties: u64,
    pub start: i64,
    pub num_states: i64,
    pub num_arcs: i64,
}

impl View for FstHeader {
    type V = HeaderModel;

    open spec fn view(&self) -> HeaderModel {
        HeaderModel {
            magic_number: self.magic_number,
            fst_type: self.fst_type@,
            arc_type: self.arc_type@,
            version: self.version,
            flags: self.flags,
            properties: self.properties,
            start: self.start,
            num_states: self.num_states,
            num_arcs: self.num_arcs,
        }
    }
}

/// The string at the front of `i`.
pub open spec fn string_spec(i: Seq<u8>) -> Parsed<Seq<char>> {
    match i32_spec(i) {
        Err(e) => Err(e),
        Ok((n, rest)) => if n < 0 || rest.len() < n {
            Err(FstError::Truncated)
        } else if !valid_utf8(rest.take(n as int)) {
            Err(FstError::Format)
        } else {
            Ok((decode_utf8(rest.take(n as int)), rest.skip(n as int)))
        },
    }
}

/// The header at the front of `i`. The magic number is checked as soon as it
/// is read, and so is the version.
pub open spec fn header_spec(i: Seq<u8>) -> Parsed<HeaderModel> {
    match i32_spec(i) {
        Err(e) => Err(e),
        Ok((magic_number, i1)) => if magic_number != FST_MAGIC_NUMBER {
            Err(FstError::Format)
        } else {
            match string_spec(i1) {
                Err(e) => Err(e),
                Ok((fst_type, i2)) => match string_spec(i2) {
                    Err(e) => Err(e),
                    Ok((arc_type, i3)) => match i32_spec(i3) {
                        Err(e) => Err(e),
                        Ok((version, i4)) => if version < MIN_FILE_VERSION {
                            Err(FstError::UnsupportedVersion)
                        } else {
                            header_tail_spec(magic_number, fst_type, arc_type, version, i4)
                        },
                    },
                },
            }
        },
    }
}

/// The header whose first four fields were read, the rest standing at the
/// front of `i`.
pub open spec fn header_tail_spec(
    magic_number: i32,
    fst_type: Seq<char>,
    arc_type: Seq<char>,
    version: i32,
    i: Seq<u8>,
) -> Parsed<HeaderModel> {
    match i32_spec(i) {
        Err(e) => Err(e),
        Ok((flags, i5)) => match u64_spec(i5) {
            Err(e) => Err(e),
            Ok((properties, i6)) => match i64_spec(i6) {
                Err(e) => Err(e),
                Ok((start, i7)) => match i64_spec(i7) {
                    Err(e) => Err(e),
                    Ok((num_states, i8)) => match i64_spec(i8) {
                        Err(e) => Err(e),
                        Ok((num_arcs, i9)) => Ok(
                            (
                                HeaderModel {
                                    magic_number,
                                    fst_type,
                                    arc_type,
                                    version,
                                    flags,
                                    properties,
                                    start,
                                    num_states,
                                    num_arcs,
                                },
                                i9,
                            ),
                        ),
                    },
                },
            },
        },
    }
}

/// The `n` transitions at the front of `i`, appended to `acc`.
pub open spec fn trs_spec<W: SerializableSemiring>(i: Seq<u8>, n: nat, acc: Seq<Tr<W>>) -> Parsed<
    Seq<Tr<W>>,
>
    decreases n,
{
    if n == 0 {
        Ok((acc, i))
    } else {
        match tr_spec::<W>(i) {
            Err(e) => Err(e),
            Ok((tr, rest)) => trs_spec(rest, (n - 1) as nat, acc.push(tr)),
        }
    }
}

/// The state at the front of `i`: its final weight, where the zero of the
/// semiring stands for "not final", the number of its transitions, and the
/// transitions.
pub open spec fn state_spec<W: SerializableSemiring>(i: Seq<u8>) -> Parsed<StateModel<W>> {
    match W::parse_binary_spec(i) {
        Err(e) => Err(e),
        Ok((weight, i1)) => match i64_spec(i1) {
            Err(e) => Err(e),
            Ok((num_arcs, i2)) => if num_arcs < 0 {
                Err(FstError::Truncated)
            } else {
                match trs_spec::<W>(i2, num_arcs as nat, Seq::empty()) {
                    Err(e) => Err(e),
                    Ok((trs, i3)) => Ok(
                        (StateModel { final_weight: final_weight_spec(weight), trs }, i3),
                    ),
                }
            },
        },
    }
}

/// The `n` states at the front of `i`, appended to `acc`.
pub open spec fn states_spec<W: SerializableSemiring>(
    i: Seq<u8>,
    n: nat,
    acc: Seq<StateModel<W>>,
) -> Parsed<Seq<StateModel<W>>>
    decreases n,
{
    if n == 0 {
        Ok((acc, i))
    } else {
        match state_spec::<W>(i) {
            Err(e) => Err(e),
            Ok((state, rest)) => states_spec(rest, (n - 1) as nat, acc.push(state)),
        }
    }
}

/// The transducer that the bytes `i` hold. Bytes after the last state are
/// ignored. A count below zero asks for more than any input holds. The
/// transducer must name only states that it has.
pub open spec fn fst_spec<W: SerializableSemiring>(i: Seq<u8>) -> Result<FstModel<W>, FstError> {
    match header_spec(i) {
        Err(e) => Err(e),
        Ok((header, i1)) => if header.num_states < 0 {
            Err(FstError::Truncated)
        } else {
            match states_spec::<W>(i1, header.num_states as nat, Seq::empty()) {
                Err(e) => Err(e),
                Ok((states, _)) => {
                    let m = FstModel { start: start_state_spec(header.start), states };
                    if m.wf() {
                        Ok(m)
                    } else {
                        Err(FstError::Format)
                    }
                },
            }
        },
    }
}

/// Reads a string.
pub fn parse_fst_string(i: &[u8]) -> (r: Result<(&[u8], String), FstError>)
    ensures
        match string_spec(i@) {
            Ok((s, rest)) => r is Ok && r->Ok_0.1@ == s && r->Ok_0.0@ == rest,
            Err(e) => r is Err && r->Err_0 == e,
        },
{
    let (rest, n) = read_i32(i)?;
    if n < 0 || rest.len() < n as usize {
        return Err(FstError::Truncated);
    }
    let (bytes, rest) = rest.split_at(n as usize);
    match str_from_utf8(bytes) {
        None => Err(FstError::Format),
        Some(s) => {
            proof {
                vstd::utf8::encode_utf8_decode_utf8(s@);
            }
            Ok((rest, s.to_owned()))
        },
    }
}

/// Reads a header.
pub fn parse_fst_header(i: &[u8]) -> (r: Result<(&[u8], FstHeader), FstError>)
    ensures
        match header_spec(i@) {
            Ok((h, rest)) => r is Ok && r->Ok_0.1@ == h && r->Ok_0.0@ == rest,
            Err(e) => r is Err && r->Err_0 == e,
        },
{
    let (i, magic_number) = read_i32(i)?;
    if magic_number != FST_MAGIC_NUMBER {
        return Err(FstError::Format);
    }
    let (i, fst_type) = parse_fst_string(i)?;
    let (i, arc_type) = parse_fst_string(i)?;
    let (i, version) = read_i32(i)?;
    if version < MIN_FILE_VERSION {
        return Err(FstError::UnsupportedVersion);
    }
    let (i, flags) = read_i32(i)?;
    let (i, properties) = read_u64(i)?;
    let (i, start) = read_i64(i)?;
    let (i, num_states) = read_i64(i)?;
    let (i, num_arcs) = read_i64(i)?;
    Ok(
        (
            i,
            FstHeader {
                magic_number,
                fst_type,
                arc_type,
                version,
                flags,
                properties,
                start,
                num_states,
                num_arcs,
            },
        ),
    )
}

/// Reads a state.
pub fn parse_fst_state<W: SerializableSemiring>(i: &[u8]) -> (r: Result<
    (&[u8], VectorFstState<W>),
    FstError,
>)
    ensures
        match state_spec::<W>(i@) {
            Ok((s, rest)) => r is Ok && r->Ok_0.1@ == s && r->Ok_0.0@ == rest,
            Err(e) => r is Err && r->Err_0 == e,
        },
{
    let (i1, weight) = W::parse_binary(i)?;
    let (i2, num_arcs) = read_i64(i1)?;
    if num_arcs < 0 {
        return Err(FstError::Truncated);
    }
    let mut trs: Vec<Tr<W>> = Vec::new();
    let mut cur = i2;
    let mut k: i64 = 0;
    while k < num_arcs
        invariant
            0 <= k <= num_arcs,
            W::parse_binary_spec(i@) == Ok::<(W, Seq<u8>), FstError>((weight, i1@)),
            i64_spec(i1@) == Ok::<(i64, Seq<u8>), FstError>((num_arcs, i2@)),
            trs_spec::<W>(i2@, num_arcs as nat, Seq::empty()) == trs_spec::<W>(
                cur@,
                (num_arcs - k) as nat,
                trs@,
            ),
        decreases num_arcs - k,
    {
        let (rest, tr) = parse_fst_tr::<W>(cur)?;
        trs.push(tr);
        cur = rest;
        k = k + 1;
    }
    Ok((cur, VectorFstState { final_weight: parse_final_weight(weight), trs }))
}

impl<W: SerializableSemiring> VectorFst<W> {
    /// Reads a transducer from the bytes of a container.
    pub fn read(bytes: &[u8]) -> (r: Result<Self, FstError>)
        ensures
            match fst_spec::<W>(bytes@) {
                Ok(m) => r is Ok && r->Ok_0.wf() && r->Ok_0@ == m,
                Err(e) => r is Err && r->Err_0 == e,
            },
    {
        let (i1, header) = parse_fst_header(bytes)?;
        let num_states = header.num_states;
        if num_states < 0 {
            return Err(FstError::Truncated);
        }
        let mut states: Vec<VectorFstState<W>> = Vec::new();
        assert(crate::fst_impls::vector_fst::state_models(states@) =~= Seq::empty());
        let mut cur = i1;
        let mut k: i64 = 0;
        while k < num_states
            invariant
                0 <= k <= num_states,
                header_spec(bytes@) == Ok::<(HeaderModel, Seq<u8>), FstError>((header@, i1@)),
                num_states == header.num_states,
                states_spec::<W>(i1@, num_states as nat, Seq::empty()) == states_spec::<W>(
                    cur@,
                    (num_states - k) as nat,
                    crate::fst_impls::vector_fst::state_models(states@),
                ),
            decreases num_states - k,
        {
            let (rest, state) = parse_fst_state::<W>(cur)?;
            let ghost before = crate::fst_impls::vector_fst::state_models(states@);
            states.push(state);
            assert(crate::fst_impls::vector_fst::state_models(states@) =~= before.push(state@));
            cur = rest;
            k = k + 1;
        }
        match VectorFst::from_parts(states, parse_start_state(header.start)) {
            Ok(fst) => Ok(fst),
            Err(_) => Err(FstError::Format),
        }
    }
}

/// The bytes that stand for a string.
pub open spec fn string_bytes(s: Seq<char>) -> Seq<u8> {
    i32_bytes(encode_utf8(s).len() as i32) + encode_utf8(s)
}

/// The header field that stands for a start state.
pub open spec fn start_field(start: Option<StateId>) -> i64 {
    match start {
        None => NO_START,
        Some(s) => s as i64,
    }
}

/// How many transitions the states have together, counted modulo `2^64`.
pub open spec fn total_trs<W>(states: Seq<StateModel<W>>) -> u64
    decreases states.len(),
{
    if states.len() == 0 {
        0
    } else {
        total_trs(states.drop_last()).wrapping_add(states.last().trs.len() as u64)
    }
}

/// The bytes of the header of `m`.
pub open spec fn header_bytes<W: SerializableSemiring>(m: FstModel<W>) -> Seq<u8> {
    i32_bytes(FST_MAGIC_NUMBER) + string_bytes("vector"@) + string_bytes(W::weight_type_spec())
        + i32_bytes(MIN_FILE_VERSION) + i32_bytes(0) + u64_bytes(properties_spec(m)) + i64_bytes(
        start_field(m.start),
    ) + i64_bytes(m.states.len() as i64) + i64_bytes(total_trs(m.states) as i64)
}

/// The bytes of a transition.
pub open spec fn tr_bytes<W: SerializableSemiring>(tr: Tr<W>) -> Seq<u8> {
    i32_bytes(tr.ilabel as i32) + i32_bytes(tr.olabel as i32) + tr.weight.binary_spec()
        + i32_bytes(tr.nextstate as i32)
}

/// The bytes of some transitions, one after the other.
pub open spec fn trs_bytes<W: SerializableSemiring>(trs: Seq<Tr<W>>) -> Seq<u8>
    decreases trs.len(),
{
    if trs.len() == 0 {
        Seq::empty()
    } else {
        trs_bytes(trs.drop_last()) + tr_bytes(trs.last())
    }
}

/// The weight that is written for a final weight: the zero for "not final".
pub open spec fn final_field<W: Semiring>(final_weight: Option<W>) -> W {
    match final_weight {
        None => W::zero_spec(),
        Some(w) => w,
    }
}

/// The bytes of a state.
pub open spec fn state_bytes<W: SerializableSemiring>(state: StateModel<W>) -> Seq<u8> {
    final_field(state.final_weight).binary_spec() + i64_bytes(state.trs.len() as i64)
        + trs_bytes(state.trs)
}

/// The bytes of some states, one after the other.
pub open spec fn states_bytes<W: SerializableSemiring>(states: Seq<StateModel<W>>) -> Seq<u8>
    decreases states.len(),
{
    if states.len() == 0 {
        Seq::empty()
    } else {
        states_bytes(states.drop_last()) + state_bytes(states.last())
    }
}

/// The bytes of the container that holds `m`.
pub open spec fn fst_bytes<W: SerializableSemiring>(m: FstModel<W>) -> Seq<u8> {
    header_bytes(m) + states_bytes(m.states)
}

/// Appends a string to `out`.
pub fn write_bin_string(out: &mut Vec<u8>, s: &str)
    ensures
        final(out)@ == old(out)@ + string_bytes(s@),
{
    let bytes = s.as_bytes();
    write_bin_i32(out, bytes.len() as i32);
    write_bytes(out, bytes);
    assert(out@ =~= old(out)@ + string_bytes(s@));
}

/// Appends a transition to `out`.
pub fn write_bin_tr<W: SerializableSemiring>(out: &mut Vec<u8>, tr: &Tr<W>)
    ensures
        final(out)@ == old(out)@ + tr_bytes(*tr),
{
    write_bin_i32(out, tr.ilabel as i32);
    write_bin_i32(out, tr.olabel as i32);
    tr.weight.write_binary(out);
    write_bin_i32(out, tr.nextstate as i32);
    assert(out@ =~= old(out)@ + tr_bytes(*tr));
}

impl<W: SerializableSemiring> VectorFst<W> {
    /// The bytes of the container that holds the transducer.
    pub fn write(&self) -> (bytes: Vec<u8>)
        ensures
            bytes@ == fst_bytes(self@),
    {
        let mut out: Vec<u8> = Vec::new();
        let n = self.num_states();
        let weight_type = W::weight_type();
        let properties = self.properties();

        let mut num_arcs: u64 = 0;
        let mut s: usize = 0;
        while s < n
            invariant
                s <= n,
                n == self@.states.len(),
                num_arcs == total_trs(self@.states.take(s as int)),
            decreases n - s,
        {
            assert(self@.states.take(s + 1).drop_last() =~= self@.states.take(s as int));
            num_arcs = num_arcs.wrapping_add(self.trs(s).len() as u64);
            s = s + 1;
        }
        assert(self@.states.take(n as int) =~= self@.states);

        // FstHeader
        write_bin_i32(&mut out, FST_MAGIC_NUMBER);
        write_bin_string(&mut out, "vector");
        write_bin_string(&mut out, weight_type.as_str());
        write_bin_i32(&mut out, MIN_FILE_VERSION);
        write_bin_i32(&mut out, 0i32);
        write_bin_u64(&mut out, properties.bits());
        let start = match self.start() {
            None => NO_START,
            Some(s) => s as i64,
        };
        write_bin_i64(&mut out, start);
        write_bin_i64(&mut out, n as i64);
        write_bin_i64(&mut out, num_arcs as i64);
        assert(out@ =~= header_bytes(self@));

        // FstBody
        let mut state: usize = 0;
        while state < n
            invariant
                state <= n,
                n == self@.states.len(),
                out@ == header_bytes(self@) + states_bytes(self@.states.take(state as int)),
            decreases n - state,
        {
            let ghost before = out@;
            let f_weight = match self.final_weight(state) {
                Ok(Some(w)) => w,
                _ => W::zero(),
            };
            f_weight.write_binary(&mut out);
            let trs = self.trs(state);
            write_bin_i64(&mut out, trs.len() as i64);
            let ghost head = out@;
            let mut i: usize = 0;
            while i < trs.len()
                invariant
                    i <= trs.len(),
                    out@ == head + trs_bytes(trs@.take(i as int)),
                decreases trs.len() - i,
            {
                assert(trs@.take(i + 1).drop_last() =~= trs@.take(i as int));
                write_bin_tr(&mut out, &trs[i]);
                i = i + 1;
                assert(out@ =~= head + trs_bytes(trs@.take(i as int)));
            }
            assert(trs@.take(i as int) =~= trs@);
            assert(self@.states.take(state + 1).drop_last() =~= self@.states.take(state as int));
            assert(out@ =~= before + state_bytes(self@.states[state as int]));
            state = state + 1;
            assert(out@ =~= header_bytes(self@) + states_bytes(
                self@.states.take(state as int),
            ));
        }
        assert(self@.states.take(n as int) =~= self@.states);
        out
    }
}

/// Whether a label, or a state, comes back from the four bytes that it is
/// written to.
pub open spec fn fits_i32(v: usize) -> bool {
    (v as i32) as usize == v
}

/// Whether the container can hold `m` as it is: its counts are below `2^63`,
/// its labels and states come back from four bytes, and no state is final
/// with the weight zero, which stands for "not final".
pub open spec fn representable<W: Semiring>(m: FstModel<W>) -> bool {
    &&& m.states.len() <= i64::MAX
    &&& forall|s: int|
        0 <= s < m.states.len() ==> (#[trigger] m.states[s]).trs.len() <= i64::MAX
            && m.states[s].final_weight != Some(W::zero_spec())
    &&& forall|s: int, i: int|
        0 <= s < m.states.len() && 0 <= i < m.states[s].trs.len() ==> {
            let tr = #[trigger] m.states[s].trs[i];
            fits_i32(tr.ilabel) && fits_i32(tr.olabel) && fits_i32(tr.nextstate)
        }
}

proof fn lemma_string_round_trip(s: Seq<char>, rest: Seq<u8>)
    requires
        encode_utf8(s).len() < 0x8000_0000,
    ensures
        string_spec(string_bytes(s) + rest) == Ok::<(Seq<char>, Seq<u8>), FstError>((s, rest)),
{
    let b = encode_utf8(s);
    let n = b.len() as i32;
    lemma_i32_round_trip(n, b + rest);
    assert(string_bytes(s) + rest =~= i32_bytes(n) + (b + rest));
    assert((b + rest).take(n as int) =~= b);
    assert((b + rest).skip(n as int) =~= rest);
    vstd::utf8::encode_utf8_valid_utf8(s);
    vstd::utf8::encode_utf8_decode_utf8(s);
}

proof fn lemma_tr_round_trip<W: SerializableSemiring>(tr: Tr<W>, rest: Seq<u8>)
    requires
        fits_i32(tr.ilabel),
        fits_i32(tr.olabel),
        fits_i32(tr.nextstate),
    ensures
        tr_spec::<W>(tr_bytes(tr) + rest) == Ok::<(Tr<W>, Seq<u8>), FstError>((tr, rest)),
{
    let r3 = i32_bytes(tr.nextstate as i32) + rest;
    let r2 = tr.weight.binary_spec() + r3;
    let r1 = i32_bytes(tr.olabel as i32) + r2;
    assert(tr_bytes(tr) + rest =~= i32_bytes(tr.ilabel as i32) + r1);
    lemma_i32_round_trip(tr.ilabel as i32, r1);
    lemma_i32_round_trip(tr.olabel as i32, r2);
    W::lemma_binary_round_trip(tr.weight, r3);
    lemma_i32_round_trip(tr.nextstate as i32, rest);
}

proof fn lemma_trs_round_trip<W: SerializableSemiring>(
    trs: Seq<Tr<W>>,
    more: nat,
    acc: Seq<Tr<W>>,
    rest: Seq<u8>,
)
    requires
        forall|i: int|
            0 <= i < trs.len() ==> fits_i32((#[trigger] trs[i]).ilabel) && fits_i32(trs[i].olabel)
                && fits_i32(trs[i].nextstate),
    ensures
        trs_spec::<W>(trs_bytes(trs) + rest, trs.len() + more, acc) == trs_spec::<W>(
            rest,
            more,
            acc + trs,
        ),
    decreases trs.len(),
{
    if trs.len() == 0 {
        assert(trs_bytes(trs) + rest =~= rest);
        assert(acc + trs =~= acc);
    } else {
        let init = trs.drop_last();
        let last = trs.last();
        let tail = tr_bytes(last) + rest;
        assert(trs_bytes(trs) + rest =~= trs_bytes(init) + tail);
        lemma_trs_round_trip::<W>(init, more + 1, acc, tail);
        lemma_tr_round_trip::<W>(last, rest);
        assert((acc + init).push(last) =~= acc + trs);
    }
}

proof fn lemma_state_round_trip<W: SerializableSemiring>(state: StateModel<W>, rest: Seq<u8>)
    requires
        state.trs.len() <= i64::MAX,
        state.final_weight != Some(W::zero_spec()),
        forall|i: int|
            0 <= i < state.trs.len() ==> fits_i32((#[trigger] state.trs[i]).ilabel) && fits_i32(
                state.trs[i].olabel,
            ) && fits_i32(state.trs[i].nextstate),
    ensures
        state_spec::<W>(state_bytes(state) + rest) == Ok::<(StateModel<W>, Seq<u8>), FstError>(
            (state, rest),
        ),
{
    let n = state.trs.len() as i64;
    let r2 = trs_bytes(state.trs) + rest;
    let r1 = i64_bytes(n) + r2;
    let w = final_field(state.final_weight);
    assert(state_bytes(state) + rest =~= w.binary_spec() + r1);
    W::lemma_binary_round_trip(w, r1);
    lemma_i64_round_trip(n, r2);
    lemma_trs_round_trip::<W>(state.trs, 0, Seq::empty(), rest);
    assert(Seq::<Tr<W>>::empty() + state.trs =~= state.trs);
}

proof fn lemma_states_round_trip<W: SerializableSemiring>(
    states: Seq<StateModel<W>>,
    more: nat,
    acc: Seq<StateModel<W>>,
    rest: Seq<u8>,
)
    requires
        forall|s: int|
            0 <= s < states.len() ==> (#[trigger] states[s]).trs.len() <= i64::MAX
                && states[s].final_weight != Some(W::zero_spec()),
        forall|s: int, i: int|
            0 <= s < states.len() && 0 <= i < states[s].trs.len() ==> {
                let tr = #[trigger] states[s].trs[i];
                fits_i32(tr.ilabel) && fits_i32(tr.olabel) && fits_i32(tr.nextstate)
            },
    ensures
        states_spec::<W>(states_bytes(states) + rest, states.len() + more, acc) == states_spec::<
            W,
        >(rest, more, acc + states),
    decreases states.len(),
{
    if states.len() == 0 {
        assert(states_bytes(states) + rest =~= rest);
        assert(acc + states =~= acc);
    } else {
        let init = states.drop_last();
        let last = states.last();
        let tail = state_bytes(last) + rest;
        assert(states_bytes(states) + rest =~= states_bytes(init) + tail);
        assert forall|s: int, i: int|
            0 <= s < init.len() && 0 <= i < init[s].trs.len() implies {
            let tr = #[trigger] init[s].trs[i];
            fits_i32(tr.ilabel) && fits_i32(tr.olabel) && fits_i32(tr.nextstate)
        } by {
            assert(init[s] == states[s]);
            let tr = states[s].trs[i];
        }
        lemma_states_round_trip::<W>(init, more + 1, acc, tail);
        assert forall|i: int| 0 <= i < last.trs.len() implies fits_i32(
            (#[trigger] last.trs[i]).ilabel,
        ) && fits_i32(last.trs[i].olabel) && fits_i32(last.trs[i].nextstate) by {
            let tr = states[states.len() - 1].trs[i];
        }
        lemma_state_round_trip::<W>(last, rest);
        assert((acc + init).push(last) =~= acc + states);
    }
}

proof fn lemma_header_round_trip<W: SerializableSemiring>(m: FstModel<W>, rest: Seq<u8>)
    ensures
        header_spec(header_bytes(m) + rest) == Ok::<(HeaderModel, Seq<u8>), FstError>(
            (
                HeaderModel {
                    magic_number: FST_MAGIC_NUMBER,
                    fst_type: "vector"@,
                    arc_type: W::weight_type_spec(),
                    version: MIN_FILE_VERSION,
                    flags: 0,
                    properties: properties_spec(m),
                    start: start_field(m.start),
                    num_states: m.states.len() as i64,
                    num_arcs: total_trs(m.states) as i64,
                },
                rest,
            ),
        ),
{
    let r8 = i64_bytes(total_trs(m.states) as i64) + rest;
    let r7 = i64_bytes(m.states.len() as i64) + r8;
    let r6 = i64_bytes(start_field(m.start)) + r7;
    let r5 = u64_bytes(properties_spec(m)) + r6;
    let r4 = i32_bytes(0) + r5;
    let r3 = i32_bytes(MIN_FILE_VERSION) + r4;
    let r2 = string_bytes(W::weight_type_spec()) + r3;
    let r1 = string_bytes("vector"@) + r2;
    assert(header_bytes(m) + rest =~= i32_bytes(FST_MAGIC_NUMBER) + r1);
    lemma_i32_round_trip(FST_MAGIC_NUMBER, r1);
    reveal_strlit("vector");
    vstd::utf8::is_ascii_chars_encode_utf8("vector"@);
    lemma_string_round_trip("vector"@, r2);
    W::lemma_weight_type_fits();
    lemma_string_round_trip(W::weight_type_spec(), r3);
    lemma_i32_round_trip(MIN_FILE_VERSION, r4);
    lemma_i32_round_trip(0, r5);
    lemma_u64_round_trip(properties_spec(m), r6);
    lemma_i64_round_trip(start_field(m.start), r7);
    lemma_i64_round_trip(m.states.len() as i64, r8);
    lemma_i64_round_trip(total_trs(m.states) as i64, rest);
}

/// Reading what was written gives the transducer back, whatever bytes
/// follow, where the container can hold the transducer as it is.
pub proof fn lemma_read_write_round_trip<W: SerializableSemiring>(m: FstModel<W>, rest: Seq<u8>)
    requires
        m.wf(),
        representable(m),
    ensures
        fst_spec::<W>(fst_bytes(m) + rest) == Ok::<FstModel<W>, FstError>(m),
{
    let body = states_bytes(m.states) + rest;
    assert(fst_bytes(m) + rest =~= header_bytes(m) + body);
    lemma_header_round_trip::<W>(m, body);
    lemma_states_round_trip::<W>(m.states, 0, Seq::empty(), rest);
    assert(Seq::<StateModel<W>>::empty() + m.states =~= m.states);
    match m.start {
        None => {},
        Some(s) => {
            assert(s < m.states.len());
            assert((s as i64) as usize == s);
        },
    }
}

/// The first `k` bytes of two sequences put together: of the first alone,
/// or the first and the beginning of the second.
proof fn lemma_take_concat(a: Seq<u8>, b: Seq<u8>, k: int)
    requires
        0 <= k <= a.len() + b.len(),
    ensures
        k <= a.len() ==> (a + b).take(k) == a.take(k),
        k >= a.len() ==> (a + b).take(k) == a + b.take(k - a.len()),
{
    if k <= a.len() {
        assert((a + b).take(k) =~= a.take(k));
    }
    if k >= a.len() {
        assert((a + b).take(k) =~= a + b.take(k - a.len()));
    }
}

/// A string cannot be read from fewer bytes than it was written to.
proof fn lemma_string_prefix(s: Seq<char>, k: int)
    requires
        encode_utf8(s).len() < 0x8000_0000,
        0 <= k < string_bytes(s).len(),
    ensures
        string_spec(string_bytes(s).take(k)) == Err::<(Seq<char>, Seq<u8>), FstError>(
            FstError::Truncated,
        ),
{
    let b = encode_utf8(s);
    let n = b.len() as i32;
    lemma_i32_round_trip(n, b.take(k - 4));
    lemma_take_concat(i32_bytes(n), b, k);
}

/// A transition cannot be read from fewer bytes than it was written to.
proof fn lemma_tr_prefix<W: SerializableSemiring>(tr: Tr<W>, k: int)
    requires
        0 <= k < tr_bytes(tr).len(),
    ensures
        tr_spec::<W>(tr_bytes(tr).take(k)) == Err::<(Tr<W>, Seq<u8>), FstError>(
            FstError::Truncated,
        ),
{
    let b1 = i32_bytes(tr.ilabel as i32);
    let b2 = i32_bytes(tr.olabel as i32);
    let b3 = tr.weight.binary_spec();
    let b4 = i32_bytes(tr.nextstate as i32);
    let given = tr_bytes(tr).take(k);
    lemma_i32_round_trip(tr.ilabel as i32, Seq::empty());
    lemma_i32_round_trip(tr.olabel as i32, Seq::empty());
    lemma_i32_round_trip(tr.nextstate as i32, Seq::empty());
    if k < 4 {
    } else if k < 8 {
        let r1 = b2.take(k - 4);
        assert(given =~= b1 + r1);
        lemma_i32_round_trip(tr.ilabel as i32, r1);
    } else if k < 8 + b3.len() {
        let r2 = b3.take(k - 8);
        let r1 = b2 + r2;
        assert(given =~= b1 + r1);
        lemma_i32_round_trip(tr.ilabel as i32, r1);
        lemma_i32_round_trip(tr.olabel as i32, r2);
        W::lemma_binary_prefix(tr.weight, k - 8);
    } else {
        let r3 = b4.take(k - 8 - b3.len());
        let r2 = b3 + r3;
        let r1 = b2 + r2;
        assert(given =~= b1 + r1);
        lemma_i32_round_trip(tr.ilabel as i32, r1);
        lemma_i32_round_trip(tr.olabel as i32, r2);
        W::lemma_binary_round_trip(tr.weight, r3);
    }
}

/// Transitions cannot be read from fewer bytes than they were written to.
proof fn lemma_trs_prefix<W: SerializableSemiring>(
    trs: Seq<Tr<W>>,
    more: nat,
    acc: Seq<Tr<W>>,
    k: int,
)
    requires
        forall|i: int|
            0 <= i < trs.len() ==> fits_i32((#[trigger] trs[i]).ilabel) && fits_i32(trs[i].olabel)
                && fits_i32(trs[i].nextstate),
        0 <= k < trs_bytes(trs).len(),
    ensures
        trs_spec::<W>(trs_bytes(trs).take(k), trs.len() + more, acc) == Err::<
            (Seq<Tr<W>>, Seq<u8>),
            FstError,
        >(FstError::Truncated),
    decreases trs.len(),
{
    if trs.len() > 0 {
        let init = trs.drop_last();
        let last = trs.last();
        lemma_take_concat(trs_bytes(init), tr_bytes(last), k);
        if k < trs_bytes(init).len() {
            lemma_trs_prefix::<W>(init, more + 1, acc, k);
        } else {
            let cut = tr_bytes(last).take(k - trs_bytes(init).len());
            lemma_trs_round_trip::<W>(init, more + 1, acc, cut);
            lemma_tr_prefix::<W>(last, k - trs_bytes(init).len());
        }
    }
}

/// A state cannot be read from fewer bytes than it was written to.
proof fn lemma_state_prefix<W: SerializableSemiring>(state: StateModel<W>, k: int)
    requires
        state.trs.len() <= i64::MAX,
        forall|i: int|
            0 <= i < state.trs.len() ==> fits_i32((#[trigger] state.trs[i]).ilabel) && fits_i32(
                state.trs[i].olabel,
            ) && fits_i32(state.trs[i].nextstate),
        0 <= k < state_bytes(state).len(),
    ensures
        state_spec::<W>(state_bytes(state).take(k)) == Err::<(StateModel<W>, Seq<u8>), FstError>(
            FstError::Truncated,
        ),
{
    let w = final_field(state.final_weight);
    let n = state.trs.len() as i64;
    let b1 = w.binary_spec();
    let b2 = i64_bytes(n);
    let b3 = trs_bytes(state.trs);
    let given = state_bytes(state).take(k);
    lemma_i64_round_trip(n, Seq::empty());
    if k < b1.len() {
        assert(given =~= b1.take(k));
        W::lemma_binary_prefix(w, k);
    } else if k < b1.len() + 8 {
        let r1 = b2.take(k - b1.len());
        assert(given =~= b1 + r1);
        W::lemma_binary_round_trip(w, r1);
    } else {
        let r2 = b3.take(k - b1.len() - 8);
        let r1 = b2 + r2;
        assert(given =~= b1 + r1);
        W::lemma_binary_round_trip(w, r1);
        lemma_i64_round_trip(n, r2);
        lemma_trs_prefix::<W>(state.trs, 0, Seq::empty(), k - b1.len() - 8);
    }
}

/// States cannot be read from fewer bytes than they were written to.
proof fn lemma_states_prefix<W: SerializableSemiring>(
    states: Seq<StateModel<W>>,
    more: nat,
    acc: Seq<StateModel<W>>,
    k: int,
)
    requires
        forall|s: int|
            0 <= s < states.len() ==> (#[trigger] states[s]).trs.len() <= i64::MAX
                && states[s].final_weight != Some(W::zero_spec()),
        forall|s: int, i: int|
            0 <= s < states.len() && 0 <= i < states[s].trs.len() ==> {
                let tr = #[trigger] states[s].trs[i];
                fits_i32(tr.ilabel) && fits_i32(tr.olabel) && fits_i32(tr.nextstate)
            },
        0 <= k < states_bytes(states).len(),
    ensures
        states_spec::<W>(states_bytes(states).take(k), states.len() + more, acc) == Err::<
            (Seq<StateModel<W>>, Seq<u8>),
            FstError,
        >(FstError::Truncated),
    decreases states.len(),
{
    if states.len() > 0 {
        let init = states.drop_last();
        let last = states.last();
        lemma_take_concat(states_bytes(init), state_bytes(last), k);
        assert forall|s: int, i: int|
            0 <= s < init.len() && 0 <= i < init[s].trs.len() implies {
            let tr = #[trigger] init[s].trs[i];
            fits_i32(tr.ilabel) && fits_i32(tr.olabel) && fits_i32(tr.nextstate)
        } by {
            assert(init[s] == states[s]);
            let tr = states[s].trs[i];
        }
        assert(forall|s: int| 0 <= s < init.len() ==> #[trigger] init[s] == states[s]);
        if k < states_bytes(init).len() {
            lemma_states_prefix::<W>(init, more + 1, acc, k);
        } else {
            let cut = state_bytes(last).take(k - states_bytes(init).len());
            lemma_states_round_trip::<W>(init, more + 1, acc, cut);
            assert forall|i: int| 0 <= i < last.trs.len() implies fits_i32(
                (#[trigger] last.trs[i]).ilabel,
            ) && fits_i32(last.trs[i].olabel) && fits_i32(last.trs[i].nextstate) by {
                let tr = states[states.len() - 1].trs[i];
            }
            lemma_state_prefix::<W>(last, k - states_bytes(init).len());
        }
    }
}

/// The numbers at the end of a header cannot be read from fewer bytes than
/// they were written to.
proof fn lemma_header_tail_prefix(
    magic_number: i32,
    fst_type: Seq<char>,
    arc_type: Seq<char>,
    version: i32,
    flags: i32,
    properties: u64,
    start: i64,
    num_states: i64,
    num_arcs: i64,
    k: int,
)
    requires
        0 <= k < 36,
    ensures
        header_tail_spec(
            magic_number,
            fst_type,
            arc_type,
            version,
            (i32_bytes(flags) + u64_bytes(properties) + i64_bytes(start) + i64_bytes(num_states)
                + i64_bytes(num_arcs)).take(k),
        ) == Err::<(HeaderModel, Seq<u8>), FstError>(FstError::Truncated),
{
    let b5 = i32_bytes(flags);
    let b6 = u64_bytes(properties);
    let b7 = i64_bytes(start);
    let b8 = i64_bytes(num_states);
    let b9 = i64_bytes(num_arcs);
    let given = (b5 + b6 + b7 + b8 + b9).take(k);
    lemma_i32_round_trip(flags, Seq::empty());
    lemma_u64_round_trip(properties, Seq::empty());
    lemma_i64_round_trip(start, Seq::empty());
    lemma_i64_round_trip(num_states, Seq::empty());
    lemma_i64_round_trip(num_arcs, Seq::empty());
    if k < 4 {
    } else if k < 12 {
        let r5 = b6.take(k - 4);
        assert(given =~= b5 + r5);
        lemma_i32_round_trip(flags, r5);
    } else if k < 20 {
        let r6 = b7.take(k - 12);
        let r5 = b6 + r6;
        assert(given =~= b5 + r5);
        lemma_i32_round_trip(flags, r5);
        lemma_u64_round_trip(properties, r6);
    } else if k < 28 {
        let r7 = b8.take(k - 20);
        let r6 = b7 + r7;
        let r5 = b6 + r6;
        assert(given =~= b5 + r5);
        lemma_i32_round_trip(flags, r5);
        lemma_u64_round_trip(properties, r6);
        lemma_i64_round_trip(start, r7);
    } else {
        let r8 = b9.take(k - 28);
        let r7 = b8 + r8;
        let r6 = b7 + r7;
        let r5 = b6 + r6;
        assert(given =~= b5 + r5);
        lemma_i32_round_trip(flags, r5);
        lemma_u64_round_trip(properties, r6);
        lemma_i64_round_trip(start, r7);
        lemma_i64_round_trip(num_states, r8);
    }
}

/// A header cannot be read from fewer bytes than it was written to.
proof fn lemma_header_prefix<W: SerializableSemiring>(m: FstModel<W>, k: int)
    requires
        0 <= k < header_bytes(m).len(),
    ensures
        header_spec(header_bytes(m).take(k)) == Err::<(HeaderModel, Seq<u8>), FstError>(
            FstError::Truncated,
        ),
{
    let b1 = i32_bytes(FST_MAGIC_NUMBER);
    let b2 = string_bytes("vector"@);
    let b3 = string_bytes(W::weight_type_spec());
    let b4 = i32_bytes(MIN_FILE_VERSION);
    let numbers = i32_bytes(0) + u64_bytes(properties_spec(m)) + i64_bytes(start_field(m.start))
        + i64_bytes(m.states.len() as i64) + i64_bytes(total_trs(m.states) as i64);
    let given = header_bytes(m).take(k);
    reveal_strlit("vector");
    vstd::utf8::is_ascii_chars_encode_utf8("vector"@);
    W::lemma_weight_type_fits();
    lemma_i32_round_trip(FST_MAGIC_NUMBER, Seq::empty());
    lemma_i32_round_trip(MIN_FILE_VERSION, Seq::empty());
    lemma_i32_round_trip(0, Seq::empty());
    lemma_u64_round_trip(properties_spec(m), Seq::empty());
    lemma_i64_round_trip(start_field(m.start), Seq::empty());
    lemma_i64_round_trip(m.states.len() as i64, Seq::empty());
    lemma_i64_round_trip(total_trs(m.states) as i64, Seq::empty());
    assert(header_bytes(m) =~= b1 + b2 + b3 + b4 + numbers);
    assert(numbers.len() == 36);
    let l1 = 4int;
    let l2 = l1 + b2.len();
    let l3 = l2 + b3.len();
    let l4 = l3 + 4;
    if k < l1 {
    } else if k < l2 {
        let r1 = b2.take(k - l1);
        assert(given =~= b1 + r1);
        lemma_i32_round_trip(FST_MAGIC_NUMBER, r1);
        lemma_string_prefix("vector"@, k - l1);
    } else if k < l3 {
        let r2 = b3.take(k - l2);
        let r1 = b2 + r2;
        assert(given =~= b1 + r1);
        lemma_i32_round_trip(FST_MAGIC_NUMBER, r1);
        lemma_string_round_trip("vector"@, r2);
        lemma_string_prefix(W::weight_type_spec(), k - l2);
    } else if k < l4 {
        let r3 = b4.take(k - l3);
        let r2 = b3 + r3;
        let r1 = b2 + r2;
        assert(given =~= b1 + r1);
        lemma_i32_round_trip(FST_MAGIC_NUMBER, r1);
        lemma_string_round_trip("vector"@, r2);
        lemma_string_round_trip(W::weight_type_spec(), r3);
    } else {
        let r4 = numbers.take(k - l4);
        let r3 = b4 + r4;
        let r2 = b3 + r3;
        let r1 = b2 + r2;
        assert(given =~= b1 + r1);
        lemma_i32_round_trip(FST_MAGIC_NUMBER, r1);
        lemma_string_round_trip("vector"@, r2);
        lemma_string_round_trip(W::weight_type_spec(), r3);
        lemma_i32_round_trip(MIN_FILE_VERSION, r4);
        lemma_header_tail_prefix(
            FST_MAGIC_NUMBER,
            "vector"@,
            W::weight_type_spec(),
            MIN_FILE_VERSION,
            0,
            properties_spec(m),
            start_field(m.start),
            m.states.len() as i64,
            total_trs(m.states) as i64,
            k - l4,
        );
    }
}

/// A container that is cut short is not read: from the bytes that were
/// written for a transducer, with some bytes missing at the end, the
/// reading ends for want of input.
pub proof fn lemma_cut_short_is_truncated<W: SerializableSemiring>(m: FstModel<W>, k: int)
    requires
        m.wf(),
        representable(m),
        0 <= k < fst_bytes(m).len(),
    ensures
        fst_spec::<W>(fst_bytes(m).take(k)) == Err::<FstModel<W>, FstError>(FstError::Truncated),
{
    let head = header_bytes(m);
    let body = states_bytes(m.states);
    lemma_take_concat(head, body, k);
    if k < head.len() {
        lemma_header_prefix::<W>(m, k);
    } else {
        let cut = body.take(k - head.len());
        lemma_header_round_trip::<W>(m, cut);
        lemma_states_prefix::<W>(m.states, 0, Seq::empty(), k - head.len());
    }
}

} // verus!
