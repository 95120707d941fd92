use rustfst::error::FstError;
use rustfst::fst_impls::{VectorFst, VectorFstState};
use rustfst::fst_properties::{
    ACCEPTOR, ACYCLIC, EXPANDED, I_EPSILONS, I_LABEL_SORTED, MUTABLE, NOT_ACCEPTOR,
    NOT_I_LABEL_SORTED, NOT_O_LABEL_SORTED, NO_EPSILONS, NO_I_EPSILONS, NO_O_EPSILONS, O_LABEL_SORTED, TOP_SORTED,
    UNWEIGHTED, WEIGHTED,
};
use rustfst::parsers::bin_fst::utils_parsing::{
    parse_final_weight, parse_fst_tr, parse_start_state, read_i32, read_i64, read_u64, read_u8,
    write_bin_i32, write_bin_i64, write_bin_u64,
};
use rustfst::parsers::bin_fst::vector_fst::{
    parse_fst_header, parse_fst_string, write_bin_string, FST_MAGIC_NUMBER,
};
use rustfst::semirings::{BooleanWeight, IntegerWeight, Semiring, SerializableSemiring};
use rustfst::tr::Tr;
use rustfst::{NO_LABEL, NO_STATE_ID};

fn small_fst() -> VectorFst<IntegerWeight> {
    let mut fst = VectorFst::new();
    fst.add_states(3);
    fst.set_start(1).unwrap();
    fst.add_tr(1, Tr::new(7, 8, IntegerWeight::new(-3), 2)).unwrap();
    fst.add_tr(1, Tr::new(0, 9, IntegerWeight::new(4), 0)).unwrap();
    fst.add_tr(2, Tr::new(NO_LABEL, 1, IntegerWeight::new(1), 2)).unwrap();
    fst.set_final(0, IntegerWeight::new(5)).unwrap();
    fst
}

#[test]
fn test_read_little_endian_numbers() {
    assert_eq!(
        read_i32(&[0x78, 0x56, 0x34, 0x12, 0xff]),
        Ok((&[0xffu8][..], 0x1234_5678))
    );
    assert_eq!(read_i32(&[0xfe, 0xff, 0xff, 0xff]), Ok((&[][..], -2)));
    assert_eq!(read_i32(&[1, 2, 3]), Err(FstError::Truncated));
    assert_eq!(
        read_i64(&[0xff, 0xff, 0xff, 0xff, 0xff, 0xff, 0xff, 0xff, 9]),
        Ok((&[9u8][..], -1))
    );
    assert_eq!(
        read_i64(&[1, 0, 0, 0, 0, 0, 0, 0]),
        Ok((&[][..], 1))
    );
    assert_eq!(read_i64(&[1, 0, 0, 0, 0, 0, 0]), Err(FstError::Truncated));
    assert_eq!(
        read_u64(&[0, 1, 0, 0, 0, 0, 0, 0x80]),
        Ok((&[][..], 0x8000_0000_0000_0100))
    );
    assert_eq!(read_u64(&[]), Err(FstError::Truncated));
    assert_eq!(read_u8(&[5, 6]), Ok((&[6u8][..], 5)));
    assert_eq!(read_u8(&[]), Err(FstError::Truncated));
}

#[test]
fn test_write_little_endian_numbers() {
    let mut out = vec![0xaa];
    write_bin_i32(&mut out, 0x1234_5678);
    write_bin_i32(&mut out, -2);
    write_bin_i64(&mut out, -1);
    write_bin_u64(&mut out, 0x0102_0304_0506_0708);
    assert_eq!(
        out,
        vec![
            0xaa, 0x78, 0x56, 0x34, 0x12, 0xfe, 0xff, 0xff, 0xff, 0xff, 0xff, 0xff, 0xff, 0xff,
            0xff, 0xff, 0xff, 8, 7, 6, 5, 4, 3, 2, 1
        ]
    );
}

#[test]
fn test_strings() {
    let mut out = vec![];
    write_bin_string(&mut out, "vector");
    assert_eq!(out, vec![6, 0, 0, 0, b'v', b'e', b'c', b't', b'o', b'r']);
    out.push(1);
    assert_eq!(
        parse_fst_string(&out),
        Ok((&[1u8][..], "vector".to_string()))
    );
    assert_eq!(
        parse_fst_string(&[2, 0, 0, 0, b'a']),
        Err(FstError::Truncated)
    );
    assert_eq!(
        parse_fst_string(&[0xff, 0xff, 0xff, 0xff, b'a']),
        Err(FstError::Truncated)
    );
    assert_eq!(
        parse_fst_string(&[2, 0, 0, 0, 0xc3, 0x28]),
        Err(FstError::Format)
    );
    assert_eq!(
        parse_fst_string(&[2, 0, 0, 0, 0xc3, 0xa9]),
        Ok((&[][..], "\u{e9}".to_string()))
    );
}

#[test]
fn test_parse_start_state_and_final_weight() {
    assert_eq!(parse_start_state(-1), None);
    assert_eq!(parse_start_state(0), Some(0));
    assert_eq!(parse_start_state(12), Some(12));
    assert_eq!(parse_final_weight(IntegerWeight::zero()), None);
    assert_eq!(
        parse_final_weight(IntegerWeight::new(3)),
        Some(IntegerWeight::new(3))
    );
    assert_eq!(parse_final_weight(BooleanWeight::new(false)), None);
}

#[test]
fn test_parse_fst_tr() {
    let bytes = [
        2, 0, 0, 0, 0xff, 0xff, 0xff, 0xff, 0xfd, 0xff, 0xff, 0xff, 4, 0, 0, 0, 0xee,
    ];
    assert_eq!(
        parse_fst_tr::<IntegerWeight>(&bytes),
        Ok((&[0xeeu8][..], Tr::new(2, NO_LABEL, IntegerWeight::new(-3), 4)))
    );
    assert_eq!(
        parse_fst_tr::<IntegerWeight>(&bytes[..15]),
        Err(FstError::Truncated)
    );
    assert_eq!(
        parse_fst_tr::<BooleanWeight>(&[1, 0, 0, 0, 2, 0, 0, 0, 7, 3, 0, 0, 0]),
        Ok((&[][..], Tr::new(1, 2, BooleanWeight::new(true), 3)))
    );
}

#[test]
fn test_weights_round_trip() {
    let mut out = vec![];
    IntegerWeight::new(-77).write_binary(&mut out);
    BooleanWeight::new(true).write_binary(&mut out);
    BooleanWeight::new(false).write_binary(&mut out);
    let (rest, w) = IntegerWeight::parse_binary(&out).unwrap();
    assert_eq!(w, IntegerWeight::new(-77));
    let (rest, b) = BooleanWeight::parse_binary(rest).unwrap();
    assert_eq!(b, BooleanWeight::new(true));
    let (rest, b) = BooleanWeight::parse_binary(rest).unwrap();
    assert_eq!(b, BooleanWeight::new(false));
    assert_eq!(rest.len(), 0);
    assert_eq!(IntegerWeight::weight_type(), "integer");
    assert_eq!(BooleanWeight::weight_type(), "boolean");
}

#[test]
fn test_written_bytes() {
    let mut fst: VectorFst<BooleanWeight> = VectorFst::new();
    fst.add_states(2);
    fst.set_start(0).unwrap();
    fst.add_tr(0, Tr::new(3, 4, BooleanWeight::new(true), 1)).unwrap();
    fst.set_final(1, BooleanWeight::new(true)).unwrap();
    let properties: u64 = EXPANDED
        | MUTABLE
        | NOT_ACCEPTOR
        | NO_EPSILONS
        | NO_I_EPSILONS
        | NO_O_EPSILONS
        | I_LABEL_SORTED
        | O_LABEL_SORTED
        | UNWEIGHTED
        | TOP_SORTED
        | ACYCLIC;
    let mut expected = vec![];
    expected.extend_from_slice(&FST_MAGIC_NUMBER.to_le_bytes());
    expected.extend_from_slice(&6i32.to_le_bytes());
    expected.extend_from_slice(b"vector");
    expected.extend_from_slice(&7i32.to_le_bytes());
    expected.extend_from_slice(b"boolean");
    expected.extend_from_slice(&2i32.to_le_bytes());
    expected.extend_from_slice(&0i32.to_le_bytes());
    expected.extend_from_slice(&properties.to_le_bytes());
    expected.extend_from_slice(&0i64.to_le_bytes());
    expected.extend_from_slice(&2i64.to_le_bytes());
    expected.extend_from_slice(&1i64.to_le_bytes());
    // The state 0.
    expected.push(0);
    expected.extend_from_slice(&1i64.to_le_bytes());
    expected.extend_from_slice(&3i32.to_le_bytes());
    expected.extend_from_slice(&4i32.to_le_bytes());
    expected.push(1);
    expected.extend_from_slice(&1i32.to_le_bytes());
    // The state 1.
    expected.push(1);
    expected.extend_from_slice(&0i64.to_le_bytes());
    assert_eq!(fst.write(), expected);
}

#[test]
fn test_binary_round_trip() {
    let fst = small_fst();
    let mut bytes = fst.write();
    let back = VectorFst::<IntegerWeight>::read(&bytes).unwrap();
    assert!(back.same(&fst));
    // Bytes behind the last state are ignored.
    bytes.push(0x55);
    assert!(VectorFst::<IntegerWeight>::read(&bytes).unwrap().same(&fst));
    let empty: VectorFst<IntegerWeight> = VectorFst::new();
    let back = VectorFst::<IntegerWeight>::read(&empty.write()).unwrap();
    assert_eq!(back.num_states(), 0);
    assert_eq!(back.start(), None);
}

#[test]
fn test_header() {
    let bytes = small_fst().write();
    let (_, header) = parse_fst_header(&bytes).unwrap();
    assert_eq!(header.magic_number, 2_125_659_606);
    assert_eq!(header.fst_type, "vector");
    assert_eq!(header.arc_type, "integer");
    assert_eq!(header.version, 2);
    assert_eq!(header.flags, 0);
    assert_eq!(header.start, 1);
    assert_eq!(header.num_states, 3);
    assert_eq!(header.num_arcs, 3);
    assert_eq!(header.properties, small_fst().properties().bits());
}

#[test]
fn test_read_errors() {
    let bytes = small_fst().write();
    // Short input.
    for len in 0..bytes.len() {
        assert_eq!(
            VectorFst::<IntegerWeight>::read(&bytes[..len]).err(),
            Some(FstError::Truncated)
        );
    }
    // Magic mismatch.
    let mut bad = bytes.clone();
    bad[0] ^= 1;
    assert_eq!(
        VectorFst::<IntegerWeight>::read(&bad).err(),
        Some(FstError::Format)
    );
    // Lower version: the version follows the magic number and two strings.
    let version_at = 4 + 4 + 6 + 4 + 7;
    let mut old = bytes.clone();
    old[version_at] = 1;
    assert_eq!(
        VectorFst::<IntegerWeight>::read(&old).err(),
        Some(FstError::UnsupportedVersion)
    );
    // A start state that is no state.
    let start_at = version_at + 4 + 4 + 8;
    let mut lost = bytes.clone();
    lost[start_at] = 3;
    assert_eq!(
        VectorFst::<IntegerWeight>::read(&lost).err(),
        Some(FstError::Format)
    );
    // A count below zero.
    let mut negative = bytes.clone();
    for byte in negative[start_at + 8..start_at + 16].iter_mut() {
        *byte = 0xff;
    }
    assert_eq!(
        VectorFst::<IntegerWeight>::read(&negative).err(),
        Some(FstError::Truncated)
    );
}

#[test]
fn test_no_start_is_minus_one() {
    let mut fst: VectorFst<IntegerWeight> = VectorFst::new();
    fst.add_state();
    let bytes = fst.write();
    let (_, header) = parse_fst_header(&bytes).unwrap();
    assert_eq!(header.start, -1);
    let back = VectorFst::<IntegerWeight>::read(&bytes).unwrap();
    assert_eq!(back.start(), None);
    assert_eq!(back.num_states(), 1);
}

#[test]
fn test_final_zero_reads_back_as_not_final() {
    let mut fst: VectorFst<IntegerWeight> = VectorFst::new();
    fst.add_state();
    fst.set_final(0, IntegerWeight::zero()).unwrap();
    let back = VectorFst::<IntegerWeight>::read(&fst.write()).unwrap();
    assert_eq!(back.final_weight(0).unwrap(), None);
}

#[test]
fn test_properties() {
    let fst = small_fst();
    let bits = fst.properties().bits();
    assert_eq!(bits & (ACCEPTOR | NOT_ACCEPTOR), NOT_ACCEPTOR);
    assert_eq!(bits & I_EPSILONS, I_EPSILONS);
    assert_eq!(bits & NO_O_EPSILONS, NO_O_EPSILONS);
    assert_eq!(bits & WEIGHTED, WEIGHTED);
    assert_eq!(bits & (O_LABEL_SORTED | NOT_O_LABEL_SORTED), O_LABEL_SORTED);
    assert_eq!(bits & (I_LABEL_SORTED | NOT_I_LABEL_SORTED), NOT_I_LABEL_SORTED);
    assert_eq!(bits & (TOP_SORTED | ACYCLIC), 0);
    assert!(fst.properties().contains(fst.properties()));
}

#[test]
fn test_vector_fst_operations() {
    let mut fst: VectorFst<IntegerWeight> = VectorFst::new();
    assert_eq!(fst.add_state(), 0);
    assert_eq!(fst.add_state(), 1);
    fst.reserve_states(10);
    assert_eq!(fst.reserve_trs(0, 3), Ok(()));
    assert_eq!(fst.reserve_trs(2, 3), Err(FstError::InvalidState(2)));
    assert_eq!(fst.set_start(2), Err(FstError::InvalidState(2)));
    assert_eq!(
        fst.add_tr(2, Tr::new(1, 1, IntegerWeight::one(), 0)),
        Err(FstError::InvalidState(2))
    );
    assert_eq!(
        fst.add_tr(0, Tr::new(1, 1, IntegerWeight::one(), 5)),
        Err(FstError::InvalidState(5))
    );
    assert_eq!(
        fst.set_final(NO_STATE_ID, IntegerWeight::one()),
        Err(FstError::InvalidState(NO_STATE_ID))
    );
    fst.add_tr(0, Tr::new(0, 1, IntegerWeight::one(), 1)).unwrap();
    fst.add_tr(0, Tr::new(2, 0, IntegerWeight::one(), 1)).unwrap();
    fst.add_tr(0, Tr::new(0, 0, IntegerWeight::one(), 0)).unwrap();
    assert_eq!(fst.num_trs(0), Ok(3));
    assert_eq!(fst.num_input_epsilons(0), Ok(2));
    assert_eq!(fst.num_output_epsilons(0), Ok(2));
    assert_eq!(fst.num_trs(7), Err(FstError::InvalidState(7)));
    fst.set_final(1, IntegerWeight::new(4)).unwrap();
    assert_eq!(fst.is_final(1), Ok(true));
    assert_eq!(fst.is_final(0), Ok(false));
    fst.delete_final_weight(1).unwrap();
    assert_eq!(fst.final_weight(1), Ok(None));
    fst.delete_trs(0).unwrap();
    assert_eq!(fst.num_trs(0), Ok(0));
    assert_eq!(fst.get_trs(9).err(), Some(FstError::InvalidState(9)));
    assert_eq!(fst.final_weight(9), Err(FstError::InvalidState(9)));
    assert_eq!(fst.delete_trs(9), Err(FstError::InvalidState(9)));
    assert_eq!(
        fst.delete_final_weight(9),
        Err(FstError::InvalidState(9))
    );
}

#[test]
fn test_from_parts() {
    let states = vec![
        VectorFstState {
            final_weight: None,
            trs: vec![Tr::new(1, 1, IntegerWeight::one(), 1)],
        },
        VectorFstState {
            final_weight: Some(IntegerWeight::one()),
            trs: vec![],
        },
    ];
    let fst = VectorFst::from_parts(states, Some(0)).unwrap();
    assert_eq!(fst.num_states(), 2);
    let states = vec![VectorFstState {
        final_weight: None,
        trs: vec![Tr::new(1, 1, IntegerWeight::one(), 1)],
    }];
    assert_eq!(
        VectorFst::from_parts(states, None).err(),
        Some(FstError::InvalidState(1))
    );
    let states: Vec<VectorFstState<IntegerWeight>> = vec![];
    assert_eq!(
        VectorFst::from_parts(states, Some(0)).err(),
        Some(FstError::InvalidState(0))
    );
}

#[test]
fn test_every_cut_container_is_truncated() {
    let bytes = small_fst().write();
    for cut in 0..bytes.len() {
        assert_eq!(
            VectorFst::<IntegerWeight>::read(&bytes[..cut]).err(),
            Some(FstError::Truncated),
            "cut at {}",
            cut
        );
    }
    assert!(VectorFst::<IntegerWeight>::read(&bytes).is_ok());
    let mut flags: VectorFst<BooleanWeight> = VectorFst::new();
    flags.add_states(2);
    flags.set_start(1).unwrap();
    flags.add_tr(1, Tr::new(3, 0, BooleanWeight::new(true), 0)).unwrap();
    flags.set_final(0, BooleanWeight::new(true)).unwrap();
    let bytes = flags.write();
    for cut in 0..bytes.len() {
        assert_eq!(
            VectorFst::<BooleanWeight>::read(&bytes[..cut]).err(),
            Some(FstError::Truncated)
        );
    }
}
