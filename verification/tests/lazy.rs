use rustfst::algorithms::compose::compose::{
    compose, compose_with_config, ComposeConfig, ComposeFilterEnum,
};
use rustfst::algorithms::compose::compose_filters::{
    AltSequenceComposeFilter, ComposeFilter, NullComposeFilter, SequenceComposeFilter,
    TrivialComposeFilter,
};
use rustfst::algorithms::compose::compose_fst::{compose_with_filter, ComposeFst};
use rustfst::algorithms::compose::filter_states::{
    FilterState, IntegerFilterState, PairFilterState, TrivialFilterState,
};
use rustfst::algorithms::compose::lookahead_filters::{
    LookAheadComposeFilter, LookAheadComposeFilterTrait, SMatchBoth, SMatchInput, SMatchNone,
    SMatchOutput, Selector,
};
use rustfst::algorithms::compose::lookahead_matchers::{LookaheadMatcher, TrivialLookAheadMatcher};
use rustfst::algorithms::compose::matchers::{
    MatchType, Matcher, SortedMatcher, INPUT_LOOKAHEAD_MATCHER, OUTPUT_LOOKAHEAD_MATCHER,
};
use rustfst::algorithms::compose::state_table::{StateTable, StateTuple};
use rustfst::algorithms::lazy::{CacheStatus, CachedData, SimpleHashMapCache};
use rustfst::algorithms::union::UnionFst;
use rustfst::error::FstError;
use rustfst::fst_impls::VectorFst;
use rustfst::semirings::{IntegerWeight, Semiring};
use rustfst::tests_openfst::algorithms::compose::{
    test_compose, test_compose_dynamic, ComposeOperationResult,
};
use rustfst::tests_openfst::algorithms::shortest_path::ShorestPathOperationResult;
use rustfst::tr::Tr;
use rustfst::{LOOP_LABEL, NO_LABEL};
use std::collections::HashMap;

type Sorted<'a> = SortedMatcher<'a, IntegerWeight>;
type Ahead<'a> = TrivialLookAheadMatcher<IntegerWeight, Sorted<'a>>;

fn w(value: i32) -> IntegerWeight {
    IntegerWeight::new(value)
}

fn first() -> VectorFst<IntegerWeight> {
    let mut fst = VectorFst::new();
    fst.add_states(3);
    fst.set_start(0).unwrap();
    fst.add_tr(0, Tr::new(1, 0, w(2), 1)).unwrap();
    fst.add_tr(0, Tr::new(1, 5, w(3), 1)).unwrap();
    fst.add_tr(0, Tr::new(2, 5, w(5), 2)).unwrap();
    fst.add_tr(0, Tr::new(3, 6, w(7), 2)).unwrap();
    fst.set_final(1, w(11)).unwrap();
    fst.set_final(2, w(13)).unwrap();
    fst
}

fn second() -> VectorFst<IntegerWeight> {
    let mut fst = VectorFst::new();
    fst.add_states(2);
    fst.set_start(0).unwrap();
    fst.add_tr(0, Tr::new(0, 8, w(17), 0)).unwrap();
    fst.add_tr(0, Tr::new(5, 9, w(19), 1)).unwrap();
    fst.add_tr(0, Tr::new(6, 9, w(23), 1)).unwrap();
    fst.set_final(1, w(29)).unwrap();
    fst
}

#[test]
fn test_sorted_matcher() {
    let fst = first();
    let matcher = Sorted::new(&fst, MatchType::MatchOutput).unwrap();
    assert_eq!(
        matcher.iter(0, 5).unwrap(),
        vec![Tr::new(1, 5, w(3), 1), Tr::new(2, 5, w(5), 2)]
    );
    assert_eq!(matcher.iter(0, 0).unwrap(), vec![Tr::new(1, 0, w(2), 1)]);
    assert_eq!(matcher.iter(0, 6).unwrap(), vec![Tr::new(3, 6, w(7), 2)]);
    assert_eq!(matcher.iter(0, 4).unwrap(), vec![]);
    assert_eq!(matcher.iter(0, 7).unwrap(), vec![]);
    assert_eq!(matcher.iter(0, NO_LABEL).unwrap().len(), 4);
    assert_eq!(matcher.iter(1, 5).unwrap(), vec![]);
    assert_eq!(matcher.iter(3, 5), Err(FstError::InvalidState(3)));
    assert_eq!(matcher.priority(0), Ok(4));
    assert_eq!(matcher.final_weight(1), Ok(Some(w(11))));
    assert_eq!(matcher.match_type(), MatchType::MatchOutput);
    assert_eq!(matcher.flags().bits, 0);
    let input = Sorted::new(&fst, MatchType::MatchInput).unwrap();
    assert_eq!(input.iter(0, 1).unwrap().len(), 2);
    assert_eq!(input.iter(0, 3).unwrap(), vec![Tr::new(3, 6, w(7), 2)]);
}

#[test]
fn test_sorted_matcher_refuses() {
    let mut fst: VectorFst<IntegerWeight> = VectorFst::new();
    fst.add_state();
    fst.add_tr(0, Tr::new(2, 1, w(1), 0)).unwrap();
    fst.add_tr(0, Tr::new(1, 2, w(1), 0)).unwrap();
    assert_eq!(
        Sorted::new(&fst, MatchType::MatchInput).err(),
        Some(FstError::PropertyViolation)
    );
    assert!(Sorted::new(&fst, MatchType::MatchOutput).is_ok());
    assert_eq!(
        Sorted::new(&fst, MatchType::MatchBoth).err(),
        Some(FstError::IncompatibleMatchType)
    );
    assert_eq!(
        Sorted::new(&fst, MatchType::MatchNone).err(),
        Some(FstError::IncompatibleMatchType)
    );
}

#[test]
fn test_filter_states() {
    assert!(TrivialFilterState::new_no_state().is_no_state());
    assert!(!TrivialFilterState::new(true).is_no_state());
    assert!(TrivialFilterState::new(true).state());
    assert!(IntegerFilterState::new_no_state().is_no_state());
    assert_eq!(IntegerFilterState::new(2).state(), 2);
    assert!(IntegerFilterState::new(1).same(&IntegerFilterState::new(1)));
    assert!(!IntegerFilterState::new(1).same(&IntegerFilterState::new(0)));
    let pair = PairFilterState::new((IntegerFilterState::new(1), IntegerFilterState::new(0)));
    assert!(!pair.is_no_state());
    assert_eq!(
        pair.state(),
        (IntegerFilterState::new(1), IntegerFilterState::new(0))
    );
    assert!(PairFilterState::<IntegerFilterState, IntegerFilterState>::new_no_state().is_no_state());
}

#[test]
fn test_state_table() {
    let mut table: StateTable<IntegerFilterState> = StateTable::new();
    let a = StateTuple {
        s1: 3,
        s2: 4,
        fs: IntegerFilterState::new(0),
    };
    let b = StateTuple {
        s1: 3,
        s2: 4,
        fs: IntegerFilterState::new(1),
    };
    let c = StateTuple {
        s1: 4,
        s2: 3,
        fs: IntegerFilterState::new(0),
    };
    assert_eq!(table.find_or_insert(a), 0);
    assert_eq!(table.find_or_insert(b), 1);
    assert_eq!(table.find_or_insert(a), 0);
    assert_eq!(table.find_or_insert(c), 2);
    assert_eq!(table.find_or_insert(b), 1);
    assert_eq!(table.size(), 3);
    assert_eq!(table.tuple(1), Some(b));
    assert_eq!(table.tuple(3), None);
    assert_eq!(table.find(&c), Some(2));
    table.clear();
    assert_eq!(table.size(), 0);
    assert_eq!(table.find(&a), None);
    assert_eq!(table.find_or_insert(c), 0);
}

#[test]
fn test_null_filter_decisions() {
    let (fst1, fst2) = (first(), second());
    let mut filter: NullComposeFilter<Sorted, Sorted> =
        NullComposeFilter::new(&fst1, &fst2, None, None).unwrap();
    filter.set_state(0, 0, &filter.start()).unwrap();
    let mut decide = |olabel: usize, ilabel: usize| {
        let mut tr1 = Tr::new(1, olabel, w(1), 1);
        let mut tr2 = Tr::new(ilabel, 1, w(1), 1);
        filter.filter_tr(&mut tr1, &mut tr2).unwrap()
    };
    assert!(!decide(5, 5).is_no_state());
    assert!(decide(0, 0).is_no_state());
    assert!(decide(0, LOOP_LABEL).is_no_state());
    assert!(decide(LOOP_LABEL, 0).is_no_state());
    assert!(decide(NO_LABEL, 5).is_no_state());
    assert!(decide(5, NO_LABEL).is_no_state());
}

#[test]
fn test_set_state_refuses_unknown_states() {
    let (fst1, fst2) = (first(), second());
    let mut filter: SequenceComposeFilter<Sorted, Sorted> =
        SequenceComposeFilter::new(&fst1, &fst2, None, None).unwrap();
    let fs = IntegerFilterState::new(0);
    assert_eq!(filter.set_state(3, 0, &fs), Err(FstError::InvalidState(3)));
    assert_eq!(filter.set_state(0, 2, &fs), Err(FstError::InvalidState(2)));
    assert_eq!(filter.set_state(2, 1, &fs), Ok(()));
}

#[test]
fn test_trivial_filter_keeps_every_pair() {
    let (fst1, fst2) = (first(), second());
    let fst = compose_with_filter::<_, TrivialComposeFilter<Sorted, Sorted>>(&fst1, &fst2).unwrap();
    // At the start: two matches on 5, one on 6, the first moving alone, the
    // second moving alone, and both moving.
    assert_eq!(
        fst.get_trs(0).unwrap(),
        &[
            Tr::new(1, 9, w(3 * 19), 1),
            Tr::new(2, 9, w(5 * 19), 2),
            Tr::new(3, 9, w(7 * 23), 2),
            Tr::new(1, 0, w(2), 3),
            Tr::new(0, 8, w(17), 0),
            Tr::new(1, 8, w(2 * 17), 3),
        ][..]
    );
    assert_eq!(fst.final_weight(1).unwrap(), Some(w(11 * 29)));
    assert_eq!(fst.final_weight(2).unwrap(), Some(w(13 * 29)));
    assert_eq!(fst.final_weight(3).unwrap(), None);
}

#[test]
fn test_second_operand_is_walked_when_it_has_fewer_transitions() {
    let (fst1, fst2) = (first(), second());
    let fst = compose_with_filter::<_, NullComposeFilter<Sorted, Sorted>>(&fst1, &fst2).unwrap();
    // The second operand has three transitions at its start state and the
    // first one four: the matches come in the order of the second.
    assert_eq!(
        fst.get_trs(0).unwrap(),
        &[
            Tr::new(1, 9, w(3 * 19), 1),
            Tr::new(2, 9, w(5 * 19), 2),
            Tr::new(3, 9, w(7 * 23), 2),
        ][..]
    );
}

#[test]
fn test_compose_with_config() {
    let (fst1, fst2) = (first(), second());
    let config = ComposeConfig {
        compose_filter: ComposeFilterEnum::SequenceFilter,
        connect: true,
    };
    let trimmed = compose_with_config(&fst1, &fst2, config).unwrap();
    let auto = compose(&fst1, &fst2).unwrap();
    assert_eq!(ComposeConfig::default().compose_filter, ComposeFilterEnum::AutoFilter);
    assert!(ComposeConfig::default().connect);
    // Every path of both goes from the start state to a final state.
    for fst in [&trimmed, &auto].iter() {
        assert_eq!(fst.start(), Some(0));
        assert!(fst.num_states() > 0);
    }
    let mut unsorted: VectorFst<IntegerWeight> = VectorFst::new();
    unsorted.add_state();
    unsorted.set_start(0).unwrap();
    unsorted.add_tr(0, Tr::new(2, 1, w(1), 0)).unwrap();
    unsorted.add_tr(0, Tr::new(1, 2, w(1), 0)).unwrap();
    assert_eq!(
        compose(&fst1, &unsorted).err(),
        Some(FstError::PropertyViolation)
    );
}

#[test]
fn test_lookahead_filter_with_trivial_lookahead() {
    let (fst1, fst2) = (first(), second());
    let plain =
        compose_with_filter::<_, SequenceComposeFilter<Sorted, Sorted>>(&fst1, &fst2).unwrap();
    let ahead = compose_with_filter::<
        _,
        LookAheadComposeFilter<_, SequenceComposeFilter<Ahead, Ahead>, SMatchBoth>,
    >(&fst1, &fst2)
    .unwrap();
    assert!(plain.same(&ahead));
    let filter: LookAheadComposeFilter<_, SequenceComposeFilter<Ahead, Ahead>, SMatchBoth> =
        LookAheadComposeFilter::new(&fst1, &fst2, None, None).unwrap();
    assert_eq!(filter.lookahead_type(), MatchType::MatchOutput);
    assert!(filter.lookahead_output());
    assert_eq!(filter.selector(), Selector::MatchOutput);
    assert!(!filter.lookahead_arc());
    assert!(filter
        .lookahead_flags()
        .contains(INPUT_LOOKAHEAD_MATCHER | OUTPUT_LOOKAHEAD_MATCHER));
    let input: LookAheadComposeFilter<_, SequenceComposeFilter<Ahead, Ahead>, SMatchInput> =
        LookAheadComposeFilter::new(&fst1, &fst2, None, None).unwrap();
    assert!(!input.lookahead_output());
    assert_eq!(input.selector(), Selector::MatchInput);
    let output: LookAheadComposeFilter<_, SequenceComposeFilter<Ahead, Ahead>, SMatchOutput> =
        LookAheadComposeFilter::new(&fst1, &fst2, None, None).unwrap();
    assert!(output.lookahead_output());
    let none: Result<LookAheadComposeFilter<_, SequenceComposeFilter<Ahead, Ahead>, SMatchNone>, _> =
        LookAheadComposeFilter::new(&fst1, &fst2, None, None);
    assert_eq!(none.err(), Some(FstError::IncompatibleMatchType));
}

#[test]
fn test_trivial_lookahead_matcher() {
    let fst = first();
    let other = second();
    let mut matcher = Ahead::new(&fst, MatchType::MatchOutput).unwrap();
    assert_eq!(matcher.iter(0, 6).unwrap(), vec![Tr::new(3, 6, w(7), 2)]);
    assert!(matcher
        .flags()
        .contains(INPUT_LOOKAHEAD_MATCHER | OUTPUT_LOOKAHEAD_MATCHER));
    assert_eq!(matcher.init_lookahead_fst(&other), Ok(()));
    assert_eq!(matcher.lookahead_fst(0, &other, 0), Ok(true));
    assert_eq!(matcher.lookahead_label(0, 5), Ok(true));
    let mut tr = Tr::new(1, 2, w(3), 0);
    assert!(!matcher.lookahead_prefix(&mut tr));
    assert_eq!(tr, Tr::new(1, 2, w(3), 0));
    assert_eq!(*matcher.lookahead_weight(), IntegerWeight::one());
    assert!(matcher.data().is_none());
    assert_eq!(Ahead::create_data(&fst, MatchType::MatchInput), Ok(None));
    assert!(Ahead::new_with_data(&fst, MatchType::MatchInput, None).is_ok());
}

#[test]
fn test_lazy_queries_out_of_range() {
    let (fst1, fst2) = (first(), second());
    let mut lazy = ComposeFst::<_, SequenceComposeFilter<Sorted, Sorted>>::new(&fst1, &fst2).unwrap();
    assert_eq!(lazy.get_trs(0), Err(FstError::InvalidState(0)));
    assert_eq!(lazy.final_weight(0), Err(FstError::InvalidState(0)));
    assert_eq!(lazy.start(), Ok(Some(0)));
    assert_eq!(lazy.num_known_states(), 1);
    assert_eq!(lazy.final_weight(0), Ok(None));
    let trs = lazy.get_trs(0).unwrap();
    assert_eq!(lazy.get_trs(0).unwrap(), trs);
    assert_eq!(lazy.num_trs(0), Ok(trs.len()));
    assert!(lazy.num_known_states() > 1);
    assert_eq!(
        lazy.num_trs(lazy.num_known_states()),
        Err(FstError::InvalidState(lazy.num_known_states()))
    );
}

#[test]
fn test_cache() {
    let mut cache: SimpleHashMapCache<IntegerWeight> = SimpleHashMapCache::new();
    assert_eq!(cache.get_start(), CacheStatus::NotComputed);
    cache.insert_start(Some(4));
    assert_eq!(cache.get_start(), CacheStatus::Computed(Some(4)));
    assert_eq!(cache.get_trs(2), CacheStatus::NotComputed);
    assert_eq!(cache.num_trs(2), None);
    cache.insert_trs(2, vec![Tr::new(1, 1, w(1), 9)]);
    assert_eq!(
        cache.get_trs(2),
        CacheStatus::Computed(&vec![Tr::new(1, 1, w(1), 9)])
    );
    assert_eq!(cache.num_trs(2), Some(1));
    assert_eq!(cache.get_final_weight(2), CacheStatus::NotComputed);
    cache.insert_final_weight(2, None);
    assert_eq!(cache.get_final_weight(2), CacheStatus::Computed(None));
    cache.insert_final_weight(3, Some(w(6)));
    assert_eq!(cache.get_final_weight(3), CacheStatus::Computed(Some(w(6))));
    assert_eq!(cache.num_known_states(), 10);
}

#[test]
fn test_cached_data() {
    let mut slot: CachedData<CacheStatus<usize>> = CachedData::default();
    assert!(!slot.data.is_computed());
    slot.data = CacheStatus::Computed(3);
    slot.num_known_states = 4;
    slot.clear();
    assert_eq!(slot.data, CacheStatus::NotComputed);
    assert_eq!(slot.num_known_states, 0);
    let mut list: CachedData<Vec<CacheStatus<usize>>> = CachedData::default();
    list.data.push(CacheStatus::NotComputed);
    list.data.push(CacheStatus::Computed(7));
    assert_eq!(list.get(0), CacheStatus::NotComputed);
    assert_eq!(list.get(1), CacheStatus::Computed(&7));
    assert_eq!(list.get(2), CacheStatus::NotComputed);
    list.num_known_states = 2;
    list.clear();
    assert_eq!(list.data.len(), 0);
    assert_eq!(list.num_known_states, 0);
    let mut map: CachedData<HashMap<usize, usize>> = CachedData::default();
    map.data.insert(1, 2);
    map.num_known_states = 2;
    map.clear();
    assert!(map.data.is_empty());
    assert_eq!(map.num_known_states, 0);
    let option: CachedData<Option<usize>> = CachedData::default();
    assert_eq!(option.data, None);
}

#[test]
fn test_union_fst() {
    let (fst1, fst2) = (first(), second());
    let mut union = UnionFst::new(fst1, fst2).unwrap();
    assert_eq!(union.num_states(), 7);
    assert_eq!(union.start(), Some(0));
    assert_eq!(
        union.get_trs(0).unwrap(),
        vec![Tr::new(0, 0, w(1), 2), Tr::new(0, 0, w(1), 5)]
    );
    assert_eq!(union.get_trs(1).unwrap(), vec![]);
    assert_eq!(union.final_weight(1), Ok(Some(w(1))));
    assert_eq!(union.final_weight(3), Ok(None));
    assert_eq!(union.get_trs(3).unwrap(), vec![Tr::new(0, 0, w(11), 1)]);
    assert_eq!(
        union.get_trs(5).unwrap(),
        vec![
            Tr::new(0, 8, w(17), 5),
            Tr::new(5, 9, w(19), 6),
            Tr::new(6, 9, w(23), 6),
        ]
    );
    assert_eq!(union.num_trs(2), Ok(4));
    assert_eq!(union.get_trs(7), Err(FstError::InvalidState(7)));
    assert_eq!(union.final_weight(7), Err(FstError::InvalidState(7)));
    let fst = union.compute().unwrap();
    assert_eq!(fst.num_states(), 7);
    assert_eq!(fst.start(), Some(0));
    assert_eq!(fst.get_trs(6).unwrap(), &[Tr::new(0, 0, w(29), 1)][..]);
}

#[test]
fn test_union_fst_sync() {
    fn is_sync<T: Sync>() {}
    is_sync::<UnionFst<IntegerWeight>>();
}

#[test]
fn test_compose_records() {
    let (fst1, fst2) = (first(), second());
    let expected =
        compose_with_filter::<_, AltSequenceComposeFilter<Sorted, Sorted>>(&fst1, &fst2).unwrap();
    let record = ComposeOperationResult {
        fst_2: String::new(),
        result_static: String::new(),
        result_dynamic: String::new(),
        connect: false,
        filter_name: "alt_sequence".to_string(),
    };
    assert_eq!(record.filter(), Some(ComposeFilterEnum::AltSequenceFilter));
    let data = record.parse(second(), expected, second());
    assert_eq!(data.filter, ComposeFilterEnum::AltSequenceFilter);
    assert!(!data.connect);
    let compose = vec![data];
    assert_eq!(test_compose(&fst1, &compose), Ok(true));
    assert_eq!(test_compose_dynamic(&fst1, &compose), Ok(()));
    let wrong = ComposeOperationResult {
        fst_2: String::new(),
        result_static: String::new(),
        result_dynamic: String::new(),
        connect: true,
        filter_name: "null".to_string(),
    };
    let compose = vec![wrong.parse(second(), first(), second())];
    assert_eq!(test_compose(&fst1, &compose), Ok(false));
    for (name, filter) in [
        ("auto", ComposeFilterEnum::AutoFilter),
        ("null", ComposeFilterEnum::NullFilter),
        ("trivial", ComposeFilterEnum::TrivialFilter),
        ("sequence", ComposeFilterEnum::SequenceFilter),
        ("alt_sequence", ComposeFilterEnum::AltSequenceFilter),
        ("match", ComposeFilterEnum::MatchFilter),
        ("no_match", ComposeFilterEnum::NoMatchFilter),
    ]
    .iter()
    {
        let record = ComposeOperationResult {
            fst_2: String::new(),
            result_static: String::new(),
            result_dynamic: String::new(),
            connect: true,
            filter_name: name.to_string(),
        };
        assert_eq!(record.filter(), Some(*filter));
    }
    let unknown = ComposeOperationResult {
        fst_2: String::new(),
        result_static: String::new(),
        result_dynamic: String::new(),
        connect: true,
        filter_name: "other".to_string(),
    };
    assert_eq!(unknown.filter(), None);
}

#[test]
fn test_shortest_path_records() {
    let record = ShorestPathOperationResult {
        unique: true,
        nshortest: 3,
        result_path: "error".to_string(),
    };
    assert!(!record.has_result_file());
    let data = record.parse::<IntegerWeight>(&[]);
    assert!(data.unique);
    assert_eq!(data.nshortest, 3);
    assert!(data.result.is_err());
    let record = ShorestPathOperationResult {
        unique: false,
        nshortest: 1,
        result_path: "shortest.fst".to_string(),
    };
    assert!(record.has_result_file());
    let data = record.parse::<IntegerWeight>(&first().write());
    assert!(data.result.unwrap().same(&first()));
    let data = record.parse::<IntegerWeight>(&[1, 2, 3]);
    assert_eq!(data.result.err(), Some(FstError::Truncated));
}

#[test]
fn test_cached_data_clone() {
    let mut cached: CachedData<Vec<CacheStatus<usize>>> = CachedData::default();
    cached.data.push(CacheStatus::Computed(7));
    cached.data.push(CacheStatus::NotComputed);
    cached.num_known_states = 8;
    let copy = cached.clone();
    assert_eq!(copy.num_known_states, 8);
    assert_eq!(copy.data, vec![CacheStatus::Computed(7), CacheStatus::NotComputed]);
    cached.clear();
    assert_eq!(copy.data.len(), 2);
    assert_eq!(cached.data.len(), 0);
}

#[test]
fn test_lookahead_filter_asks_only_where_the_flags_say() {
    let (fst1, fst2) = (first(), second());
    let mut filter: LookAheadComposeFilter<_, SequenceComposeFilter<Ahead, Ahead>, SMatchBoth> =
        LookAheadComposeFilter::new(&fst1, &fst2, None, None).unwrap();
    assert!(!filter.lookahead_arc());
    filter.set_state(0, 0, &IntegerFilterState::new(0)).unwrap();
    // A match on the symbol 5: the flags of the matcher ask for no
    // look-ahead, so the pair is kept as the inner filter keeps it.
    let mut tr1 = Tr::new(1, 5, w(3), 1);
    let mut tr2 = Tr::new(5, 9, w(19), 1);
    assert_eq!(filter.filter_tr(&mut tr1, &mut tr2), Ok(IntegerFilterState::new(0)));
    assert!(!filter.lookahead_arc());
    // A joint move on the empty string, which the inner filter forbids.
    let mut tr1 = Tr::new(1, 0, w(2), 1);
    let mut tr2 = Tr::new(0, 8, w(17), 0);
    assert_eq!(
        filter.filter_tr(&mut tr1, &mut tr2),
        Ok(IntegerFilterState::new_no_state())
    );
    assert!(!filter.lookahead_arc());
}
