//! Composition in one call.

use vstd::prelude::*;

use crate::algorithms::compose::compose_filters::{
    AltSequenceComposeFilter, ComposeFilter, MatchComposeFilter, NoMatchComposeFilter,
    NullComposeFilter, SequenceComposeFilter, TrivialComposeFilter,
};
use crate::algorithms::compose::compose_fst::{compose_with_filter, is_composition};
use crate::algorithms::compose::compose_fst_op::ComposeFstOp;
use crate::algorithms::compose::matchers::SortedMatcher;
use crate::algorithms::compose::state_table::StateTuple;
use crate::algorithms::connect::{connect, connect_spec};
use crate::error::FstError;
use crate::fst_impls::{FstModel, VectorFst};
use crate::fst_properties::fst_shape;
use crate::semirings::Semiring;

verus! {

/// The filter of a composition.
#[derive(Clone, Copy, Debug, PartialEq, Eq, Structural, Hash)]
pub enum ComposeFilterEnum {
    /// The match filter if both operands are sorted on the matched side, the
    /// sequence filter else.
    AutoFilter,
    NullFilter,
    TrivialFilter,
    SequenceFilter,
    AltSequenceFilter,
    MatchFilter,
    NoMatchFilter,
}

/// How a composition is made.
#[derive(Clone, Copy, Debug, PartialEq, Eq, Structural, Hash)]
pub struct ComposeConfig {
    pub compose_filter: ComposeFilterEnum,
    /// Whether the result is trimmed.
    pub connect: bool,
}

impl Default for ComposeConfig {
    fn default() -> (config: Self)
        ensures
            config == (ComposeConfig {
                compose_filter: ComposeFilterEnum::AutoFilter,
                connect: true,
            }),
    {
        ComposeConfig { compose_filter: ComposeFilterEnum::AutoFilter, connect: true }
    }
}

/// The filter that `filter` stands for, for the operands `fst1` and `fst2`.
pub open spec fn chosen_filter<W: Semiring>(
    filter: ComposeFilterEnum,
    fst1: FstModel<W>,
    fst2: FstModel<W>,
) -> ComposeFilterEnum {
    if filter == ComposeFilterEnum::AutoFilter {
        if fst_shape(fst1).o_label_sorted && fst_shape(fst2).i_label_sorted {
            ComposeFilterEnum::MatchFilter
        } else {
            ComposeFilterEnum::SequenceFilter
        }
    } else {
        filter
    }
}

/// `r` is what the composition of `fst1` with `fst2` under the filter `CF`
/// gives, trimmed if `trim` says so: the error for which the composition
/// cannot be made, or the composition.
pub open spec fn composed_with<'a, W: Semiring + 'a, CF: ComposeFilter<'a, W>>(
    fst1: FstModel<W>,
    fst2: FstModel<W>,
    trim: bool,
    r: Result<VectorFst<W>, FstError>,
) -> bool {
    match ComposeFstOp::<W, CF>::new_spec(fst1, fst2, None, None) {
        Some(e) => r is Err && r->Err_0 == e,
        None => r is Ok && r->Ok_0.wf() && exists|tuples: Seq<StateTuple<CF::FS>>, m: FstModel<W>|
            #[trigger] is_composition::<W, CF>(fst1, fst2, tuples, m) && m.wf() && m.states.len()
                <= usize::MAX && r->Ok_0@ == (if trim {
                connect_spec(m)
            } else {
                m
            }),
    }
}

/// The composition of `fst1` with `fst2` under the filter `CF`, trimmed if
/// `trim` says so.
pub fn compose_trimmed<'a, W: Semiring + 'a, CF: ComposeFilter<'a, W>>(
    fst1: &'a VectorFst<W>,
    fst2: &'a VectorFst<W>,
    trim: bool,
) -> (r: Result<VectorFst<W>, FstError>)
    requires
        fst1.wf(),
        fst2.wf(),
    ensures
        composed_with::<W, CF>(fst1@, fst2@, trim, r),
{
    let mut fst = compose_with_filter::<W, CF>(fst1, fst2)?;
    let ghost m = fst@;
    proof {
        fst.lemma_countable();
    }
    if trim {
        let _ = connect(&mut fst);
    }
    proof {
        let tuples = choose|tuples: Seq<StateTuple<CF::FS>>|
            is_composition::<W, CF>(fst1@, fst2@, tuples, m);
        assert(is_composition::<W, CF>(fst1@, fst2@, tuples, m));
    }
    Ok(fst)
}

/// Why no composition of `fst1` with `fst2` can be made by binary search,
/// if none can: the transitions of `fst1` are not sorted by output label, or
/// those of `fst2` not by input label.
pub open spec fn operands_error<W: Semiring>(fst1: FstModel<W>, fst2: FstModel<W>) -> Option<
    FstError,
> {
    if !fst_shape(fst1).o_label_sorted || !fst_shape(fst2).i_label_sorted {
        Some(FstError::PropertyViolation)
    } else {
        None
    }
}

/// Whether a composition of `fst1` with `fst2` can be made by binary
/// search.
pub fn check_operands<W: Semiring>(fst1: &VectorFst<W>, fst2: &VectorFst<W>) -> (r: Result<
    (),
    FstError,
>)
    ensures
        match operands_error(fst1@, fst2@) {
            Some(e) => r == Err::<(), FstError>(e),
            None => r is Ok,
        },
{
    if !fst1.shape().o_label_sorted || !fst2.shape().i_label_sorted {
        Err(FstError::PropertyViolation)
    } else {
        Ok(())
    }
}

/// The composition of `fst1` with `fst2` as `config` asks for it. Both
/// operands are matched by binary search: the transitions of `fst1` must be
/// sorted by output label and those of `fst2` by input label.
pub fn compose_with_config<'a, W: Semiring + 'a>(
    fst1: &'a VectorFst<W>,
    fst2: &'a VectorFst<W>,
    config: ComposeConfig,
) -> (r: Result<VectorFst<W>, FstError>)
    requires
        fst1.wf(),
        fst2.wf(),
    ensures
        match chosen_filter(config.compose_filter, fst1@, fst2@) {
            ComposeFilterEnum::NullFilter => composed_with::<
                W,
                NullComposeFilter<SortedMatcher<'a, W>, SortedMatcher<'a, W>>,
            >(fst1@, fst2@, config.connect, r),
            ComposeFilterEnum::TrivialFilter => composed_with::<
                W,
                TrivialComposeFilter<SortedMatcher<'a, W>, SortedMatcher<'a, W>>,
            >(fst1@, fst2@, config.connect, r),
            ComposeFilterEnum::SequenceFilter => composed_with::<
                W,
                SequenceComposeFilter<SortedMatcher<'a, W>, SortedMatcher<'a, W>>,
            >(fst1@, fst2@, config.connect, r),
            ComposeFilterEnum::AltSequenceFilter => composed_with::<
                W,
                AltSequenceComposeFilter<SortedMatcher<'a, W>, SortedMatcher<'a, W>>,
            >(fst1@, fst2@, config.connect, r),
            ComposeFilterEnum::MatchFilter => composed_with::<
                W,
                MatchComposeFilter<SortedMatcher<'a, W>, SortedMatcher<'a, W>>,
            >(fst1@, fst2@, config.connect, r),
            _ => composed_with::<
                W,
                NoMatchComposeFilter<SortedMatcher<'a, W>, SortedMatcher<'a, W>>,
            >(fst1@, fst2@, config.connect, r),
        },
{
    let filter = match config.compose_filter {
        ComposeFilterEnum::AutoFilter => {
            if fst1.shape().o_label_sorted && fst2.shape().i_label_sorted {
                ComposeFilterEnum::MatchFilter
            } else {
                ComposeFilterEnum::SequenceFilter
            }
        },
        filter => filter,
    };
    match filter {
        ComposeFilterEnum::NullFilter => compose_trimmed::<
            W,
            NullComposeFilter<SortedMatcher<'a, W>, SortedMatcher<'a, W>>,
        >(fst1, fst2, config.connect),
        ComposeFilterEnum::TrivialFilter => compose_trimmed::<
            W,
            TrivialComposeFilter<SortedMatcher<'a, W>, SortedMatcher<'a, W>>,
        >(fst1, fst2, config.connect),
        ComposeFilterEnum::SequenceFilter => compose_trimmed::<
            W,
            SequenceComposeFilter<SortedMatcher<'a, W>, SortedMatcher<'a, W>>,
        >(fst1, fst2, config.connect),
        ComposeFilterEnum::AltSequenceFilter => compose_trimmed::<
            W,
            AltSequenceComposeFilter<SortedMatcher<'a, W>, SortedMatcher<'a, W>>,
        >(fst1, fst2, config.connect),
        ComposeFilterEnum::MatchFilter => compose_trimmed::<
            W,
            MatchComposeFilter<SortedMatcher<'a, W>, SortedMatcher<'a, W>>,
        >(fst1, fst2, config.connect),
        _ => compose_trimmed::<
            W,
            NoMatchComposeFilter<SortedMatcher<'a, W>, SortedMatcher<'a, W>>,
        >(fst1, fst2, config.connect),
    }
}

/// The trimmed composition of `fst1` with `fst2`: if `fst1` transduces a
/// string x to y with weight a and `fst2` transduces y to z with weight b,
/// their composition transduces x to z with the product of a and b.
pub fn compose<'a, W: Semiring + 'a>(fst1: &'a VectorFst<W>, fst2: &'a VectorFst<W>) -> (r: Result<
    VectorFst<W>,
    FstError,
>)
    requires
        fst1.wf(),
        fst2.wf(),
    ensures
        match chosen_filter(ComposeFilterEnum::AutoFilter, fst1@, fst2@) {
            ComposeFilterEnum::MatchFilter => composed_with::<
                W,
                MatchComposeFilter<SortedMatcher<'a, W>, SortedMatcher<'a, W>>,
            >(fst1@, fst2@, true, r),
            _ => composed_with::<
                W,
                SequenceComposeFilter<SortedMatcher<'a, W>, SortedMatcher<'a, W>>,
            >(fst1@, fst2@, true, r),
        },
{
    compose_with_config(fst1, fst2, ComposeConfig::default())
}

} // verus!
