//! Checking compositions against expected results.

use vstd::prelude::*;

use crate::algorithms::compose::compose::{
    chosen_filter, compose_with_config, composed_with, ComposeConfig, ComposeFilterEnum,
};
use crate::algorithms::compose::compose_filters::{
    AltSequenceComposeFilter, ComposeFilter, MatchComposeFilter, NoMatchComposeFilter,
    NullComposeFilter, SequenceComposeFilter, TrivialComposeFilter,
};
use crate::algorithms::compose::compose_fst::ComposeFst;
use crate::algorithms::compose::compose_fst_op::ComposeFstOp;
use crate::algorithms::compose::matchers::SortedMatcher;
use crate::error::FstError;
use crate::fst_impls::{FstModel, VectorFst};
use crate::semirings::Semiring;

verus! {

/// A composition that was computed elsewhere, as it is written down: the
/// second operand and the results in the text format, and how the
/// composition was made.
pub struct ComposeOperationResult {
    pub fst_2: String,
    pub result_static: String,
    pub result_dynamic: String,
    pub connect: bool,
    pub filter_name: String,
}

/// A composition that was computed elsewhere.
pub struct ComposeTestData<W: Semiring> {
    pub fst_2: VectorFst<W>,
    pub result_static: VectorFst<W>,
    pub result_dynamic: VectorFst<W>,
    pub connect: bool,
    pub filter: ComposeFilterEnum,
}

/// The filter that a name stands for.
pub open spec fn filter_of_name(name: Seq<char>) -> Option<ComposeFilterEnum> {
    if name == "auto"@ {
        Some(ComposeFilterEnum::AutoFilter)
    } else if name == "null"@ {
        Some(ComposeFilterEnum::NullFilter)
    } else if name == "trivial"@ {
        Some(ComposeFilterEnum::TrivialFilter)
    } else if name == "sequence"@ {
        Some(ComposeFilterEnum::SequenceFilter)
    } else if name == "alt_sequence"@ {
        Some(ComposeFilterEnum::AltSequenceFilter)
    } else if name == "match"@ {
        Some(ComposeFilterEnum::MatchFilter)
    } else if name == "no_match"@ {
        Some(ComposeFilterEnum::NoMatchFilter)
    } else {
        None
    }
}

/// Whether `name` is the string `literal`.
fn is_name(name: &String, literal: &str) -> (b: bool)
    ensures
        b == (name@ == literal@),
{
    *name == literal.to_owned()
}

impl ComposeOperationResult {
    /// The filter that the record names, if it names one.
    pub fn filter(&self) -> (r: Option<ComposeFilterEnum>)
        ensures
            r == filter_of_name(self.filter_name@),
    {
        if is_name(&self.filter_name, "auto") {
            Some(ComposeFilterEnum::AutoFilter)
        } else if is_name(&self.filter_name, "null") {
            Some(ComposeFilterEnum::NullFilter)
        } else if is_name(&self.filter_name, "trivial") {
            Some(ComposeFilterEnum::TrivialFilter)
        } else if is_name(&self.filter_name, "sequence") {
            Some(ComposeFilterEnum::SequenceFilter)
        } else if is_name(&self.filter_name, "alt_sequence") {
            Some(ComposeFilterEnum::AltSequenceFilter)
        } else if is_name(&self.filter_name, "match") {
            Some(ComposeFilterEnum::MatchFilter)
        } else if is_name(&self.filter_name, "no_match") {
            Some(ComposeFilterEnum::NoMatchFilter)
        } else {
            None
        }
    }

    /// The record with its three transducers, which the caller has read
    /// from the text of the record. The record names a filter: `filter`
    /// tells whether it does.
    pub fn parse<W: Semiring>(
        &self,
        fst_2: VectorFst<W>,
        result_static: VectorFst<W>,
        result_dynamic: VectorFst<W>,
    ) -> (r: ComposeTestData<W>)
        requires
            filter_of_name(self.filter_name@) is Some,
        ensures
            r.fst_2 == fst_2,
            r.result_static == result_static,
            r.result_dynamic == result_dynamic,
            r.connect == self.connect,
            Some(r.filter) == filter_of_name(self.filter_name@),
    {
        ComposeTestData {
            fst_2,
            result_static,
            result_dynamic,
            connect: self.connect,
            filter: self.filter().unwrap(),
        }
    }
}

/// The composition of `raw` with the second operand of the record under
/// the filter `CF`, trimmed if the record says so, is the result that the
/// record expects.
pub open spec fn passes<'a, W: Semiring + 'a, CF: ComposeFilter<'a, W>>(
    raw: FstModel<W>,
    data: ComposeTestData<W>,
) -> bool {
    exists|composed: VectorFst<W>|
        #[trigger] composed_with::<W, CF>(raw, data.fst_2@, data.connect, Ok(composed))
            && composed@ == data.result_static@
}

/// The composition of `raw` with the second operand of the record under
/// the filter `CF`, trimmed if the record says so, is not the result that
/// the record expects.
pub open spec fn fails<'a, W: Semiring + 'a, CF: ComposeFilter<'a, W>>(
    raw: FstModel<W>,
    data: ComposeTestData<W>,
) -> bool {
    exists|composed: VectorFst<W>|
        #[trigger] composed_with::<W, CF>(raw, data.fst_2@, data.connect, Ok(composed))
            && composed@ != data.result_static@
}

/// Composes `raw` with the second operand of each record, as the record
/// asks, and says whether each result is the one that the record expects.
/// The first composition that cannot be made ends the check with its error.
pub fn test_compose<'a, W: Semiring + 'a>(
    raw: &'a VectorFst<W>,
    compose: &'a Vec<ComposeTestData<W>>,
) -> (r: Result<bool, FstError>)
    requires
        raw.wf(),
        forall|k: int| 0 <= k < compose@.len() ==> (#[trigger] compose@[k]).fst_2.wf(),
    ensures
        r matches Ok(true) ==> forall|k: int|
            0 <= k < compose@.len() ==> match chosen_filter(
                (#[trigger] compose@[k]).filter,
                raw@,
                compose@[k].fst_2@,
            ) {
                ComposeFilterEnum::NullFilter => passes::<
                    W,
                    NullComposeFilter<SortedMatcher<'a, W>, SortedMatcher<'a, W>>,
                >(raw@, compose@[k]),
                ComposeFilterEnum::TrivialFilter => passes::<
                    W,
                    TrivialComposeFilter<SortedMatcher<'a, W>, SortedMatcher<'a, W>>,
                >(raw@, compose@[k]),
                ComposeFilterEnum::SequenceFilter => passes::<
                    W,
                    SequenceComposeFilter<SortedMatcher<'a, W>, SortedMatcher<'a, W>>,
                >(raw@, compose@[k]),
                ComposeFilterEnum::AltSequenceFilter => passes::<
                    W,
                    AltSequenceComposeFilter<SortedMatcher<'a, W>, SortedMatcher<'a, W>>,
                >(raw@, compose@[k]),
                ComposeFilterEnum::MatchFilter => passes::<
                    W,
                    MatchComposeFilter<SortedMatcher<'a, W>, SortedMatcher<'a, W>>,
                >(raw@, compose@[k]),
                _ => passes::<
                    W,
                    NoMatchComposeFilter<SortedMatcher<'a, W>, SortedMatcher<'a, W>>,
                >(raw@, compose@[k]),
            },
        r matches Ok(false) ==> exists|k: int|
            0 <= k < compose@.len() && match chosen_filter(
                (#[trigger] compose@[k]).filter,
                raw@,
                compose@[k].fst_2@,
            ) {
                ComposeFilterEnum::NullFilter => fails::<
                    W,
                    NullComposeFilter<SortedMatcher<'a, W>, SortedMatcher<'a, W>>,
                >(raw@, compose@[k]),
                ComposeFilterEnum::TrivialFilter => fails::<
                    W,
                    TrivialComposeFilter<SortedMatcher<'a, W>, SortedMatcher<'a, W>>,
                >(raw@, compose@[k]),
                ComposeFilterEnum::SequenceFilter => fails::<
                    W,
                    SequenceComposeFilter<SortedMatcher<'a, W>, SortedMatcher<'a, W>>,
                >(raw@, compose@[k]),
                ComposeFilterEnum::AltSequenceFilter => fails::<
                    W,
                    AltSequenceComposeFilter<SortedMatcher<'a, W>, SortedMatcher<'a, W>>,
                >(raw@, compose@[k]),
                ComposeFilterEnum::MatchFilter => fails::<
                    W,
                    MatchComposeFilter<SortedMatcher<'a, W>, SortedMatcher<'a, W>>,
                >(raw@, compose@[k]),
                _ => fails::<
                    W,
                    NoMatchComposeFilter<SortedMatcher<'a, W>, SortedMatcher<'a, W>>,
                >(raw@, compose@[k]),
            },
        r matches Err(e) ==> exists|k: int|
            0 <= k < compose@.len() && crate::algorithms::compose::compose::operands_error(
                raw@,
                (#[trigger] compose@[k]).fst_2@,
            ) == Some(e),
{
    let mut i: usize = 0;
    while i < compose.len()
        invariant
            i <= compose@.len(),
            raw.wf(),
            forall|k: int| 0 <= k < compose@.len() ==> (#[trigger] compose@[k]).fst_2.wf(),
            forall|k: int|
                0 <= k < i ==> match chosen_filter(
                    (#[trigger] compose@[k]).filter,
                    raw@,
                    compose@[k].fst_2@,
                ) {
                    ComposeFilterEnum::NullFilter => passes::<
                        W,
                        NullComposeFilter<SortedMatcher<'a, W>, SortedMatcher<'a, W>>,
                    >(raw@, compose@[k]),
                    ComposeFilterEnum::TrivialFilter => passes::<
                        W,
                        TrivialComposeFilter<SortedMatcher<'a, W>, SortedMatcher<'a, W>>,
                    >(raw@, compose@[k]),
                    ComposeFilterEnum::SequenceFilter => passes::<
                        W,
                        SequenceComposeFilter<SortedMatcher<'a, W>, SortedMatcher<'a, W>>,
                    >(raw@, compose@[k]),
                    ComposeFilterEnum::AltSequenceFilter => passes::<
                        W,
                        AltSequenceComposeFilter<SortedMatcher<'a, W>, SortedMatcher<'a, W>>,
                    >(raw@, compose@[k]),
                    ComposeFilterEnum::MatchFilter => passes::<
                        W,
                        MatchComposeFilter<SortedMatcher<'a, W>, SortedMatcher<'a, W>>,
                    >(raw@, compose@[k]),
                    _ => passes::<
                        W,
                        NoMatchComposeFilter<SortedMatcher<'a, W>, SortedMatcher<'a, W>>,
                    >(raw@, compose@[k]),
                },
        decreases compose.len() - i,
    {
        let data = &compose[i];
        let config = ComposeConfig { compose_filter: data.filter, connect: data.connect };
        let result = compose_with_config(raw, &data.fst_2, config);
        match result {
            Err(e) => {
                proof {
                    let _ = compose@[i as int];
                }
                return Err(e);
            },
            Ok(fst_res_static) => {
                if !data.result_static.same(&fst_res_static) {
                    proof {
                        let _ = compose@[i as int];
                    }
                    return Ok(false);
                }
            },
        }
        i = i + 1;
    }
    Ok(true)
}

/// Makes the lazy composition of `fst1` with `fst2` under the filter `CF`,
/// and computes nothing of it.
pub fn make_dynamic<'a, W: Semiring + 'a, CF: ComposeFilter<'a, W>>(
    fst1: &'a VectorFst<W>,
    fst2: &'a VectorFst<W>,
) -> (r: Result<(), FstError>)
    requires
        fst1.wf(),
        fst2.wf(),
    ensures
        match ComposeFstOp::<W, CF>::new_spec(fst1@, fst2@, None, None) {
            Some(e) => r == Err::<(), FstError>(e),
            None => r is Ok,
        },
{
    let _dyn_fst = ComposeFst::<W, CF>::new(fst1, fst2)?;
    Ok(())
}

/// Makes the lazy composition of `raw` with the second operand of each
/// record, under the filter that the record names; where the record leaves
/// the filter open, under the filter that lets the first transducer move
/// on the empty string before the second. The first composition that
/// cannot be made ends the check with its error.
pub fn test_compose_dynamic<'a, W: Semiring + 'a>(
    raw: &'a VectorFst<W>,
    compose: &'a Vec<ComposeTestData<W>>,
) -> (r: Result<(), FstError>)
    requires
        raw.wf(),
        forall|k: int| 0 <= k < compose@.len() ==> (#[trigger] compose@[k]).fst_2.wf(),
    ensures
        r is Ok <==> forall|k: int|
            0 <= k < compose@.len() ==> dynamic_error(raw@, (#[trigger] compose@[k]).fst_2@)
                is None,
        r matches Err(e) ==> exists|k: int|
            0 <= k < compose@.len() && dynamic_error(raw@, (#[trigger] compose@[k]).fst_2@)
                == Some(e),
{
    let mut i: usize = 0;
    while i < compose.len()
        invariant
            i <= compose@.len(),
            raw.wf(),
            forall|k: int| 0 <= k < compose@.len() ==> (#[trigger] compose@[k]).fst_2.wf(),
            forall|k: int|
                0 <= k < i ==> dynamic_error(raw@, (#[trigger] compose@[k]).fst_2@) is None,
        decreases compose.len() - i,
    {
        let data = &compose[i];
        let made = match data.filter {
            ComposeFilterEnum::AutoFilter => match ComposeFst::new_auto(raw, &data.fst_2) {
                Ok(_dyn_fst) => Ok(()),
                Err(e) => Err(e),
            },
            ComposeFilterEnum::NullFilter => make_dynamic::<
                W,
                NullComposeFilter<SortedMatcher<'a, W>, SortedMatcher<'a, W>>,
            >(raw, &data.fst_2),
            ComposeFilterEnum::TrivialFilter => make_dynamic::<
                W,
                TrivialComposeFilter<SortedMatcher<'a, W>, SortedMatcher<'a, W>>,
            >(raw, &data.fst_2),
            ComposeFilterEnum::SequenceFilter => make_dynamic::<
                W,
                SequenceComposeFilter<SortedMatcher<'a, W>, SortedMatcher<'a, W>>,
            >(raw, &data.fst_2),
            ComposeFilterEnum::AltSequenceFilter => make_dynamic::<
                W,
                AltSequenceComposeFilter<SortedMatcher<'a, W>, SortedMatcher<'a, W>>,
            >(raw, &data.fst_2),
            ComposeFilterEnum::MatchFilter => make_dynamic::<
                W,
                MatchComposeFilter<SortedMatcher<'a, W>, SortedMatcher<'a, W>>,
            >(raw, &data.fst_2),
            ComposeFilterEnum::NoMatchFilter => make_dynamic::<
                W,
                NoMatchComposeFilter<SortedMatcher<'a, W>, SortedMatcher<'a, W>>,
            >(raw, &data.fst_2),
        };
        if let Err(e) = made {
            return Err(e);
        }
        i = i + 1;
    }
    Ok(())
}

/// Why no lazy composition of `fst1` with `fst2` can be made, if none can:
/// the transitions of `fst1` are not sorted by output label, or those of
/// `fst2` not by input label.
pub open spec fn dynamic_error<W: Semiring>(fst1: FstModel<W>, fst2: FstModel<W>) -> Option<
    FstError,
> {
    crate::algorithms::compose::compose::operands_error(fst1, fst2)
}

} // verus!
