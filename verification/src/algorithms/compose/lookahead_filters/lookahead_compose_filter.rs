//! The filter that keeps a pair only if a look-ahead matcher sees a future
//! for it.

use core::marker::PhantomData;
use vstd::prelude::*;

use crate::algorithms::compose::compose_filters::compose_filter::{
    bound_to, make_matchers, matchers_spec, model_of, ComposeFilter, MatcherModel,
};
use crate::algorithms::compose::filter_states::FilterState;
use crate::algorithms::compose::lookahead_filters::lookahead_selector::{
    selector, selector_spec, MatchTypeTrait, Selector,
};
use crate::algorithms::compose::lookahead_matchers::LookaheadMatcher;
use crate::algorithms::compose::matchers::{
    MatchType, Matcher, MatcherFlags, INPUT_LOOKAHEAD_MATCHER, LOOKAHEAD_EPSILONS,
    LOOKAHEAD_NON_EPSILONS, OUTPUT_LOOKAHEAD_MATCHER,
};
use crate::algorithms::compose::state_table::StateTuple;
use crate::error::FstError;
use crate::fst_impls::{FstModel, VectorFst};
use crate::semirings::Semiring;
use crate::tr::Tr;
use crate::{StateId, EPS_LABEL};

verus! {

/// The side on which two matchers of a composition can look ahead: the
/// output side if the first matcher can, else the input side if the second
/// can, else none.
pub open spec fn lookahead_match_type_spec(flags1: MatcherFlags, flags2: MatcherFlags) -> MatchType {
    if flags1.contains_spec(OUTPUT_LOOKAHEAD_MATCHER) {
        MatchType::MatchOutput
    } else if flags2.contains_spec(INPUT_LOOKAHEAD_MATCHER) {
        MatchType::MatchInput
    } else {
        MatchType::MatchNone
    }
}

/// The side on which the matchers `matcher1`, of the first transducer, and
/// `matcher2`, of the second, can look ahead.
pub fn lookahead_match_type<'a, W: Semiring + 'a, M1: Matcher<'a, W>, M2: Matcher<'a, W>>(
    matcher1: &M1,
    matcher2: &M2,
) -> (t: MatchType)
    requires
        matcher1.inv(),
        matcher2.inv(),
    ensures
        t == lookahead_match_type_spec(M1::flags_spec(), M2::flags_spec()),
{
    if matcher1.flags().contains(OUTPUT_LOOKAHEAD_MATCHER) {
        MatchType::MatchOutput
    } else if matcher2.flags().contains(INPUT_LOOKAHEAD_MATCHER) {
        MatchType::MatchInput
    } else {
        MatchType::MatchNone
    }
}

/// What a look-ahead filter can be asked.
pub trait LookAheadComposeFilterTrait<'a, W: Semiring + 'a>: ComposeFilter<'a, W> {
    spec fn flags_spec() -> MatcherFlags;

    spec fn type_spec() -> MatchType;

    spec fn output_spec() -> bool;

    spec fn chosen_spec() -> Option<Selector>;

    spec fn asked_spec(&self) -> bool;

    /// The flags of the matcher that looks ahead.
    fn lookahead_flags(&self) -> (flags: MatcherFlags)
        requires
            self.inv(),
        ensures
            flags == Self::flags_spec(),
    ;

    /// Whether the last decision asked the look-ahead matcher.
    fn lookahead_arc(&self) -> (asked: bool)
        requires
            self.inv(),
        ensures
            asked == self.asked_spec(),
    ;

    /// The side on which the filter looks ahead.
    fn lookahead_type(&self) -> (t: MatchType)
        requires
            self.inv(),
        ensures
            t == Self::type_spec(),
    ;

    /// Whether the filter looks ahead on the output side of the first
    /// transducer.
    fn lookahead_output(&self) -> (b: bool)
        requires
            self.inv(),
        ensures
            b == Self::output_spec(),
    ;

    /// Which matcher looks ahead.
    fn selector(&self) -> (chosen: Selector)
        requires
            self.inv(),
        ensures
            Some(chosen) == Self::chosen_spec(),
    ;
}

/// A filter `CF` with a look-ahead: a pair that `CF` keeps is kept only if
/// the look-ahead matcher does not rule out that the two targets go on
/// together. `SMT` fixes the side of the look-ahead, or leaves it to the
/// matchers.
pub struct LookAheadComposeFilter<
    'a,
    W: Semiring + 'a,
    CF: ComposeFilter<'a, W>,
    SMT: MatchTypeTrait,
> {
    filter: CF,
    lookahead_type: MatchType,
    flags: MatcherFlags,
    lookahead_arc: bool,
    selector: Selector,
    smt: PhantomData<SMT>,
    w: PhantomData<&'a W>,
}

/// The side on which a look-ahead filter looks ahead: the side that `SMT`
/// fixes, or the side on which the matchers can.
pub open spec fn lookahead_type_spec<
    'a,
    W: Semiring + 'a,
    M1: Matcher<'a, W>,
    M2: Matcher<'a, W>,
    SMT: MatchTypeTrait,
>() -> MatchType {
    if SMT::match_type_spec() == MatchType::MatchBoth {
        lookahead_match_type_spec(M1::flags_spec(), M2::flags_spec())
    } else {
        SMT::match_type_spec()
    }
}

/// The flags of the matcher that looks ahead.
pub open spec fn lookahead_flags_spec<
    'a,
    W: Semiring + 'a,
    M1: Matcher<'a, W>,
    M2: Matcher<'a, W>,
    SMT: MatchTypeTrait,
>() -> MatcherFlags {
    if lookahead_type_spec::<W, M1, M2, SMT>() == MatchType::MatchOutput {
        M1::flags_spec()
    } else {
        M2::flags_spec()
    }
}

/// Whether a look-ahead filter looks ahead on the output side of the first
/// transducer.
pub open spec fn lookahead_output_spec<
    'a,
    W: Semiring + 'a,
    M1: Matcher<'a, W>,
    M2: Matcher<'a, W>,
    SMT: MatchTypeTrait,
>() -> bool {
    if SMT::match_type_spec() == MatchType::MatchOutput {
        true
    } else if SMT::match_type_spec() == MatchType::MatchInput {
        false
    } else {
        lookahead_type_spec::<W, M1, M2, SMT>() == MatchType::MatchOutput
    }
}

/// Whether the flags of the matcher that looks ahead ask for a look-ahead
/// on the pair `(tr1, tr2)`: on the label of the transition that is looked
/// ahead from, the empty string or a symbol.
pub open spec fn asks_lookahead<
    'a,
    W: Semiring + 'a,
    M1: Matcher<'a, W>,
    M2: Matcher<'a, W>,
    SMT: MatchTypeTrait,
>(tr1: Tr<W>, tr2: Tr<W>) -> bool {
    let flags = lookahead_flags_spec::<W, M1, M2, SMT>();
    let labela = if lookahead_output_spec::<W, M1, M2, SMT>() {
        tr1.olabel
    } else {
        tr2.ilabel
    };
    if labela == EPS_LABEL {
        flags.contains_spec(LOOKAHEAD_EPSILONS)
    } else {
        flags.contains_spec(LOOKAHEAD_NON_EPSILONS)
    }
}

/// What the look-ahead makes of a pair that the inner filter keeps in the
/// filter state `fs`: where the look-ahead is on the output side, the first
/// transition is the one that is looked ahead from, else the second. The
/// pair is kept as it is if the flags do not ask for a look-ahead on its
/// label; else it is kept if the matcher sees a future for the two
/// targets.
pub open spec fn lookahead_filter_tr_spec<
    'a,
    W: Semiring + 'a,
    FS: FilterState,
    M1: LookaheadMatcher<'a, W>,
    M2: LookaheadMatcher<'a, W>,
    SMT: MatchTypeTrait,
>(fst1: FstModel<W>, fst2: FstModel<W>, tr1: Tr<W>, tr2: Tr<W>, fs: FS) -> FS {
    let output = lookahead_output_spec::<W, M1, M2, SMT>();
    if !asks_lookahead::<W, M1, M2, SMT>(tr1, tr2) {
        fs
    } else {
        let seen = if output {
            M1::lookahead_fst_spec(
                fst1,
                MatchType::MatchOutput,
                tr1.nextstate,
                fst2,
                tr2.nextstate,
            )
        } else {
            M2::lookahead_fst_spec(fst2, MatchType::MatchInput, tr2.nextstate, fst1, tr1.nextstate)
        };
        if seen {
            fs
        } else {
            FS::no_state_spec()
        }
    }
}

impl<'a, W: Semiring + 'a, CF: ComposeFilter<'a, W>, SMT: MatchTypeTrait> LookAheadComposeFilter<
    'a,
    W,
    CF,
    SMT,
> where CF::M1: LookaheadMatcher<'a, W>, CF::M2: LookaheadMatcher<'a, W> {
    /// The validity of the filter: the inner filter is valid, its matchers
    /// match on the sides that a composition asks for, and what the filter
    /// holds of the look-ahead is what the matchers and `SMT` fix.
    pub closed spec fn valid(&self) -> bool {
        &&& self.filter.inv()
        &&& self.filter.matcher1_spec().match_type_spec() == MatchType::MatchOutput
        &&& self.filter.matcher2_spec().match_type_spec() == MatchType::MatchInput
        &&& self.lookahead_type == lookahead_type_spec::<W, CF::M1, CF::M2, SMT>()
        &&& self.flags == lookahead_flags_spec::<W, CF::M1, CF::M2, SMT>()
        &&& selector_spec(SMT::match_type_spec(), self.lookahead_type) == Some(self.selector)
        &&& self.lookahead_type != MatchType::MatchNone
    }

    fn lookahead_output_value(&self) -> (b: bool)
        requires
            self.valid(),
        ensures
            b == lookahead_output_spec::<W, CF::M1, CF::M2, SMT>(),
            b == (self.selector == Selector::MatchOutput),
    {
        if SMT::match_type() == MatchType::MatchOutput {
            true
        } else if SMT::match_type() == MatchType::MatchInput {
            false
        } else if self.lookahead_type == MatchType::MatchOutput {
            true
        } else {
            false
        }
    }

    /// Asks the look-ahead matcher about the pair `(arca, arcb)`, of which
    /// `arca` is the transition that is looked ahead from: the pair is kept
    /// in the filter state `fs`, or forbidden.
    fn lookahead_filter_arc(&mut self, arca: &Tr<W>, arcb: &Tr<W>, fs: &CF::FS) -> (r: Result<
        CF::FS,
        FstError,
    >)
        requires
            old(self).valid(),
        ensures
            final(self).valid(),
            final(self).filter == old(self).filter,
            ({
                let output = lookahead_output_spec::<W, CF::M1, CF::M2, SMT>();
                let tr1 = if output {
                    *arca
                } else {
                    *arcb
                };
                let tr2 = if output {
                    *arcb
                } else {
                    *arca
                };
                let fst1 = old(self).filter.matcher1_spec().fst_spec();
                let fst2 = old(self).filter.matcher2_spec().fst_spec();
                &&& fst1.has_state(tr1.nextstate) && fst2.has_state(tr2.nextstate) ==> r is Ok
                &&& r matches Ok(out) ==> out == lookahead_filter_tr_spec::<
                    W,
                    CF::FS,
                    CF::M1,
                    CF::M2,
                    SMT,
                >(fst1, fst2, tr1, tr2, *fs)
                &&& final(self).lookahead_arc == (old(self).lookahead_arc || asks_lookahead::<
                    W,
                    CF::M1,
                    CF::M2,
                    SMT,
                >(tr1, tr2))
            }),
    {
        let output = self.lookahead_output_value();
        let labela = if output {
            arca.olabel
        } else {
            arca.ilabel
        };
        if labela != EPS_LABEL && !self.flags.contains(LOOKAHEAD_NON_EPSILONS) {
            return Ok(*fs);
        }
        if labela == EPS_LABEL && !self.flags.contains(LOOKAHEAD_EPSILONS) {
            return Ok(*fs);
        }
        self.lookahead_arc = true;
        proof {
            self.filter.lemma_inv();
            self.filter.matcher1_spec().lemma_inv();
            self.filter.matcher2_spec().lemma_inv();
        }

        let res = match self.selector {
            Selector::MatchInput => {
                let lfst = self.filter.matcher1().fst();
                self.filter.matcher2().lookahead_fst(arca.nextstate, lfst, arcb.nextstate)?
            },
            Selector::MatchOutput => {
                let lfst = self.filter.matcher2().fst();
                self.filter.matcher1().lookahead_fst(arca.nextstate, lfst, arcb.nextstate)?
            },
        };

        if res {
            Ok(*fs)
        } else {
            Ok(CF::FS::new_no_state())
        }
    }
}

/// Why a look-ahead filter cannot be made of matchers of `fst1` and `fst2`
/// that match on the sides `type1` and `type2`, if it cannot: the matchers
/// match on the wrong sides, none of them can look ahead, `SMT` names no
/// side, or the matcher that looks ahead cannot be prepared.
pub open spec fn lookahead_init_spec<
    'a,
    W: Semiring + 'a,
    M1: LookaheadMatcher<'a, W>,
    M2: LookaheadMatcher<'a, W>,
    SMT: MatchTypeTrait,
>(fst1: FstModel<W>, type1: MatchType, fst2: FstModel<W>, type2: MatchType) -> Option<FstError> {
    let lookahead_type = lookahead_type_spec::<W, M1, M2, SMT>();
    if type1 != MatchType::MatchOutput || type2 != MatchType::MatchInput || lookahead_type
        == MatchType::MatchNone {
        Some(FstError::IncompatibleMatchType)
    } else {
        match selector_spec(SMT::match_type_spec(), lookahead_type) {
            None => Some(FstError::IncompatibleMatchType),
            Some(Selector::MatchInput) => M2::init_lookahead_fst_spec(fst2, type2, fst1),
            Some(Selector::MatchOutput) => M1::init_lookahead_fst_spec(fst1, type1, fst2),
        }
    }
}

/// The model of the matcher that a filter has for the transducer `fst`: the
/// one that is handed in, or one on the side `match_type`.
pub open spec fn matcher_model<W>(
    fst: FstModel<W>,
    m: Option<MatcherModel<W>>,
    match_type: MatchType,
) -> MatcherModel<W> {
    match m {
        Some(m) => m,
        None => MatcherModel { fst, match_type },
    }
}

impl<'a, W: Semiring + 'a, CF: ComposeFilter<'a, W>, SMT: MatchTypeTrait> ComposeFilter<
    'a,
    W,
> for LookAheadComposeFilter<'a, W, CF, SMT> where
    CF::M1: LookaheadMatcher<'a, W>,
    CF::M2: LookaheadMatcher<'a, W>,
 {
    type M1 = CF::M1;

    type M2 = CF::M2;

    type FS = CF::FS;

    closed spec fn inv(&self) -> bool {
        self.valid()
    }

    closed spec fn matcher1_spec(&self) -> CF::M1 {
        self.filter.matcher1_spec()
    }

    closed spec fn matcher2_spec(&self) -> CF::M2 {
        self.filter.matcher2_spec()
    }

    closed spec fn ready(&self) -> bool {
        self.filter.ready()
    }

    closed spec fn at(&self) -> StateTuple<CF::FS> {
        self.filter.at()
    }

    /// The filter cannot be made if the matchers cannot, if they match on
    /// the wrong sides or none of them can look ahead, if the one that looks
    /// ahead cannot be prepared, or if the inner filter cannot be made of
    /// them.
    open spec fn new_spec(
        fst1: FstModel<W>,
        fst2: FstModel<W>,
        m1: Option<MatcherModel<W>>,
        m2: Option<MatcherModel<W>>,
    ) -> Option<FstError> {
        let model1 = matcher_model(fst1, m1, MatchType::MatchOutput);
        let model2 = matcher_model(fst2, m2, MatchType::MatchInput);
        if matchers_spec::<W, CF::M1, CF::M2>(fst1, fst2, m1, m2) is Some {
            matchers_spec::<W, CF::M1, CF::M2>(fst1, fst2, m1, m2)
        } else if lookahead_init_spec::<W, CF::M1, CF::M2, SMT>(
            model1.fst,
            model1.match_type,
            model2.fst,
            model2.match_type,
        ) is Some {
            lookahead_init_spec::<W, CF::M1, CF::M2, SMT>(
                model1.fst,
                model1.match_type,
                model2.fst,
                model2.match_type,
            )
        } else {
            CF::new_spec(fst1, fst2, Some(model1), Some(model2))
        }
    }

    open spec fn start_spec() -> CF::FS {
        CF::start_spec()
    }

    /// A pair that the inner filter forbids is forbidden; one that it keeps
    /// is handed to the look-ahead.
    open spec fn filter_tr_spec(
        fst1: FstModel<W>,
        fst2: FstModel<W>,
        at: StateTuple<CF::FS>,
        tr1: Tr<W>,
        tr2: Tr<W>,
    ) -> (CF::FS, Tr<W>, Tr<W>) {
        let (fs, t1, t2) = CF::filter_tr_spec(fst1, fst2, at, tr1, tr2);
        if fs == CF::FS::no_state_spec() {
            (fs, t1, t2)
        } else {
            (
                lookahead_filter_tr_spec::<W, CF::FS, CF::M1, CF::M2, SMT>(fst1, fst2, t1, t2, fs),
                t1,
                t2,
            )
        }
    }

    open spec fn filter_final_spec(at: StateTuple<CF::FS>, w1: W, w2: W) -> (W, W) {
        CF::filter_final_spec(at, w1, w2)
    }

    open spec fn valid_fs(fs: CF::FS) -> bool {
        CF::valid_fs(fs)
    }

    open spec fn fs_index(fs: CF::FS) -> nat {
        CF::fs_index(fs)
    }

    open spec fn fs_count() -> nat {
        CF::fs_count()
    }

    proof fn lemma_inv(&self) {
        self.filter.lemma_inv();
    }

    proof fn lemma_filter_states(a: CF::FS, b: CF::FS) {
        CF::lemma_filter_states(a, b);
    }

    proof fn lemma_filter_tr(
        fst1: FstModel<W>,
        fst2: FstModel<W>,
        at: StateTuple<CF::FS>,
        tr1: Tr<W>,
        tr2: Tr<W>,
    ) {
        CF::lemma_filter_tr(fst1, fst2, at, tr1, tr2);
    }

    fn new(
        fst1: &'a VectorFst<W>,
        fst2: &'a VectorFst<W>,
        m1: Option<CF::M1>,
        m2: Option<CF::M2>,
    ) -> (r: Result<Self, FstError>)
        ensures
            r matches Ok(filter) ==> !filter.asked_spec(),
    {
        let (matcher1, matcher2) = make_matchers(fst1, fst2, m1, m2)?;
        let mut matcher1 = matcher1;
        let mut matcher2 = matcher2;
        proof {
            matcher1.lemma_inv();
            matcher2.lemma_inv();
        }
        if matcher1.match_type() != MatchType::MatchOutput || matcher2.match_type()
            != MatchType::MatchInput {
            return Err(FstError::IncompatibleMatchType);
        }
        let lookahead_type = if SMT::match_type() == MatchType::MatchBoth {
            lookahead_match_type(&matcher1, &matcher2)
        } else {
            SMT::match_type()
        };

        let flags = if lookahead_type == MatchType::MatchOutput {
            matcher1.flags()
        } else {
            matcher2.flags()
        };

        if lookahead_type == MatchType::MatchNone {
            return Err(FstError::IncompatibleMatchType);
        }

        let chosen = match selector(SMT::match_type(), lookahead_type) {
            Some(chosen) => chosen,
            None => {
                return Err(FstError::IncompatibleMatchType);
            },
        };

        let prepared = match chosen {
            Selector::MatchInput => matcher2.init_lookahead_fst(matcher1.fst()),
            Selector::MatchOutput => matcher1.init_lookahead_fst(matcher2.fst()),
        };
        if let Err(e) = prepared {
            return Err(e);
        }
        let filter = match CF::new(fst1, fst2, Some(matcher1), Some(matcher2)) {
            Ok(filter) => filter,
            Err(e) => {
                return Err(e);
            },
        };
        proof {
            filter.lemma_inv();
        }
        Ok(
            Self {
                lookahead_type,
                flags,
                smt: PhantomData,
                lookahead_arc: false,
                w: PhantomData,
                selector: chosen,
                filter,
            },
        )
    }

    fn start(&self) -> (fs: CF::FS) {
        self.filter.start()
    }

    fn set_state(&mut self, s1: StateId, s2: StateId, filter_state: &CF::FS) -> (r: Result<
        (),
        FstError,
    >) {
        self.filter.set_state(s1, s2, filter_state)
    }

    /// The matcher that looks ahead was asked about the pair only if the
    /// inner filter keeps it and the flags ask for a look-ahead on its
    /// label, and it was asked then wherever the pair is decided.
    fn filter_tr(&mut self, tr1: &mut Tr<W>, tr2: &mut Tr<W>) -> (r: Result<CF::FS, FstError>)
        ensures
            ({
                let inner = CF::filter_tr_spec(
                    old(self).matcher1_spec().fst_spec(),
                    old(self).matcher2_spec().fst_spec(),
                    old(self).at(),
                    *old(tr1),
                    *old(tr2),
                );
                let asks = inner.0 != CF::FS::no_state_spec() && asks_lookahead::<
                    W,
                    CF::M1,
                    CF::M2,
                    SMT,
                >(inner.1, inner.2);
                &&& final(self).asked_spec() ==> asks
                &&& r is Ok ==> final(self).asked_spec() == asks
            }),
    {
        self.lookahead_arc = false;
        proof {
            CF::lemma_filter_tr(
                self.filter.matcher1_spec().fst_spec(),
                self.filter.matcher2_spec().fst_spec(),
                self.filter.at(),
                *tr1,
                *tr2,
            );
        }
        let fs = self.filter.filter_tr(tr1, tr2)?;
        if fs.is_no_state() {
            return Ok(CF::FS::new_no_state());
        }
        let arc1 = *tr1;
        let arc2 = *tr2;
        if self.lookahead_output_value() {
            self.lookahead_filter_arc(&arc1, &arc2, &fs)
        } else {
            self.lookahead_filter_arc(&arc2, &arc1, &fs)
        }
    }

    fn filter_final(&self, w1: &mut W, w2: &mut W) {
        self.filter.filter_final(w1, w2)
    }

    fn matcher1(&self) -> (m: &CF::M1) {
        self.filter.matcher1()
    }

    fn matcher2(&self) -> (m: &CF::M2) {
        self.filter.matcher2()
    }
}

impl<'a, W: Semiring + 'a, CF: ComposeFilter<'a, W>, SMT: MatchTypeTrait> LookAheadComposeFilterTrait<
    'a,
    W,
> for LookAheadComposeFilter<'a, W, CF, SMT> where
    CF::M1: LookaheadMatcher<'a, W>,
    CF::M2: LookaheadMatcher<'a, W>,
 {
    open spec fn flags_spec() -> MatcherFlags {
        lookahead_flags_spec::<W, CF::M1, CF::M2, SMT>()
    }

    open spec fn type_spec() -> MatchType {
        lookahead_type_spec::<W, CF::M1, CF::M2, SMT>()
    }

    open spec fn output_spec() -> bool {
        lookahead_output_spec::<W, CF::M1, CF::M2, SMT>()
    }

    open spec fn chosen_spec() -> Option<Selector> {
        selector_spec(SMT::match_type_spec(), lookahead_type_spec::<W, CF::M1, CF::M2, SMT>())
    }

    closed spec fn asked_spec(&self) -> bool {
        self.lookahead_arc
    }

    fn lookahead_flags(&self) -> (flags: MatcherFlags) {
        self.flags
    }

    fn lookahead_arc(&self) -> (asked: bool) {
        self.lookahead_arc
    }

    fn lookahead_type(&self) -> (t: MatchType) {
        self.lookahead_type
    }

    fn lookahead_output(&self) -> (b: bool) {
        self.lookahead_output_value()
    }

    fn selector(&self) -> (chosen: Selector) {
        self.selector
    }
}

} // verus!
