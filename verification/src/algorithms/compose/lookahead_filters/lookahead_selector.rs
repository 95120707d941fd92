//! Which of the two matchers of a composition looks ahead.

use vstd::prelude::*;

use crate::algorithms::compose::matchers::MatchType;

verus! {

/// A match type that is fixed by a type.
pub trait MatchTypeTrait {
    spec fn match_type_spec() -> MatchType;

    fn match_type() -> (t: MatchType)
        ensures
            t == Self::match_type_spec(),
    ;
}

#[derive(Clone, Copy, Debug, PartialEq, Eq)]
pub struct SMatchInput {}

#[derive(Clone, Copy, Debug, PartialEq, Eq)]
pub struct SMatchOutput {}

#[derive(Clone, Copy, Debug, PartialEq, Eq)]
pub struct SMatchBoth {}

#[derive(Clone, Copy, Debug, PartialEq, Eq)]
pub struct SMatchNone {}

#[derive(Clone, Copy, Debug, PartialEq, Eq)]
pub struct SMatchUnknown {}

impl MatchTypeTrait for SMatchInput {
    open spec fn match_type_spec() -> MatchType {
        MatchType::MatchInput
    }

    fn match_type() -> (t: MatchType) {
        MatchType::MatchInput
    }
}

impl MatchTypeTrait for SMatchOutput {
    open spec fn match_type_spec() -> MatchType {
        MatchType::MatchOutput
    }

    fn match_type() -> (t: MatchType) {
        MatchType::MatchOutput
    }
}

impl MatchTypeTrait for SMatchBoth {
    open spec fn match_type_spec() -> MatchType {
        MatchType::MatchBoth
    }

    fn match_type() -> (t: MatchType) {
        MatchType::MatchBoth
    }
}

impl MatchTypeTrait for SMatchNone {
    open spec fn match_type_spec() -> MatchType {
        MatchType::MatchNone
    }

    fn match_type() -> (t: MatchType) {
        MatchType::MatchNone
    }
}

impl MatchTypeTrait for SMatchUnknown {
    open spec fn match_type_spec() -> MatchType {
        MatchType::MatchUnknown
    }

    fn match_type() -> (t: MatchType) {
        MatchType::MatchUnknown
    }
}

/// The matcher that looks ahead, and the transducer in which it does.
#[derive(Clone, Copy, Debug, PartialEq, Eq, Structural, Hash)]
pub enum Selector {
    /// The matcher of the second transducer looks ahead in the first.
    MatchInput,
    /// The matcher of the first transducer looks ahead in the second.
    MatchOutput,
}

/// The selector for a filter that matches on the side `match_type` and looks
/// ahead on the side `lookahead_type`, if `match_type` names a side or
/// both.
pub open spec fn selector_spec(match_type: MatchType, lookahead_type: MatchType) -> Option<
    Selector,
> {
    match match_type {
        MatchType::MatchInput => Some(Selector::MatchInput),
        MatchType::MatchOutput => Some(Selector::MatchOutput),
        MatchType::MatchBoth => if lookahead_type == MatchType::MatchOutput {
            Some(Selector::MatchOutput)
        } else {
            Some(Selector::MatchInput)
        },
        _ => None,
    }
}

pub fn selector(match_type: MatchType, lookahead_type: MatchType) -> (r: Option<Selector>)
    ensures
        r == selector_spec(match_type, lookahead_type),
{
    match match_type {
        MatchType::MatchInput => Some(Selector::MatchInput),
        MatchType::MatchOutput => Some(Selector::MatchOutput),
        MatchType::MatchBoth => {
            if lookahead_type == MatchType::MatchOutput {
                Some(Selector::MatchOutput)
            } else {
                Some(Selector::MatchInput)
            }
        },
        _ => None,
    }
}

} // verus!
