//! The values that compose filters carry from a state of the composition to
//! the next.

use vstd::prelude::*;

use crate::{StateId, NO_STATE_ID};

verus! {

/// The state of a compose filter. One value, the "no state", says that a
/// pair of transitions is forbidden.
pub trait FilterState: Sized + Copy {
    type Type;

    spec fn new_spec(v: Self::Type) -> Self;

    spec fn no_state_spec() -> Self;

    spec fn state_spec(self) -> Self::Type;

    fn new(v: Self::Type) -> (fs: Self)
        ensures
            fs == Self::new_spec(v),
    ;

    fn new_no_state() -> (fs: Self)
        ensures
            fs == Self::no_state_spec(),
    ;

    fn state(&self) -> (v: Self::Type)
        ensures
            v == self.state_spec(),
    ;

    /// Whether the state is the "no state".
    fn is_no_state(&self) -> (b: bool)
        ensures
            b == (*self == Self::no_state_spec()),
    ;

    /// Whether two states are the same value.
    fn same(&self, other: &Self) -> (b: bool)
        ensures
            b == (*self == *other),
    ;
}

/// The filter state of filters that remember nothing: a state, or none.
#[derive(Clone, Copy, Debug, PartialEq, Eq, Structural, Hash)]
pub struct TrivialFilterState {
    pub state: bool,
}

impl FilterState for TrivialFilterState {
    type Type = bool;

    open spec fn new_spec(v: bool) -> Self {
        TrivialFilterState { state: v }
    }

    open spec fn no_state_spec() -> Self {
        TrivialFilterState { state: false }
    }

    open spec fn state_spec(self) -> bool {
        self.state
    }

    fn new(v: bool) -> (fs: Self) {
        TrivialFilterState { state: v }
    }

    fn new_no_state() -> (fs: Self) {
        TrivialFilterState { state: false }
    }

    fn state(&self) -> (v: bool) {
        self.state
    }

    fn is_no_state(&self) -> (b: bool) {
        !self.state
    }

    fn same(&self, other: &Self) -> (b: bool) {
        self.state == other.state
    }
}

impl Default for TrivialFilterState {
    fn default() -> (fs: Self)
        ensures
            fs == <Self as FilterState>::no_state_spec(),
    {
        TrivialFilterState { state: false }
    }
}

/// The filter state of the filters that put the moves on the empty string in
/// sequence: a small number, or none.
#[derive(Clone, Copy, Debug, PartialEq, Eq, Structural, Hash)]
pub struct IntegerFilterState {
    pub state: StateId,
}

impl FilterState for IntegerFilterState {
    type Type = StateId;

    open spec fn new_spec(v: StateId) -> Self {
        IntegerFilterState { state: v }
    }

    open spec fn no_state_spec() -> Self {
        IntegerFilterState { state: NO_STATE_ID }
    }

    open spec fn state_spec(self) -> StateId {
        self.state
    }

    fn new(v: StateId) -> (fs: Self) {
        IntegerFilterState { state: v }
    }

    fn new_no_state() -> (fs: Self) {
        IntegerFilterState { state: NO_STATE_ID }
    }

    fn state(&self) -> (v: StateId) {
        self.state
    }

    fn is_no_state(&self) -> (b: bool) {
        self.state == NO_STATE_ID
    }

    fn same(&self, other: &Self) -> (b: bool) {
        self.state == other.state
    }
}

impl Default for IntegerFilterState {
    fn default() -> (fs: Self)
        ensures
            fs == <Self as FilterState>::no_state_spec(),
    {
        IntegerFilterState { state: NO_STATE_ID }
    }
}

/// Two filter states side by side. The pair of two "no state" is its "no
/// state".
#[derive(Clone, Copy, Debug, PartialEq, Eq, Hash)]
pub struct PairFilterState<FS1, FS2> {
    pub state1: FS1,
    pub state2: FS2,
}

impl<FS1: FilterState, FS2: FilterState> FilterState for PairFilterState<FS1, FS2> {
    type Type = (FS1, FS2);

    open spec fn new_spec(v: (FS1, FS2)) -> Self {
        PairFilterState { state1: v.0, state2: v.1 }
    }

    open spec fn no_state_spec() -> Self {
        PairFilterState { state1: FS1::no_state_spec(), state2: FS2::no_state_spec() }
    }

    open spec fn state_spec(self) -> (FS1, FS2) {
        (self.state1, self.state2)
    }

    fn new(v: (FS1, FS2)) -> (fs: Self) {
        PairFilterState { state1: v.0, state2: v.1 }
    }

    fn new_no_state() -> (fs: Self) {
        PairFilterState { state1: FS1::new_no_state(), state2: FS2::new_no_state() }
    }

    fn state(&self) -> (v: (FS1, FS2)) {
        (self.state1, self.state2)
    }

    fn is_no_state(&self) -> (b: bool) {
        self.state1.is_no_state() && self.state2.is_no_state()
    }

    fn same(&self, other: &Self) -> (b: bool) {
        self.state1.same(&other.state1) && self.state2.same(&other.state2)
    }
}

} // verus!
