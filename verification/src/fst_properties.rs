//! What is known of the shape of a transducer, as a set of bits.
//!
//! Each proposition has two bits, one that says it holds and one that says it
//! does not. Where neither is set nothing is known.

use vstd::prelude::*;

use crate::fst_impls::{FstModel, StateModel, VectorFst};
use crate::semirings::Semiring;
use crate::tr::Tr;
use crate::{StateId, EPS_LABEL};

verus! {

/// The transducer is held in memory with all its states.
pub const EXPANDED: u64 = 0x1;

/// The transducer can be changed.
pub const MUTABLE: u64 = 0x2;

/// An operation on the transducer has failed.
pub const ERROR: u64 = 0x4;

/// Every transition has the same label on both sides.
pub const ACCEPTOR: u64 = 0x1_0000;

pub const NOT_ACCEPTOR: u64 = 0x2_0000;

/// No state has two transitions with the same input label.
pub const I_DETERMINISTIC: u64 = 0x4_0000;

/// No state has two transitions with the same output label.
pub const O_DETERMINISTIC: u64 = 0x10_0000;

/// Some transition has the empty string on both sides.
pub const EPSILONS: u64 = 0x40_0000;

pub const NO_EPSILONS: u64 = 0x80_0000;

/// Some transition has the empty string as input.
pub const I_EPSILONS: u64 = 0x100_0000;

pub const NO_I_EPSILONS: u64 = 0x200_0000;

/// Some transition has the empty string as output.
pub const O_EPSILONS: u64 = 0x400_0000;

pub const NO_O_EPSILONS: u64 = 0x800_0000;

/// The transitions of each state are in the order of their input labels.
pub const I_LABEL_SORTED: u64 = 0x1000_0000;

pub const NOT_I_LABEL_SORTED: u64 = 0x2000_0000;

/// The transitions of each state are in the order of their output labels.
pub const O_LABEL_SORTED: u64 = 0x4000_0000;

pub const NOT_O_LABEL_SORTED: u64 = 0x8000_0000;

/// Some weight is neither the one nor, for a final weight, the zero.
pub const WEIGHTED: u64 = 0x1_0000_0000;

pub const UNWEIGHTED: u64 = 0x2_0000_0000;

/// No path leads from a state back to it.
pub const ACYCLIC: u64 = 0x8_0000_0000;

/// No path leads from the start state back to it.
pub const INITIAL_ACYCLIC: u64 = 0x20_0000_0000;

/// Every state can be reached from the start state.
pub const ACCESSIBLE: u64 = 0x100_0000_0000;

/// Every transition leads to a state with a greater id.
pub const TOP_SORTED: u64 = 0x40_0000_0000;

pub const NOT_TOP_SORTED: u64 = 0x80_0000_0000;

/// A set of properties.
#[derive(Clone, Copy, Debug, PartialEq, Eq, Structural, Hash)]
pub struct FstProperties {
    pub bits: u64,
}

impl FstProperties {
    pub fn from_bits(bits: u64) -> (p: Self)
        ensures
            p.bits == bits,
    {
        FstProperties { bits }
    }

    pub fn bits(&self) -> (bits: u64)
        ensures
            bits == self.bits,
    {
        self.bits
    }

    /// Whether every bit of `other` is set.
    pub fn contains(&self, other: FstProperties) -> (b: bool)
        ensures
            b == (self.bits & other.bits == other.bits),
    {
        self.bits & other.bits == other.bits
    }

    /// The bits that are set in both.
    pub fn intersection(&self, other: FstProperties) -> (p: Self)
        ensures
            p.bits == self.bits & other.bits,
    {
        FstProperties { bits: self.bits & other.bits }
    }

    /// The bits that are set in either.
    pub fn union(&self, other: FstProperties) -> (p: Self)
        ensures
            p.bits == self.bits | other.bits,
    {
        FstProperties { bits: self.bits | other.bits }
    }
}

/// What is known of a composition from what is known of its two operands.
///
/// A composition is made of the states that can be reached. The composition
/// of two acceptors is an acceptor, and has no moves on the empty string, no
/// cycle, and no two transitions with the same label at a state, where both
/// operands have none. Of other operands the composition keeps that they
/// have no transition that consumes the empty string and no cycle, and, if
/// they have no such transition, that no state has two transitions that
/// consume the same label.
pub open spec fn compose_properties_spec(inprops1: u64, inprops2: u64) -> u64 {
    let both = inprops1 & inprops2;
    let errors = ERROR & (inprops1 | inprops2);
    if ACCEPTOR & both != 0 {
        errors | ACCEPTOR | ACCESSIBLE | ((NO_EPSILONS | NO_I_EPSILONS | NO_O_EPSILONS | ACYCLIC
            | INITIAL_ACYCLIC) & both) | (if NO_I_EPSILONS & both != 0 {
            (I_DETERMINISTIC | O_DETERMINISTIC) & both
        } else {
            0
        })
    } else {
        errors | ACCESSIBLE | ((ACCEPTOR | NO_I_EPSILONS | ACYCLIC | INITIAL_ACYCLIC) & both) | (
        if NO_I_EPSILONS & both != 0 {
            I_DETERMINISTIC & both
        } else {
            0
        })
    }
}

/// What is known of a composition from what is known of its two operands.
pub fn compose_properties(inprops1: FstProperties, inprops2: FstProperties) -> (p: FstProperties)
    ensures
        p.bits == compose_properties_spec(inprops1.bits, inprops2.bits),
{
    let both = inprops1.bits & inprops2.bits;
    let errors = ERROR & (inprops1.bits | inprops2.bits);
    let bits = if ACCEPTOR & both != 0 {
        errors | ACCEPTOR | ACCESSIBLE | ((NO_EPSILONS | NO_I_EPSILONS | NO_O_EPSILONS | ACYCLIC
            | INITIAL_ACYCLIC) & both) | (if NO_I_EPSILONS & both != 0 {
            (I_DETERMINISTIC | O_DETERMINISTIC) & both
        } else {
            0
        })
    } else {
        errors | ACCESSIBLE | ((ACCEPTOR | NO_I_EPSILONS | ACYCLIC | INITIAL_ACYCLIC) & both) | (
        if NO_I_EPSILONS & both != 0 {
            I_DETERMINISTIC & both
        } else {
            0
        })
    };
    FstProperties { bits }
}

/// What one scan of the transitions of a state finds.
#[derive(Clone, Copy, Debug, PartialEq, Eq, Structural, Hash)]
pub struct Shape {
    pub acceptor: bool,
    pub no_epsilons: bool,
    pub no_i_epsilons: bool,
    pub no_o_epsilons: bool,
    pub i_label_sorted: bool,
    pub o_label_sorted: bool,
    pub unweighted: bool,
    pub top_sorted: bool,
}

/// The shape of the transitions `trs` of the state `s`: each field says that
/// all of them, or each of them with the one before it, are as the property
/// asks.
pub open spec fn trs_shape<W: Semiring>(s: StateId, trs: Seq<Tr<W>>) -> Shape {
    Shape {
        acceptor: forall|i: int| 0 <= i < trs.len() ==> (#[trigger] trs[i]).ilabel == trs[i].olabel,
        no_epsilons: forall|i: int|
            0 <= i < trs.len() ==> !((#[trigger] trs[i]).ilabel == EPS_LABEL && trs[i].olabel
                == EPS_LABEL),
        no_i_epsilons: forall|i: int| 0 <= i < trs.len()
            ==> (#[trigger] trs[i]).ilabel != EPS_LABEL,
        no_o_epsilons: forall|i: int| 0 <= i < trs.len()
            ==> (#[trigger] trs[i]).olabel != EPS_LABEL,
        i_label_sorted: forall|i: int, j: int|
            0 <= i && j == i + 1 && j < trs.len() ==> (#[trigger] trs[i]).ilabel <= (
            #[trigger] trs[j]).ilabel,
        o_label_sorted: forall|i: int, j: int|
            0 <= i && j == i + 1 && j < trs.len() ==> (#[trigger] trs[i]).olabel <= (
            #[trigger] trs[j]).olabel,
        unweighted: forall|i: int| 0 <= i < trs.len()
            ==> (#[trigger] trs[i]).weight == W::one_spec(),
        top_sorted: forall|i: int| 0 <= i < trs.len() ==> (#[trigger] trs[i]).nextstate > s,
    }
}

/// The shape of a state: that of its transitions, where a final weight other
/// than the one counts as a weight.
pub open spec fn state_shape<W: Semiring>(s: StateId, state: StateModel<W>) -> Shape {
    let shape = trs_shape(s, state.trs);
    Shape {
        unweighted: shape.unweighted && (state.final_weight matches Some(w) ==> w
            == W::one_spec() || w == W::zero_spec()),
        ..shape
    }
}

/// Both shapes at once.
pub open spec fn both(a: Shape, b: Shape) -> Shape {
    Shape {
        acceptor: a.acceptor && b.acceptor,
        no_epsilons: a.no_epsilons && b.no_epsilons,
        no_i_epsilons: a.no_i_epsilons && b.no_i_epsilons,
        no_o_epsilons: a.no_o_epsilons && b.no_o_epsilons,
        i_label_sorted: a.i_label_sorted && b.i_label_sorted,
        o_label_sorted: a.o_label_sorted && b.o_label_sorted,
        unweighted: a.unweighted && b.unweighted,
        top_sorted: a.top_sorted && b.top_sorted,
    }
}

/// The shape that everything has.
pub open spec fn any_shape() -> Shape {
    Shape {
        acceptor: true,
        no_epsilons: true,
        no_i_epsilons: true,
        no_o_epsilons: true,
        i_label_sorted: true,
        o_label_sorted: true,
        unweighted: true,
        top_sorted: true,
    }
}

/// The shape that the first `n` states of `m` share.
pub open spec fn fst_shape_upto<W: Semiring>(m: FstModel<W>, n: nat) -> Shape
    decreases n,
{
    if n == 0 {
        any_shape()
    } else {
        both(
            fst_shape_upto(m, (n - 1) as nat),
            state_shape((n - 1) as StateId, m.states[n - 1]),
        )
    }
}

/// The shape of a transducer: what all its states share.
pub open spec fn fst_shape<W: Semiring>(m: FstModel<W>) -> Shape {
    fst_shape_upto(m, m.states.len())
}

/// The bits that say what a shape says. A transducer whose transitions all
/// lead upwards has no cycle; of one with a transition that does not, it is
/// not known whether it has.
pub open spec fn shape_bits(shape: Shape) -> u64 {
    (if shape.acceptor {
        ACCEPTOR
    } else {
        NOT_ACCEPTOR
    }) | (if shape.no_epsilons {
        NO_EPSILONS
    } else {
        EPSILONS
    }) | (if shape.no_i_epsilons {
        NO_I_EPSILONS
    } else {
        I_EPSILONS
    }) | (if shape.no_o_epsilons {
        NO_O_EPSILONS
    } else {
        O_EPSILONS
    }) | (if shape.i_label_sorted {
        I_LABEL_SORTED
    } else {
        NOT_I_LABEL_SORTED
    }) | (if shape.o_label_sorted {
        O_LABEL_SORTED
    } else {
        NOT_O_LABEL_SORTED
    }) | (if shape.unweighted {
        UNWEIGHTED
    } else {
        WEIGHTED
    }) | (if shape.top_sorted {
        TOP_SORTED | ACYCLIC
    } else {
        NOT_TOP_SORTED
    })
}

/// The properties of a transducer that a scan of its transitions settles.
pub open spec fn properties_spec<W: Semiring>(m: FstModel<W>) -> u64 {
    EXPANDED | MUTABLE | shape_bits(fst_shape(m))
}

impl Shape {
    pub fn bits(&self) -> (bits: u64)
        ensures
            bits == shape_bits(*self),
    {
        (if self.acceptor {
            ACCEPTOR
        } else {
            NOT_ACCEPTOR
        }) | (if self.no_epsilons {
            NO_EPSILONS
        } else {
            EPSILONS
        }) | (if self.no_i_epsilons {
            NO_I_EPSILONS
        } else {
            I_EPSILONS
        }) | (if self.no_o_epsilons {
            NO_O_EPSILONS
        } else {
            O_EPSILONS
        }) | (if self.i_label_sorted {
            I_LABEL_SORTED
        } else {
            NOT_I_LABEL_SORTED
        }) | (if self.o_label_sorted {
            O_LABEL_SORTED
        } else {
            NOT_O_LABEL_SORTED
        }) | (if self.unweighted {
            UNWEIGHTED
        } else {
            WEIGHTED
        }) | (if self.top_sorted {
            TOP_SORTED | ACYCLIC
        } else {
            NOT_TOP_SORTED
        })
    }
}

/// What the transition at `k` adds to the shape of the transitions of the
/// state `s`.
pub open spec fn step_shape<W: Semiring>(s: StateId, trs: Seq<Tr<W>>, k: int) -> Shape {
    let tr = trs[k];
    Shape {
        acceptor: tr.ilabel == tr.olabel,
        no_epsilons: !(tr.ilabel == EPS_LABEL && tr.olabel == EPS_LABEL),
        no_i_epsilons: tr.ilabel != EPS_LABEL,
        no_o_epsilons: tr.olabel != EPS_LABEL,
        i_label_sorted: k == 0 || trs[k - 1].ilabel <= tr.ilabel,
        o_label_sorted: k == 0 || trs[k - 1].olabel <= tr.olabel,
        unweighted: tr.weight == W::one_spec(),
        top_sorted: tr.nextstate > s,
    }
}

proof fn lemma_step_acceptor<W: Semiring>(s: StateId, trs: Seq<Tr<W>>, k: int)
    requires
        0 <= k < trs.len(),
    ensures
        trs_shape(s, trs.take(k + 1)).acceptor == (trs_shape(s, trs.take(k)).acceptor
            && step_shape(s, trs, k).acceptor),
{
    let before = trs.take(k);
    let after = trs.take(k + 1);
    assert(after[k] == trs[k]);
    if trs_shape(s, before).acceptor && step_shape(s, trs, k).acceptor {
        assert forall|j: int| 0 <= j < after.len() implies (#[trigger] after[j]).ilabel
            == after[j].olabel by {
            if j < k {
                assert(before[j] == after[j]);
            }
        }
    }
    if trs_shape(s, after).acceptor {
        assert forall|j: int| 0 <= j < before.len() implies (#[trigger] before[j]).ilabel
            == before[j].olabel by {
            assert(before[j] == after[j]);
        }
    }
}

proof fn lemma_step_no_epsilons<W: Semiring>(s: StateId, trs: Seq<Tr<W>>, k: int)
    requires
        0 <= k < trs.len(),
    ensures
        trs_shape(s, trs.take(k + 1)).no_epsilons == (trs_shape(s, trs.take(k)).no_epsilons
            && step_shape(s, trs, k).no_epsilons),
{
    let before = trs.take(k);
    let after = trs.take(k + 1);
    assert(after[k] == trs[k]);
    if trs_shape(s, before).no_epsilons && step_shape(s, trs, k).no_epsilons {
        assert forall|j: int| 0 <= j < after.len() implies !((#[trigger] after[j]).ilabel
            == EPS_LABEL && after[j].olabel == EPS_LABEL) by {
            if j < k {
                assert(before[j] == after[j]);
            }
        }
    }
    if trs_shape(s, after).no_epsilons {
        assert forall|j: int| 0 <= j < before.len() implies !((#[trigger] before[j]).ilabel
            == EPS_LABEL && before[j].olabel == EPS_LABEL) by {
            assert(before[j] == after[j]);
        }
    }
}

proof fn lemma_step_no_i_epsilons<W: Semiring>(s: StateId, trs: Seq<Tr<W>>, k: int)
    requires
        0 <= k < trs.len(),
    ensures
        trs_shape(s, trs.take(k + 1)).no_i_epsilons == (trs_shape(s, trs.take(k)).no_i_epsilons
            && step_shape(s, trs, k).no_i_epsilons),
{
    let before = trs.take(k);
    let after = trs.take(k + 1);
    assert(after[k] == trs[k]);
    if trs_shape(s, before).no_i_epsilons && step_shape(s, trs, k).no_i_epsilons {
        assert forall|j: int| 0 <= j < after.len() implies (#[trigger] after[j]).ilabel
            != EPS_LABEL by {
            if j < k {
                assert(before[j] == after[j]);
            }
        }
    }
    if trs_shape(s, after).no_i_epsilons {
        assert forall|j: int| 0 <= j < before.len() implies (#[trigger] before[j]).ilabel
            != EPS_LABEL by {
            assert(before[j] == after[j]);
        }
    }
}

proof fn lemma_step_no_o_epsilons<W: Semiring>(s: StateId, trs: Seq<Tr<W>>, k: int)
    requires
        0 <= k < trs.len(),
    ensures
        trs_shape(s, trs.take(k + 1)).no_o_epsilons == (trs_shape(s, trs.take(k)).no_o_epsilons
            && step_shape(s, trs, k).no_o_epsilons),
{
    let before = trs.take(k);
    let after = trs.take(k + 1);
    assert(after[k] == trs[k]);
    if trs_shape(s, before).no_o_epsilons && step_shape(s, trs, k).no_o_epsilons {
        assert forall|j: int| 0 <= j < after.len() implies (#[trigger] after[j]).olabel
            != EPS_LABEL by {
            if j < k {
                assert(before[j] == after[j]);
            }
        }
    }
    if trs_shape(s, after).no_o_epsilons {
        assert forall|j: int| 0 <= j < before.len() implies (#[trigger] before[j]).olabel
            != EPS_LABEL by {
            assert(before[j] == after[j]);
        }
    }
}

proof fn lemma_step_unweighted<W: Semiring>(s: StateId, trs: Seq<Tr<W>>, k: int)
    requires
        0 <= k < trs.len(),
    ensures
        trs_shape(s, trs.take(k + 1)).unweighted == (trs_shape(s, trs.take(k)).unweighted
            && step_shape(s, trs, k).unweighted),
{
    let before = trs.take(k);
    let after = trs.take(k + 1);
    assert(after[k] == trs[k]);
    if trs_shape(s, before).unweighted && step_shape(s, trs, k).unweighted {
        assert forall|j: int| 0 <= j < after.len() implies (#[trigger] after[j]).weight
            == W::one_spec() by {
            if j < k {
                assert(before[j] == after[j]);
            }
        }
    }
    if trs_shape(s, after).unweighted {
        assert forall|j: int| 0 <= j < before.len() implies (#[trigger] before[j]).weight
            == W::one_spec() by {
            assert(before[j] == after[j]);
        }
    }
}

proof fn lemma_step_top_sorted<W: Semiring>(s: StateId, trs: Seq<Tr<W>>, k: int)
    requires
        0 <= k < trs.len(),
    ensures
        trs_shape(s, trs.take(k + 1)).top_sorted == (trs_shape(s, trs.take(k)).top_sorted
            && step_shape(s, trs, k).top_sorted),
{
    let before = trs.take(k);
    let after = trs.take(k + 1);
    assert(after[k] == trs[k]);
    if trs_shape(s, before).top_sorted && step_shape(s, trs, k).top_sorted {
        assert forall|j: int| 0 <= j < after.len() implies (#[trigger] after[j]).nextstate > s by {
            if j < k {
                assert(before[j] == after[j]);
            }
        }
    }
    if trs_shape(s, after).top_sorted {
        assert forall|j: int| 0 <= j < before.len() implies (#[trigger] before[j]).nextstate > s by {
            assert(before[j] == after[j]);
        }
    }
}

proof fn lemma_step_i_label_sorted<W: Semiring>(s: StateId, trs: Seq<Tr<W>>, k: int)
    requires
        0 <= k < trs.len(),
    ensures
        trs_shape(s, trs.take(k + 1)).i_label_sorted == (trs_shape(s, trs.take(k)).i_label_sorted
            && step_shape(s, trs, k).i_label_sorted),
{
    let before = trs.take(k);
    let after = trs.take(k + 1);
    assert(after[k] == trs[k]);
    if k > 0 {
        assert(after[k - 1] == trs[k - 1]);
    }
    if trs_shape(s, before).i_label_sorted && step_shape(s, trs, k).i_label_sorted {
        assert forall|i: int, j: int| 0 <= i && j == i + 1 && j < after.len() implies (
        #[trigger] after[i]).ilabel <= (#[trigger] after[j]).ilabel by {
            if j < k {
                assert(before[j] == after[j]);
                assert(before[i] == after[i]);
            }
        }
    }
    if trs_shape(s, after).i_label_sorted {
        assert forall|i: int, j: int| 0 <= i && j == i + 1 && j < before.len() implies (
        #[trigger] before[i]).ilabel <= (#[trigger] before[j]).ilabel by {
            assert(before[j] == after[j]);
            assert(before[i] == after[i]);
        }
        if k > 0 {
            assert(after[k - 1].ilabel <= after[k].ilabel);
        }
    }
}

proof fn lemma_step_o_label_sorted<W: Semiring>(s: StateId, trs: Seq<Tr<W>>, k: int)
    requires
        0 <= k < trs.len(),
    ensures
        trs_shape(s, trs.take(k + 1)).o_label_sorted == (trs_shape(s, trs.take(k)).o_label_sorted
            && step_shape(s, trs, k).o_label_sorted),
{
    let before = trs.take(k);
    let after = trs.take(k + 1);
    assert(after[k] == trs[k]);
    if k > 0 {
        assert(after[k - 1] == trs[k - 1]);
    }
    if trs_shape(s, before).o_label_sorted && step_shape(s, trs, k).o_label_sorted {
        assert forall|i: int, j: int| 0 <= i && j == i + 1 && j < after.len() implies (
        #[trigger] after[i]).olabel <= (#[trigger] after[j]).olabel by {
            if j < k {
                assert(before[j] == after[j]);
                assert(before[i] == after[i]);
            }
        }
    }
    if trs_shape(s, after).o_label_sorted {
        assert forall|i: int, j: int| 0 <= i && j == i + 1 && j < before.len() implies (
        #[trigger] before[i]).olabel <= (#[trigger] before[j]).olabel by {
            assert(before[j] == after[j]);
            assert(before[i] == after[i]);
        }
        if k > 0 {
            assert(after[k - 1].olabel <= after[k].olabel);
        }
    }
}

/// The shape of the first transitions and one more is the shape of the
/// first with what the next one adds.
proof fn lemma_trs_shape_step<W: Semiring>(s: StateId, trs: Seq<Tr<W>>, k: int)
    requires
        0 <= k < trs.len(),
    ensures
        trs_shape(s, trs.take(k + 1)) == both(trs_shape(s, trs.take(k)), step_shape(s, trs, k)),
{
    lemma_step_acceptor(s, trs, k);
    lemma_step_no_epsilons(s, trs, k);
    lemma_step_no_i_epsilons(s, trs, k);
    lemma_step_no_o_epsilons(s, trs, k);
    lemma_step_i_label_sorted(s, trs, k);
    lemma_step_o_label_sorted(s, trs, k);
    lemma_step_unweighted(s, trs, k);
    lemma_step_top_sorted(s, trs, k);
}

/// Scans the transitions `trs` of the state `s`.
pub fn scan_trs<W: Semiring>(s: StateId, trs: &[Tr<W>]) -> (shape: Shape)
    ensures
        shape == trs_shape(s, trs@),
{
    let mut shape = Shape {
        acceptor: true,
        no_epsilons: true,
        no_i_epsilons: true,
        no_o_epsilons: true,
        i_label_sorted: true,
        o_label_sorted: true,
        unweighted: true,
        top_sorted: true,
    };
    let one = W::one();
    let mut i: usize = 0;
    while i < trs.len()
        invariant
            i <= trs.len(),
            one == W::one_spec(),
            shape == trs_shape(s, trs@.take(i as int)),
        decreases trs.len() - i,
    {
        let tr = &trs[i];
        let here = Shape {
            acceptor: tr.ilabel == tr.olabel,
            no_epsilons: !(tr.ilabel == EPS_LABEL && tr.olabel == EPS_LABEL),
            no_i_epsilons: tr.ilabel != EPS_LABEL,
            no_o_epsilons: tr.olabel != EPS_LABEL,
            i_label_sorted: i == 0 || trs[i - 1].ilabel <= tr.ilabel,
            o_label_sorted: i == 0 || trs[i - 1].olabel <= tr.olabel,
            unweighted: tr.weight.same(&one),
            top_sorted: tr.nextstate > s,
        };
        proof {
            lemma_trs_shape_step(s, trs@, i as int);
        }
        shape = shape.and(&here);
        i = i + 1;
    }
    assert(trs@.take(i as int) =~= trs@);
    shape
}

impl Shape {
    /// Both shapes at once.
    pub fn and(&self, other: &Shape) -> (r: Shape)
        ensures
            r == both(*self, *other),
    {
        Shape {
            acceptor: self.acceptor && other.acceptor,
            no_epsilons: self.no_epsilons && other.no_epsilons,
            no_i_epsilons: self.no_i_epsilons && other.no_i_epsilons,
            no_o_epsilons: self.no_o_epsilons && other.no_o_epsilons,
            i_label_sorted: self.i_label_sorted && other.i_label_sorted,
            o_label_sorted: self.o_label_sorted && other.o_label_sorted,
            unweighted: self.unweighted && other.unweighted,
            top_sorted: self.top_sorted && other.top_sorted,
        }
    }
}

impl<W: Semiring> VectorFst<W> {
    /// The shape of the state `s`.
    pub fn shape_of_state(&self, s: StateId) -> (shape: Shape)
        requires
            self@.has_state(s),
        ensures
            shape == state_shape(s, self@.states[s as int]),
    {
        let here = scan_trs(s, self.trs(s).as_slice());
        let plain = match self.final_weight(s) {
            Ok(Some(w)) => w.same(&W::one()) || w.is_zero(),
            _ => true,
        };
        Shape { unweighted: here.unweighted && plain, ..here }
    }

    /// The shape of the transducer.
    pub fn shape(&self) -> (shape: Shape)
        ensures
            shape == fst_shape(self@),
    {
        let mut shape = Shape {
            acceptor: true,
            no_epsilons: true,
            no_i_epsilons: true,
            no_o_epsilons: true,
            i_label_sorted: true,
            o_label_sorted: true,
            unweighted: true,
            top_sorted: true,
        };
        let n = self.num_states();
        let mut s: usize = 0;
        while s < n
            invariant
                s <= n,
                n == self@.states.len(),
                shape == fst_shape_upto(self@, s as nat),
            decreases n - s,
        {
            let here = self.shape_of_state(s);
            shape = shape.and(&here);
            s = s + 1;
        }
        shape
    }

    /// The properties of the transducer that a scan of its transitions
    /// settles.
    pub fn properties(&self) -> (p: FstProperties)
        ensures
            p.bits == properties_spec(self@),
    {
        FstProperties { bits: EXPANDED | MUTABLE | self.shape().bits() }
    }
}

} // verus!
