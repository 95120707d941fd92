//! What a command needs to know of an algorithm on one transducer.

use vstd::prelude::*;

use crate::error::FstError;
use crate::fst_impls::{FstModel, VectorFst};
use crate::semirings::Semiring;

verus! {

/// An algorithm that takes a transducer read from one path and gives the
/// transducer to write to another.
pub trait UnaryFstAlgorithm<W: Semiring> {
    /// The path that the transducer is read from.
    spec fn path_in_spec(&self) -> Seq<char>;

    /// The path that the result is written to.
    spec fn path_out_spec(&self) -> Seq<char>;

    /// What the algorithm makes of a transducer.
    spec fn run_spec(fst: FstModel<W>) -> Result<FstModel<W>, FstError>;

    fn get_path_in(&self) -> (path: &str)
        ensures
            path@ == self.path_in_spec(),
    ;

    fn get_path_out(&self) -> (path: &str)
        ensures
            path@ == self.path_out_spec(),
    ;

    /// The name of the algorithm.
    spec fn algorithm_name_spec() -> Seq<char>;

    fn get_algorithm_name(&self) -> (name: String)
        ensures
            name@ == Self::algorithm_name_spec(),
    ;

    fn run_algorithm(&self, fst: VectorFst<W>) -> (r: Result<VectorFst<W>, FstError>)
        requires
            fst.wf(),
        ensures
            match Self::run_spec(fst@) {
                Ok(m) => r is Ok && r->Ok_0.wf() && r->Ok_0@ == m,
                Err(e) => r is Err && r->Err_0 == e,
            },
    ;
}

} // verus!
