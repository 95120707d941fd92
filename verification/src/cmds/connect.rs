//! Trimming, as a command offers it.

use vstd::prelude::*;

use crate::algorithms::connect::{connect, connect_spec};
use crate::cmds::unary_fst_algorithm::UnaryFstAlgorithm;
use crate::error::FstError;
use crate::fst_impls::{FstModel, VectorFst};
use crate::semirings::Semiring;

verus! {

pub struct ConnectAlgorithm {
    path_in: String,
    path_out: String,
}

impl<W: Semiring> UnaryFstAlgorithm<W> for ConnectAlgorithm {
    open spec fn path_in_spec(&self) -> Seq<char> {
        self.path_in()
    }

    open spec fn path_out_spec(&self) -> Seq<char> {
        self.path_out()
    }

    open spec fn run_spec(fst: FstModel<W>) -> Result<FstModel<W>, FstError> {
        Ok(connect_spec(fst))
    }

    fn get_path_in(&self) -> (path: &str) {
        self.path_in.as_str()
    }

    fn get_path_out(&self) -> (path: &str) {
        self.path_out.as_str()
    }

    open spec fn algorithm_name_spec() -> Seq<char> {
        "connect"@
    }

    fn get_algorithm_name(&self) -> (name: String) {
        "connect".to_owned()
    }

    fn run_algorithm(&self, fst: VectorFst<W>) -> (r: Result<VectorFst<W>, FstError>) {
        let mut fst = fst;
        connect(&mut fst)?;
        Ok(fst)
    }
}

impl ConnectAlgorithm {
    /// The path that the transducer is read from.
    pub closed spec fn path_in(&self) -> Seq<char> {
        self.path_in@
    }

    /// The path that the result is written to.
    pub closed spec fn path_out(&self) -> Seq<char> {
        self.path_out@
    }

    pub fn new(path_in: &str, path_out: &str) -> (r: Self)
        ensures
            r.path_in() == path_in@,
            r.path_out() == path_out@,
    {
        Self { path_in: path_in.to_owned(), path_out: path_out.to_owned() }
    }
}

} // verus!
