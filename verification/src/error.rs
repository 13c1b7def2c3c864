//! What a workload reports where it cannot give a result.

use crate::layout::LayoutError;
use crate::pool::PoolError;
use vstd::prelude::*;

verus! {

/// Why a workload gave no result.
#[derive(Debug, PartialEq, Eq)]
pub enum Error {
    /// The arrays handed over do not describe a forest and its samples.
    Layout(LayoutError),
    /// No pool of worker threads could be built.
    Pool(PoolError),
}

impl Error {
    /// The text of [`Error::message`].
    pub open spec fn spec_message(self) -> Seq<char> {
        match self {
            Error::Layout(e) => e.spec_message(),
            Error::Pool(e) => e.spec_message(),
        }
    }

    /// A sentence that says what went wrong.
    pub fn message(&self) -> (text: String)
        ensures
            text@ == self.spec_message(),
    {
        match self {
            Error::Layout(e) => e.message(),
            Error::Pool(e) => e.message(),
        }
    }
}

} // verus!
