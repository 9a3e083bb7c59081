//! The error of the scheduler, which forwards the builds of the watched pipelines
//! from the monitor to the jobifier.
use crate::monitor::{bk_err_text, BkErr};
use vstd::prelude::*;

verus! {

/// Why a pipeline could not be watched.
#[derive(Debug, Clone)]
pub enum Error {
    Buildkite(BkErr),
}

impl Error {
    /// The error's message: that of the Buildkite error.
    pub fn to_string(&self) -> (s: String)
        ensures
            s@ == match *self {
                Error::Buildkite(bk) => bk_err_text(bk),
            },
    {
        match self {
            Error::Buildkite(bk) => bk.to_string(),
        }
    }

    /// The Buildkite error that caused this one.
    pub fn source(&self) -> (r: &BkErr)
        ensures
            match *self {
                Error::Buildkite(bk) => *r == bk,
            },
    {
        match self {
            Error::Buildkite(bk) => bk,
        }
    }
}

} // verus!
