//! Errors that end a run.
use vstd::prelude::*;

verus! {

/// Why a run stops before it writes its index.
#[derive(Debug, PartialEq, Eq, Structural)]
pub enum HarvestError {
    /// After filtering, no candidate is left.
    EmptyResult,
    /// A listing answered with a status that is neither success nor absence.
    ListingFailed,
    /// A document is not well-formed.
    ParseFailure,
    /// A document lacks a part that the run needs.
    Malformed,
}

} // verus!
