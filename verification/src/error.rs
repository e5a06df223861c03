//! What can go wrong: a text that is no version, and a proposal that cannot be
//! made.

use vstd::prelude::*;

verus! {

/// Why a text was not read.
#[derive(Clone, Copy, Debug, PartialEq, Eq, Hash, Structural)]
pub enum ParseError {
    /// The text is not written as a version, or as a pre-release label, is.
    Malformed,
}

/// Why no version was proposed.
#[derive(Clone, Copy, Debug, PartialEq, Eq, Hash, Structural)]
pub enum ProposalError {
    /// The version asked for is one of the known tags already.
    VersionAlreadyExists,
    /// Every pre-release counter that could be tried is taken, or none is left
    /// to try.
    ResolutionExhausted,
}

} // verus!
