//! The closed set of failures a generation run can report.

use vstd::prelude::*;

verus! {

/// Why a generation run stopped, each with the offending name or path.
#[derive(Debug, Clone, PartialEq, Eq)]
pub enum GenError {
    /// A project's language tag has no profile.
    UnsupportedLanguage(Vec<u8>),
    /// Two sibling entries resolve to the same directory entry.
    NameCollision(Vec<u8>),
    /// A managed file holds zero, several, or inverted marker pairs.
    MarkerMismatch(Vec<u8>),
    /// A path holds the wrong kind of entry for the requested write.
    IoFailure(Vec<u8>),
}

/// The mathematical value of a [`GenError`].
pub enum ErrV {
    UnsupportedLanguage(Seq<u8>),
    NameCollision(Seq<u8>),
    MarkerMismatch(Seq<u8>),
    IoFailure(Seq<u8>),
}

impl View for GenError {
    type V = ErrV;

    open spec fn view(&self) -> ErrV {
        match self {
            GenError::UnsupportedLanguage(p) => ErrV::UnsupportedLanguage(p@),
            GenError::NameCollision(p) => ErrV::NameCollision(p@),
            GenError::MarkerMismatch(p) => ErrV::MarkerMismatch(p@),
            GenError::IoFailure(p) => ErrV::IoFailure(p@),
        }
    }
}

} // verus!
