//! Errors of the analysis.

use vstd::prelude::*;

verus! {

/// What went wrong in an I/O operation.
#[derive(Clone, Copy, Debug, PartialEq, Eq, Structural)]
pub enum IoErrorKind {
    NotFound,
    InvalidData,
    Other,
}

/// An error of the language server: a message, a failed I/O operation, or
/// something not found (with a message saying what).
#[derive(Debug)]
pub enum Error {
    General(Vec<u8>),
    Io { kind: IoErrorKind },
    NotFound(Vec<u8>),
}

impl Error {
    pub open spec fn spec_is_not_found(&self) -> bool {
        match self {
            Error::Io { kind } => *kind == IoErrorKind::NotFound,
            Error::General(_) => false,
            Error::NotFound(_) => true,
        }
    }

    /// Whether this is an I/O error of kind "not found".
    pub fn is_not_found(&self) -> (r: bool)
        ensures
            r == self.spec_is_not_found(),
    {
        match self {
            Error::Io { kind } => *kind == IoErrorKind::NotFound,
            Error::General(_) => false,
            Error::NotFound(_) => true,
        }
    }

    pub fn not_found() -> (r: Error)
        ensures
            r.spec_is_not_found(),
    {
        Error::Io { kind: IoErrorKind::NotFound }
    }
}

} // verus!
