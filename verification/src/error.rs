//! What can go wrong while texts are read and counted.

use vstd::prelude::*;

verus! {

/// The longest line was asked of a text that has no line.
#[derive(Debug, Clone, Copy, PartialEq, Eq, Structural)]
pub struct EmptyContentError;

impl EmptyContentError {
    /// What is said of the error on the diagnostic stream.
    pub open spec fn text() -> Seq<char> {
        "Content is empty."@
    }

    /// The diagnostic for the error.
    pub fn message(&self) -> (message: String)
        ensures
            message@ == Self::text(),
    {
        "Content is empty.".to_owned()
    }
}

/// Why a text could not be read.
#[derive(Debug, Clone, Copy, PartialEq, Eq, Structural)]
pub enum ReadCause {
    /// There is no such file.
    NotFound,
    /// The file may not be read.
    PermissionDenied,
    /// What was read is no valid text.
    InvalidEncoding,
    /// Reading failed part of the way.
    Fault,
}

/// A text could not be opened or read to its end.
#[derive(Debug, PartialEq, Eq)]
pub struct ReadError {
    /// Why reading failed.
    pub cause: ReadCause,
    /// The words of the system on the failure.
    pub description: String,
}

impl ReadError {
    /// The diagnostic for the error: the words of the system.
    pub fn message(&self) -> (message: String)
        ensures
            message@ == self.description@,
    {
        self.description.clone()
    }
}

/// What ends a run early.
#[derive(Debug, PartialEq, Eq)]
pub enum Error {
    /// A text could not be read.
    Read(ReadError),
    /// The longest line was asked of an empty text.
    EmptyContent(EmptyContentError),
}

impl Error {
    /// What is said of the error on the diagnostic stream.
    pub open spec fn text(self) -> Seq<char> {
        match self {
            Error::Read(e) => e.description@,
            Error::EmptyContent(_) => EmptyContentError::text(),
        }
    }

    /// The diagnostic for the error.
    pub fn message(&self) -> (message: String)
        ensures
            message@ == self.text(),
    {
        match self {
            Error::Read(e) => e.message(),
            Error::EmptyContent(e) => e.message(),
        }
    }
}

} // verus!
