use vstd::prelude::*;

verus! {

/// The library's error: one kind, with a human-readable message inside it.
#[derive(Debug)]
pub struct Error {
    pub kind: ErrorKind,
}

/// What went wrong.
#[derive(Debug)]
pub enum ErrorKind {
    /// A value (a duration, a size, a number) could not be parsed.
    ParseError(String),
    /// A command-line argument was not understood.
    InvalidArg(String),
    /// No tracked entry (or no file) matched.
    NotFound(String),
    /// The target of a move already holds something else.
    DestinationOccupied(String),
}

impl Error {
    pub fn new(kind: ErrorKind) -> (r: Error)
        ensures
            r.kind == kind,
    {
        Error { kind }
    }

    /// The message carried by this error.
    pub fn message(&self) -> (r: &String)
        ensures
            r == match self.kind {
                ErrorKind::ParseError(m) => m,
                ErrorKind::InvalidArg(m) => m,
                ErrorKind::NotFound(m) => m,
                ErrorKind::DestinationOccupied(m) => m,
            },
    {
        match &self.kind {
            ErrorKind::ParseError(m) => m,
            ErrorKind::InvalidArg(m) => m,
            ErrorKind::NotFound(m) => m,
            ErrorKind::DestinationOccupied(m) => m,
        }
    }
}

} // verus!
