use vstd::prelude::*;

verus! {

/// Possible error kinds.
#[derive(Debug, Clone, Copy, PartialEq, Eq, Hash)]
pub enum ErrorKind {
    InvalidInput,
    Unsupported,
    Other,
}

/// An error of this library: its kind and a human-readable reason.
#[derive(Debug, Clone, PartialEq, Eq)]
pub struct Error {
    /// The kind of error that occurred.
    pub kind: ErrorKind,
    /// The reason why the error occurred.
    pub reason: String,
}

/// The result type of this library.
pub type Result<T> = core::result::Result<T, Error>;

impl Error {
    /// Makes an error of the given kind.
    pub fn new(kind: ErrorKind, reason: &str) -> (e: Self)
        ensures
            e.kind == kind,
            e.reason@ == reason@,
    {
        Error { kind, reason: reason.to_owned() }
    }

    /// Makes an `ErrorKind::InvalidInput` error.
    pub fn invalid_input(reason: &str) -> (e: Self)
        ensures
            e.kind == ErrorKind::InvalidInput,
            e.reason@ == reason@,
    {
        Self::new(ErrorKind::InvalidInput, reason)
    }

    /// Makes an `ErrorKind::Unsupported` error.
    pub fn unsupported(reason: &str) -> (e: Self)
        ensures
            e.kind == ErrorKind::Unsupported,
            e.reason@ == reason@,
    {
        Self::new(ErrorKind::Unsupported, reason)
    }

    /// Makes an `ErrorKind::Other` error: the input ended before the value did.
    pub fn end_of_input() -> (e: Self)
        ensures
            e.kind == ErrorKind::Other,
    {
        Self::new(ErrorKind::Other, "failed to fill whole buffer")
    }
}

} // verus!
