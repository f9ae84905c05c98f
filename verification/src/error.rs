//! What can go wrong.
use vstd::prelude::*;

verus! {

/// The kinds of failure that the tunnel tells apart.
#[derive(Clone, Copy, Debug, PartialEq, Eq, Structural)]
pub enum ErrorKind {
    ConnectionAborted,
    ConnectionRefused,
    ConnectionReset,
    BrokenPipe,
    NotConnected,
    TimedOut,
    PermissionDenied,
    InvalidData,
    Other,
}

/// A failure: its kind and what is said of it.
#[derive(Clone, Debug)]
pub struct Error {
    pub kind: ErrorKind,
    pub message: String,
}

/// A failure, as contracts speak of it.
pub struct Failure {
    pub kind: ErrorKind,
    pub message: Seq<char>,
}

impl View for Error {
    type V = Failure;

    open spec fn view(&self) -> Failure {
        Failure { kind: self.kind, message: self.message@ }
    }
}

/// Data that does not make sense.
pub open spec fn invalid(message: Seq<char>) -> Failure {
    Failure { kind: ErrorKind::InvalidData, message }
}

/// Data that does not make sense.
pub fn invalid_data(message: String) -> (e: Error)
    ensures
        e@ == invalid(message@),
{
    Error { kind: ErrorKind::InvalidData, message }
}

} // verus!
