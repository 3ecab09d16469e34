//! The failures of an invocation.

use vstd::prelude::*;

verus! {

/// What went wrong.
#[derive(Clone, Copy, Debug, PartialEq, Eq, Structural)]
pub enum ErrorKind {
    /// The command line names no operation, or lacks an argument of the
    /// operation, or holds one that cannot be read.
    Usage,
    /// The backing file could not be opened, read, truncated or written.
    Io,
    /// The backing file does not hold a list of records.
    Parse,
    /// The records could not be encoded.
    Serialization,
}

/// A failure: its kind and a message for the reader.
#[derive(Clone, Debug)]
pub struct ManagerError {
    pub kind: ErrorKind,
    pub message: String,
}

impl ManagerError {
    /// A usage error whose message is what `message` converts into.
    pub fn new<T: Into<String>>(message: T) -> (error: ManagerError)
        ensures
            error.kind == ErrorKind::Usage,
            call_ensures(<T as Into<String>>::into, (message,), error.message),
    {
        ManagerError { kind: ErrorKind::Usage, message: message.into() }
    }

    /// A failure of the given kind with the given message.
    pub fn of_kind(kind: ErrorKind, message: String) -> (error: ManagerError)
        ensures
            error.kind == kind,
            error.message == message,
    {
        ManagerError { kind, message }
    }

    /// The text shown for the failure: its message.
    pub fn to_text(&self) -> (text: String)
        ensures
            text@ == self.message@,
    {
        self.message.clone()
    }
}

} // verus!
