//! The error type of the library: a failure kind with a message.
use vstd::prelude::*;

verus! {

/// What went wrong.
#[derive(Clone, Copy, Debug, PartialEq, Eq, Structural)]
pub enum ErrorKind {
    /// The input ended before a value could be read.
    Truncated,
    /// A value read or given is not valid where it stands.
    Invalid,
    /// A name or id has no mapping.
    Missing,
    /// A count or offset does not fit its target type.
    Overflow,
    /// A configured guard limit was exceeded.
    Limit,
}

/// A failure with its kind and a human-readable message.
#[derive(Clone, Debug)]
pub struct Error {
    pub kind: ErrorKind,
    pub message: String,
}

impl Error {
    /// An error of `kind` with the message `message`.
    pub fn new(kind: ErrorKind, message: &str) -> (r: Error)
        ensures
            r.kind == kind,
            r.message@ == message@,
    {
        Error { kind, message: String::from_str(message) }
    }

    /// An error of `kind` whose message is the given string.
    pub fn with_message(kind: ErrorKind, message: String) -> (r: Error)
        ensures
            r.kind == kind,
            r.message == message,
    {
        Error { kind, message }
    }

    /// The message, as `Display` would print it.
    pub fn to_string(&self) -> (r: String)
        ensures
            r@ == self.message@,
    {
        self.message.clone()
    }
}

} // verus!
