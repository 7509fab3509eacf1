//! General error handling tools and utilities.

use vstd::prelude::*;

verus! {

/// The broad category that an [`Error`] falls under.
#[derive(Debug, Clone, Copy, PartialEq, Eq, Structural)]
pub enum ErrorKind {
    General,
    /// Malformed rule or axiom text.
    Parse,
    /// Errors related to defining systems, production rules, and so on.
    Definitions,
    /// Returned when attempting to create duplicate items.
    Duplicate,
    /// Errors related to running a system.
    Execution,
    /// Indicates an error with synchronisation, such as a poisoned lock.
    Locking,
    /// An I/O error.
    Io,
}

/// Errors that might be returned when using this library. They are
/// of kind [`ErrorKind`].
#[derive(Debug)]
pub struct Error {
    kind: ErrorKind,
    message: String,
}

impl Error {
    /// The kind of the error, as a spec-level value.
    pub closed spec fn spec_kind(&self) -> ErrorKind {
        self.kind
    }

    /// The message of the error, as a spec-level value.
    pub closed spec fn spec_message(&self) -> Seq<char> {
        self.message@
    }

    pub fn new(kind: ErrorKind, message: &str) -> (r: Self)
        ensures
            r.spec_kind() == kind,
            r.spec_message() == message@,
    {
        Error { kind, message: message.to_owned() }
    }

    pub fn general(message: &str) -> (r: Self)
        ensures
            r.spec_kind() == ErrorKind::General,
            r.spec_message() == message@,
    {
        Error::new(ErrorKind::General, message)
    }

    pub fn definition(message: &str) -> (r: Self)
        ensures
            r.spec_kind() == ErrorKind::Definitions,
            r.spec_message() == message@,
    {
        Error::new(ErrorKind::Definitions, message)
    }

    pub fn execution(message: &str) -> (r: Self)
        ensures
            r.spec_kind() == ErrorKind::Execution,
            r.spec_message() == message@,
    {
        Error::new(ErrorKind::Execution, message)
    }

    /// The category this error falls under.
    pub fn kind(&self) -> (r: ErrorKind)
        ensures
            r == self.spec_kind(),
    {
        self.kind
    }

    /// A human-readable description of the error.
    pub fn message(&self) -> (r: &str)
        ensures
            r@ == self.spec_message(),
    {
        self.message.as_str()
    }
}

impl Clone for Error {
    fn clone(&self) -> (r: Self)
        ensures
            r.spec_kind() == self.spec_kind(),
            r.spec_message() == self.spec_message(),
    {
        Error { kind: self.kind, message: self.message.clone() }
    }
}

} // verus!
