//! What the operating system reports of an operation that failed.

use vstd::prelude::*;

verus! {

/// The causes of failure that decisions depend on.
#[derive(Clone, Copy, Debug, PartialEq, Eq, Structural)]
pub enum FailureKind {
    /// The file or program does not exist.
    NotFound,
    /// The file exists already.
    AlreadyExists,
    /// Any other cause.
    Other,
}

/// A failed operation: its cause, and the words the system has for it.
#[derive(Debug)]
pub struct Failure {
    /// The cause.
    pub kind: FailureKind,
    /// The system's description.
    pub message: String,
}

} // verus!
