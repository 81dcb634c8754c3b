//! Why an operation of a backend did not come to its end.

use vstd::prelude::*;

verus! {

/// The failures that the backends tell apart.
#[derive(Debug, Clone, Copy, PartialEq, Eq, Structural)]
pub enum Failure {
    /// An external program could not be run or ended with a failure.
    CommandFailed,
    /// A package does not say whether it is a toolchain or a component.
    MissingKind,
    /// A package says that it is something other than a toolchain or a component.
    UnknownKind,
    /// The name of a component does not hold a toolchain and a component.
    MalformedComponent,
    /// A line of a component listing names no component that is managed.
    UnknownComponent,
    /// A state was handed over in which the operation cannot be.
    Mismatch,
    /// The manager has no such operation.
    NotSupported,
}

} // verus!
