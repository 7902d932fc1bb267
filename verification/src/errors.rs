//! Error vocabulary of the core.
//!
//! Two top-level taxonomies: user-input errors are detected before or during
//! argument validation and abort the transaction with no state change, while
//! execution failures are captured as a failed status that is still
//! committed.  Publication errors are a distinct kind carrying the offending
//! dependency, because they are resolved by operator action.

use vstd::prelude::*;

verus! {

/// The caller's request is malformed or references nonexistent or
/// ineligible objects.  Detected before execution; aborts the transaction
/// with no state change.
#[derive(Clone, Copy, Debug, PartialEq, Eq, Structural)]
pub enum UserInputError {
    /// A command was given an empty input whose meaning cannot be inferred
    /// (an empty vector with no element type tag, an empty module list).
    EmptyCommandInput,
    /// The referenced object does not exist at a top-level version.
    ObjectNotFound { object_id: u64 },
    /// A single-owner object was used by a transaction not signed by its
    /// owner.
    NotSignedByOwner { object_id: u64, owner_address: u64 },
    /// A child object was passed directly as a transaction argument without
    /// its authenticating parent present in the same transaction.  Distinct
    /// from a plain authorization failure: the caller attempted to bypass
    /// the ownership chain.
    InvalidChildObjectArgument { child_id: u64, parent_id: u64 },
    /// A shared object was passed through the plain single-owner input
    /// path, which has no consensus ordering.
    SharedObjectAsSingleOwnerInput { object_id: u64 },
    /// An immutable object was used where mutation authority is required.
    MutationOfImmutableObject { object_id: u64 },
}

/// What went wrong with one command argument.
#[derive(Clone, Copy, Debug, PartialEq, Eq, Structural)]
pub enum CommandArgumentError {
    /// The same object was consumed by value more than once across the
    /// transaction's scalar and vector arguments.
    InvalidUsageOfTakenValue,
    /// A pure argument's bytes are not a well-formed canonical encoding of
    /// the declared parameter layout.
    InvalidBCSBytes,
}

/// A typed failure reported by the execution of a command.
#[derive(Clone, Copy, Debug, PartialEq, Eq, Structural)]
pub enum ExecutionFailure {
    /// A specific argument of the command was unusable.
    CommandArgumentError { arg_idx: u64, kind: CommandArgumentError },
    /// A value failed verification or deserialization at the owning
    /// command (a vector element of the wrong runtime type, a shared
    /// object as a vector element, a malformed module).
    VMVerificationOrDeserializationError,
}

/// Outcome of running a transaction's commands.  A failure still consumes
/// gas and is still committed, distinguishing "invalid to submit" from
/// "ran and failed".
#[derive(Clone, Copy, Debug, PartialEq, Eq, Structural)]
pub enum ExecutionStatus {
    Success,
    Failure { error: ExecutionFailure, command: u64 },
}

impl ExecutionStatus {
    /// True exactly on the successful status.
    pub fn is_ok(&self) -> (r: bool)
        ensures
            r == (*self is Success),
    {
        match self {
            ExecutionStatus::Success => true,
            ExecutionStatus::Failure { .. } => false,
        }
    }
}

/// A publication-specific failure: a package dependency that is not being
/// published in the same transaction carries no on-chain published
/// address.  Named after the offending dependency because it is resolved
/// by operator action, not retried.
#[derive(Clone, Copy, Debug, PartialEq, Eq, Structural)]
pub struct ModulePublishFailure {
    pub dependency: u64,
}

/// Why a transaction does not produce a successful effects record: it was
/// invalid to submit (aborted with no state change and no gas use), it
/// failed publication, or it ran and failed at a specific command.
#[derive(Clone, Copy, Debug, PartialEq, Eq, Structural)]
pub enum Rejection {
    Input(UserInputError),
    Publish(ModulePublishFailure),
    Exec { command: u64, failure: ExecutionFailure },
}

} // verus!
