//! The error taxonomy of the engine.

use vstd::prelude::*;

verus! {

/// What can go wrong while executing a choreography.
///
/// The first five are protocol-declaration defects: they depend only on the
/// program text and the declared ownership of its variables, never on the
/// values in flight, so every participant detects them at the same step.  The
/// last two arise only when a real transport carries the messages.
#[derive(Debug, Clone, Copy, PartialEq, Eq, Structural)]
pub enum ChorError {
    /// An operation names a location outside the declared participant set.
    ParticipantNotDeclared,
    /// An operation names a variable outside the declared variable range, or
    /// reads one that is not bound at that point.
    BadVariable,
    /// An operation reads a value at a location that does not own it.
    AbsentValue,
    /// A branch guard is not owned by every active participant: the branch
    /// would be decided by a value known to only some of them.
    UnsharedGuard,
    /// The two arms of a branch leave their results with different owners, so
    /// participants outside the owning set could not agree on the shape of
    /// what follows.
    DivergentBranches,
    /// The result of an enclave would be owned by a location outside the
    /// enclave's party set, which never took part in producing it.
    EnclaveResultEscapes,
    /// The supplied inputs do not match the choreography's input declarations.
    InputMismatch,
    /// A received message could not be decoded.
    SerializationFailure,
    /// The transport failed to carry a message.
    TransportFailure,
}

} // verus!
