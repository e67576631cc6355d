//! The ways a session can fail.

use vstd::prelude::*;

verus! {

/// Why an operation of the protocol failed. Every kind ends the session it
/// occurs in; none is retried or replaced by a default.
#[derive(Debug, Clone, Copy, PartialEq, Eq, Structural)]
pub enum AuthError {
    /// A value could not be written as text, or text could not be read back.
    SerializationFailure,
    /// A replay asked for an entry after the last one of its tape.
    TapeExhausted,
    /// A disclosed entry does not hash to the commitment it was opened for.
    CommitmentMismatch,
    /// An owning database was asked to open a proof that carries no payload.
    OpenOnUnauthenticatedProof,
}

} // verus!
