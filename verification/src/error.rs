//! The failures of the protocol and their transport status.

use vstd::prelude::*;

verus! {

/// The failures that a protocol operation can report.
#[derive(Clone, Copy, Debug, PartialEq, Eq, Structural)]
pub enum AuthError {
    /// A challenge was requested for an identity that never registered.
    UnknownIdentity,
    /// The challenge identifier is not pending: never issued, or already consumed.
    UnknownChallenge,
    /// The challenge was pending but the response does not satisfy the proof equations.
    ProofRejected,
    /// A byte field does not encode an integer.
    MalformedInput,
    /// The stores or the randomness source broke an assumption of the protocol.
    InternalInconsistency,
}

/// The status that a request/response transport reports for a failure.
#[derive(Clone, Copy, Debug, PartialEq, Eq, Structural)]
pub enum StatusCode {
    NotFound,
    InvalidArgument,
    PermissionDenied,
    Internal,
}

impl AuthError {
    /// The transport status of each failure, as a mathematical function.
    pub open spec fn status_spec(self) -> StatusCode {
        match self {
            AuthError::UnknownIdentity => StatusCode::NotFound,
            AuthError::UnknownChallenge => StatusCode::InvalidArgument,
            AuthError::ProofRejected => StatusCode::PermissionDenied,
            AuthError::MalformedInput => StatusCode::InvalidArgument,
            AuthError::InternalInconsistency => StatusCode::Internal,
        }
    }

    /// Maps a failure to its transport status.
    pub fn status_code(&self) -> (code: StatusCode)
        ensures
            code == self.status_spec(),
    {
        match self {
            AuthError::UnknownIdentity => StatusCode::NotFound,
            AuthError::UnknownChallenge => StatusCode::InvalidArgument,
            AuthError::ProofRejected => StatusCode::PermissionDenied,
            AuthError::MalformedInput => StatusCode::InvalidArgument,
            AuthError::InternalInconsistency => StatusCode::Internal,
        }
    }
}

} // verus!
