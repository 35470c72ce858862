//! Errors of the compute mesh library.

use vstd::prelude::*;

verus! {

/// Why a hexadecimal identity string was refused.
#[derive(Debug, Clone, Copy, PartialEq, Eq)]
pub enum IdentityEncodingIssue {
    /// A byte that is no hexadecimal digit, with its position.
    InvalidHexCharacter { c: char, index: usize },
    /// An odd number of bytes.
    OddLength,
    /// A length that does not fit the decoded container.
    InvalidStringLength,
    /// Valid hexadecimal that does not decode to 32 bytes.
    WrongByteLength { got: usize },
}

/// Error type for x0x-compute.
#[derive(Debug)]
pub enum ComputeError {
    InvalidIdentityEncoding { field: &'static str, details: IdentityEncodingIssue },
    UserIdentityRequired,
    MissingParentDirectory(String),
    ModelNotFound(String),
    InvalidReservationRequest(String),
    ModelCapacityExceeded { model: String, requested_slots: u16, available_slots: u16 },
    ReservationNotFound(String),
    UnsupportedFeature(String),
    InvalidChatRequest(String),
}

/// The HTTP status that the daemon answers an error with.
pub open spec fn status_of(e: ComputeError) -> u16 {
    match e {
        ComputeError::InvalidIdentityEncoding { .. } => 400,
        ComputeError::InvalidReservationRequest(_) => 400,
        ComputeError::InvalidChatRequest(_) => 400,
        ComputeError::ModelNotFound(_) => 404,
        ComputeError::ReservationNotFound(_) => 404,
        ComputeError::ModelCapacityExceeded { .. } => 409,
        ComputeError::UnsupportedFeature(_) => 501,
        ComputeError::UserIdentityRequired => 500,
        ComputeError::MissingParentDirectory(_) => 500,
    }
}

impl ComputeError {
    /// The HTTP status code for this error: 400 for a malformed request, 404
    /// for an unknown model or reservation, 409 when a model has no room, 501
    /// for what is not implemented, 500 otherwise.
    pub fn http_status(&self) -> (code: u16)
        ensures
            code == status_of(*self),
    {
        match self {
            ComputeError::InvalidIdentityEncoding { .. } => 400,
            ComputeError::InvalidReservationRequest(_) => 400,
            ComputeError::InvalidChatRequest(_) => 400,
            ComputeError::ModelNotFound(_) => 404,
            ComputeError::ReservationNotFound(_) => 404,
            ComputeError::ModelCapacityExceeded { .. } => 409,
            ComputeError::UnsupportedFeature(_) => 501,
            ComputeError::UserIdentityRequired => 500,
            ComputeError::MissingParentDirectory(_) => 500,
        }
    }
}

} // verus!
