//! The two ways a request can fail.
use vstd::prelude::*;

verus! {

#[derive(Clone, Copy, Debug, PartialEq, Eq, Structural)]
pub enum GatewayError {
    /// The key in the request is not a valid encoding; answered with 400.
    InvalidKeyEncoding,
    /// The storage backend failed to list or to sign; answered with 500.
    BackendUnavailable,
}

impl GatewayError {
    /// The HTTP status that answers this failure.
    pub fn status_code(&self) -> (r: u16)
        ensures
            *self == GatewayError::InvalidKeyEncoding ==> r == 400,
            *self == GatewayError::BackendUnavailable ==> r == 500,
    {
        match self {
            GatewayError::InvalidKeyEncoding => 400,
            GatewayError::BackendUnavailable => 500,
        }
    }
}

} // verus!
