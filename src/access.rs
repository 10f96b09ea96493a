//! Issuing access to one video: the encoded key of a request becomes a
//! request for a signed URL, and the signed URL becomes a redirect.
use vstd::prelude::*;

use crate::error::GatewayError;
use crate::keycodec::{decode_key, decoded_key};

verus! {

/// Lifetime of a signed URL, in seconds.
pub const SIGNED_URL_TTL_SECS: u64 = 3600;

/// HTTP status of the redirect to a signed URL.
pub const FOUND: u16 = 302;

/// What the backend is asked to sign: a GET of `key`, valid for `expires_in_secs`.
#[derive(Debug)]
pub struct SignRequest {
    pub key: String,
    pub expires_in_secs: u64,
}

/// A redirect answer: its status and its `Location`.
#[derive(Debug)]
pub struct Redirect {
    pub status: u16,
    pub location: String,
}

/// The signing request for the encoded key of a stream request. A key whose
/// escapes are malformed, or that does not decode to UTF-8, is a client error
/// and nothing is to be signed.
pub fn sign_request(raw_key: &str) -> (r: Result<SignRequest, GatewayError>)
    ensures
        r is Ok <==> decoded_key(raw_key@) is Some,
        r is Ok ==> r->Ok_0.key@ == decoded_key(raw_key@)->Some_0 && r->Ok_0.expires_in_secs
            == SIGNED_URL_TTL_SECS,
        r is Err ==> r->Err_0 == GatewayError::InvalidKeyEncoding,
{
    match decode_key(raw_key) {
        Some(key) => Ok(SignRequest { key, expires_in_secs: SIGNED_URL_TTL_SECS }),
        None => Err(GatewayError::InvalidKeyEncoding),
    }
}

/// The answer once the backend has signed (`Some(url)`) or failed (`None`):
/// a 302 redirect to the URL, or a backend failure.
pub fn stream_response(signed: Option<String>) -> (r: Result<Redirect, GatewayError>)
    ensures
        signed is Some <==> r is Ok,
        signed is Some ==> r->Ok_0.status == FOUND && r->Ok_0.location@ == signed->Some_0@,
        signed is None ==> r == Err::<Redirect, GatewayError>(GatewayError::BackendUnavailable),
{
    match signed {
        Some(url) => Ok(Redirect { status: FOUND, location: url }),
        None => Err(GatewayError::BackendUnavailable),
    }
}

} // verus!
