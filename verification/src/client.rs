//! Types and decisions of the consuming client library that reads the
//! access-token endpoint.

use vstd::prelude::*;
use vstd::string::StringExecFns;

verus! {

/// An access token as the endpoint hands it out.
pub struct AccessToken {
    pub token: String,
    pub expires_at: i64,
}

impl AccessToken {
    /// Assemble a token from the wire payload's two fields.
    pub fn from_parts(token: String, expires_at: i64) -> (r: AccessToken)
        ensures
            r.token@ == token@,
            r.expires_at == expires_at,
    {
        AccessToken { token, expires_at }
    }
}

/// A URL under a configured base URL.
pub fn get_url(base_url: &str, path: &str) -> (r: String)
    ensures
        r@ == base_url@ + path@,
{
    base_url.to_owned().concat(path)
}

/// What the client does with an access-token response of a given HTTP status.
pub enum ResponseDisposition {
    /// The identity check failed; decode the authorization-failure payload.
    AuthFailure,
    /// Any other client or server error status.
    HttpError,
    /// A success status; decode the access-token payload.
    Payload,
}

/// Decide how to treat an access-token response: a 403 carries an
/// authorization failure, any other 4xx or 5xx status is an HTTP-level
/// error, everything else carries the payload.
pub fn classify_response_status(status: u16) -> (r: ResponseDisposition)
    ensures
        status == 403 ==> r is AuthFailure,
        status != 403 && 400 <= status < 600 ==> r is HttpError,
        !(400 <= status < 600) ==> r is Payload,
{
    if status == 403 {
        ResponseDisposition::AuthFailure
    } else if 400 <= status && status < 600 {
        ResponseDisposition::HttpError
    } else {
        ResponseDisposition::Payload
    }
}

} // verus!
