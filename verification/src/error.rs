//! The boundary error taxonomy: every component-level error, and the
//! transport status each one maps to.

use vstd::prelude::*;
use crate::exchange::TokenError;

verus! {

/// The failure kinds of the first-party identity provider's client, as the
/// boundary distinguishes them.
pub enum AuthErrorKind {
    /// The round trip to the identity provider failed.
    Transport,
    /// The bearer credential is unknown.
    UnknownToken,
    /// The bearer credential lacks the required scopes.
    MissingScopes,
    /// The identity provider answered outside its protocol.
    ProtocolError,
    /// A payload could not be encoded or decoded.
    EncodeDecodeError,
}

/// Everything a request-handling operation can fail with.
pub enum Error {
    /// The token store failed; an internal error to the caller.
    Dal(crate::store::Error),
    /// The caller is not allowed: an unknown or expired `state`, or a failed
    /// identity check.
    Forbidden(String),
    /// The round trip to the partner failed.
    Transport(String),
    /// The partner token exchange failed.
    TokenExchangeError(TokenError),
    /// The identity provider's client failed.
    AuthClient(AuthErrorKind),
    /// The requested record does not exist.
    NotFound,
}

/// A request-handling result.
pub type WebResult<T> = Result<T, Error>;

impl Error {
    /// The HTTP status this error surfaces as: store failures are internal
    /// errors, authorization-state and identity failures are forbidden,
    /// partner transport failures are bad gateways, a rejected grant is the
    /// caller's bad request, and absence is not-found.
    pub fn status_code(&self) -> (r: u16)
        ensures
            r == match self {
                Error::Dal(_) => 500int,
                Error::Forbidden(_) => 403int,
                Error::Transport(_) => 502int,
                Error::TokenExchangeError(e) => match e {
                    TokenError::Transport(_) => 502int,
                    TokenError::InvalidGrant => 400int,
                    TokenError::Other(_) => 500int,
                },
                Error::AuthClient(e) => match e {
                    AuthErrorKind::Transport => 502int,
                    AuthErrorKind::UnknownToken => 403int,
                    AuthErrorKind::MissingScopes => 403int,
                    AuthErrorKind::ProtocolError => 500int,
                    AuthErrorKind::EncodeDecodeError => 500int,
                },
                Error::NotFound => 404int,
            },
    {
        match self {
            Self::Dal(_) => 500,
            Self::Forbidden(_) => 403,
            Self::Transport(_) => 502,
            Self::TokenExchangeError(e) => match e {
                TokenError::Transport(_) => 502,
                TokenError::InvalidGrant => 400,
                TokenError::Other(_) => 500,
            },
            Self::AuthClient(e) => match e {
                AuthErrorKind::Transport => 502,
                AuthErrorKind::UnknownToken | AuthErrorKind::MissingScopes => 403,
                AuthErrorKind::ProtocolError | AuthErrorKind::EncodeDecodeError => 500,
            },
            Self::NotFound => 404,
        }
    }
}

} // verus!
