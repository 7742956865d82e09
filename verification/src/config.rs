//! The service configuration: store credentials, partner client credentials,
//! the redirect URI registered with the partner, and the identity provider's
//! address.

use vstd::prelude::*;

verus! {

/// Everything the service is configured with.
#[derive(Clone)]
pub struct Config {
    pub mysql_host: String,
    pub mysql_user: String,
    pub mysql_password: String,
    pub mysql_db: String,
    pub exact_client_id: String,
    pub exact_client_secret: String,
    pub redirect_uri: String,
    pub mrauth_url: String,
}

} // verus!
