//! Partner API addressing: the partner base URL, the authorization URL that
//! begins a login, and the form body posted to the token endpoint.

use vstd::prelude::*;
use vstd::string::{StringExecFns, StringSliceAdditionalSpecFns};
use vstd::utf8::encode_utf8;
use crate::exchange::OAuth2GrantType;
use crate::urlenc::{
    ascii_to_string, push_pair, spec_chars_of_bytes, spec_login_query, spec_query_pair,
};

verus! {

/// The partner's URL under its region base.
pub open spec fn spec_exact_url(path: Seq<char>) -> Seq<char> {
    ("https://start.exactonline.nl")@ + path
}

/// Prefix a path with the partner's region base URL.
pub fn get_exact_url(path: &str) -> (r: String)
    ensures
        r@ == spec_exact_url(path@),
{
    "https://start.exactonline.nl".to_owned().concat(path)
}

/// The full authorization URL a login redirects to: the partner's
/// authorization endpoint with the query that `spec_login_query` lays down
/// over the UTF-8 bytes of the four components.
pub open spec fn spec_authorize_url(
    client_id: Seq<char>,
    redirect_uri: Seq<char>,
    state: Seq<char>,
    scopes: Seq<char>,
) -> Seq<char> {
    spec_exact_url(("/api/oauth2/auth")@) + ("?")@ + spec_chars_of_bytes(
        spec_login_query(
            encode_utf8(client_id),
            encode_utf8(redirect_uri),
            encode_utf8(state),
            encode_utf8(scopes),
        ),
    )
}

/// Build the authorization URL that a beginning login redirects the user to.
pub fn build_authorize_url(client_id: &str, redirect_uri: &str, state: &str, scopes: &str) -> (r:
    String)
    ensures
        r@ == spec_authorize_url(client_id@, redirect_uri@, state@, scopes@),
{
    let query = crate::urlenc::login_query(client_id, redirect_uri, state, scopes);
    get_exact_url("/api/oauth2/auth").concat("?").concat(query.as_str())
}

/// One optional form field: nothing when absent, the pair and a trailing `&`
/// when present.
pub open spec fn spec_opt_pair(name: Seq<u8>, value: Option<Seq<u8>>) -> Seq<u8> {
    match value {
        None => Seq::empty(),
        Some(v) => spec_query_pair(name, v) + seq![38u8],
    }
}

/// The form body posted to the token endpoint: the optional refresh token,
/// the optional authorization code, then grant type, client credentials and
/// redirect URI, in that order.
pub open spec fn spec_token_form(
    refresh_token: Option<Seq<u8>>,
    code: Option<Seq<u8>>,
    grant_type: Seq<u8>,
    client_id: Seq<u8>,
    client_secret: Seq<u8>,
    redirect_uri: Seq<u8>,
) -> Seq<u8> {
    spec_opt_pair(("refresh_token").spec_bytes(), refresh_token) + spec_opt_pair(
        ("code").spec_bytes(),
        code,
    ) + spec_query_pair(("grant_type").spec_bytes(), grant_type) + seq![38u8] + spec_query_pair(
        ("client_id").spec_bytes(),
        client_id,
    ) + seq![38u8] + spec_query_pair(("client_secret").spec_bytes(), client_secret) + seq![38u8]
        + spec_query_pair(("redirect_uri").spec_bytes(), redirect_uri)
}

/// The view of an optional borrowed string's bytes.
pub open spec fn spec_opt_bytes(s: Option<&str>) -> Option<Seq<u8>> {
    match s {
        None => None,
        Some(x) => Some(x.spec_bytes()),
    }
}

/// Build the form body of one token exchange.
pub fn token_request_form(
    client_id: &str,
    client_secret: &str,
    redirect_uri: &str,
    code: Option<&str>,
    refresh_token: Option<&str>,
    grant_type: OAuth2GrantType,
) -> (r: String)
    ensures
        r@ == spec_chars_of_bytes(
            spec_token_form(
                spec_opt_bytes(refresh_token),
                spec_opt_bytes(code),
                (match grant_type {
                    OAuth2GrantType::AuthorizationCode => ("authorization_code").spec_bytes(),
                    OAuth2GrantType::RefreshToken => ("refresh_token").spec_bytes(),
                }),
                client_id.spec_bytes(),
                client_secret.spec_bytes(),
                redirect_uri.spec_bytes(),
            ),
        ),
{
    let mut out: Vec<u8> = Vec::new();
    match refresh_token {
        Some(rt) => {
            push_pair(&mut out, true, "refresh_token".as_bytes(), rt.as_bytes());
            out.push(38);
        },
        None => {},
    }
    match code {
        Some(c) => {
            push_pair(&mut out, true, "code".as_bytes(), c.as_bytes());
            out.push(38);
        },
        None => {},
    }
    let grant = grant_type.grant_type_string();
    push_pair(&mut out, true, "grant_type".as_bytes(), grant.as_bytes());
    push_pair(&mut out, false, "client_id".as_bytes(), client_id.as_bytes());
    push_pair(&mut out, false, "client_secret".as_bytes(), client_secret.as_bytes());
    push_pair(&mut out, false, "redirect_uri".as_bytes(), redirect_uri.as_bytes());
    proof {
        assert(out@ =~= spec_token_form(
            spec_opt_bytes(refresh_token),
            spec_opt_bytes(code),
            grant.spec_bytes(),
            client_id.spec_bytes(),
            client_secret.spec_bytes(),
            redirect_uri.spec_bytes(),
        ));
    }
    ascii_to_string(out)
}

} // verus!
