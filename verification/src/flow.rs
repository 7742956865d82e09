//! The authorization flow controller: begin a login by opening an
//! authorization attempt and building the partner redirect, complete it by
//! redeeming the partner's callback, and read the stored access token back.

use vstd::prelude::*;
use crate::api::{build_authorize_url, spec_authorize_url};
use crate::client::AccessToken;
use crate::error::Error;
use crate::exchange::TokenPair;
use crate::routes::Redirect;
use crate::store::{
    add_start_model, find_start, find_token, spec_alphanumeric, spec_ensure_user, upsert_token_model,
    AuthorizationStart, OAuth2Tokentype, StartRowModel, TokenRowModel, TokenStore,
    lemma_upsert_find, lemma_upsert_frame,
};
use vstd::string::StringSliceAdditionalSpecFns;

verus! {

/// What beginning a login yields: the opened authorization attempt and the
/// redirect that sends the user to the partner.
pub struct LoginStarted {
    pub auth_start: AuthorizationStart,
    pub redirect: Redirect,
}

/// Begin a login for an authenticated user: create the user on first login,
/// open an authorization attempt binding caller and scopes to it, and build
/// the partner authorization URL carrying the attempt's id as the OAuth2
/// `state` parameter.
pub fn begin_login(
    store: &mut TokenStore,
    user_id: &str,
    scopes: &str,
    caller: &str,
    client_id: &str,
    redirect_uri: &str,
) -> (r: Result<LoginStarted, Error>)
    requires
        old(store).wf(),
    ensures
        final(store).wf(),
        r matches Ok(l) ==> ({
            let rowm = StartRowModel {
                id: l.auth_start.id@,
                user: user_id@,
                timestamp: l.auth_start.timestamp as int,
                caller: caller@,
                scopes: scopes@,
            };
            &&& l.auth_start.id@.len() == 32
            &&& (forall|i: int|
                0 <= i < l.auth_start.id@.len() ==> spec_alphanumeric(#[trigger] l.auth_start.id@[i]))
            &&& l.auth_start.user.id@ == user_id@
            &&& l.auth_start.exact_scopes@ == scopes@
            &&& l.auth_start.caller@ == caller@
            &&& final(store)@ == add_start_model(spec_ensure_user(old(store)@, user_id@), rowm)
            &&& find_start(final(store)@.starts, l.auth_start.id@) == Some(rowm)
            &&& l.redirect@ == spec_authorize_url(client_id@, redirect_uri@, l.auth_start.id@, scopes@)
        }),
        r matches Err(e) ==> final(store)@ == spec_ensure_user(old(store)@, user_id@) && (
        e matches Error::Dal(crate::store::Error::DuplicateAuthorizationId(cid)) && find_start(
            old(store)@.starts,
            cid@,
        ) is Some),
{
    let user = match store.get_by_id(user_id) {
        Some(u) => u,
        None => match store.create(user_id) {
            Ok(u) => {
                proof {
                    assert(store@.users[store@.users.len() - 1] == user_id@);
                }
                u
            },
            Err(e) => {
                return Err(Error::Dal(e));
            },
        },
    };
    assert(store@.users.contains(user_id@));
    assert(store@.starts =~= old(store)@.starts);
    let auth_start = match store.start_authorization(&user, scopes, caller) {
        Ok(a) => a,
        Err(e) => {
            return Err(Error::Dal(e));
        },
    };
    let url = build_authorize_url(client_id, redirect_uri, auth_start.id.as_str(), scopes);
    Ok(LoginStarted { auth_start, redirect: Redirect::new(url) })
}

/// Look the callback's `state` up. An unknown `state` is refused as
/// Forbidden — this defends against forgery and replay of stale links — and
/// nothing is exchanged or written for it.
pub fn complete_login_lookup(store: &TokenStore, state: &str) -> (r: Result<
    AuthorizationStart,
    Error,
>)
    requires
        store.wf(),
    ensures
        (r matches Err(e) ==> (e matches Error::Forbidden(_))),
        (r is Err) <==> find_start(store@.starts, state@) is None,
        r matches Ok(a) ==> find_start(store@.starts, state@) == Some(
            StartRowModel {
                id: a.id@,
                user: a.user.id@,
                timestamp: a.timestamp as int,
                caller: a.caller@,
                scopes: a.exact_scopes@,
            },
        ) && a.id@ == state@ && store@.users.contains(a.user.id@),
{
    let found = match store.get_by_authorization_start_id(state) {
        Ok(x) => x,
        Err(e) => {
            assert(false);
            return Err(Error::Forbidden("Unknown state".to_owned()));
        },
    };
    match found {
        Some(a) => {
            proof {
                let row = find_start(store@.starts, state@).unwrap();
                assert(store@.starts.contains(row)) by {
                    lemma_find_start_in_starts(store@.starts, state@);
                }
            }
            Ok(a)
        },
        None => Err(Error::Forbidden("Unknown state".to_owned())),
    }
}

/// Whatever `find_start` returns is one of the rows.
proof fn lemma_find_start_in_starts(starts: Seq<StartRowModel>, id: Seq<char>)
    requires
        find_start(starts, id) is Some,
    ensures
        starts.contains(find_start(starts, id).unwrap()),
    decreases starts.len(),
{
    if starts.len() > 0 && starts[0].id != id {
        lemma_find_start_in_starts(starts.drop_first(), id);
        let row = find_start(starts, id).unwrap();
        let i = choose|i: int|
            0 <= i < starts.drop_first().len() && starts.drop_first()[i] == row;
        assert(starts[i + 1] == row);
    }
}

/// Persist the redeemed token pair for the attempt's user and hand back the
/// caller URL recorded when the login began: afterwards the stored access
/// and refresh tokens are exactly what the exchange returned.
pub fn complete_login_finish(
    store: &mut TokenStore,
    auth_start: &AuthorizationStart,
    pair: &TokenPair,
) -> (r: Redirect)
    requires
        old(store).wf(),
        old(store)@.users.contains(auth_start.user.id@),
    ensures
        final(store).wf(),
        r@ == auth_start.caller@,
        final(store)@ == upsert_token_model(
            upsert_token_model(
                old(store)@,
                auth_start.user.id@,
                OAuth2Tokentype::Access,
                pair.access@,
                pair.access_expiry as int,
            ),
            auth_start.user.id@,
            OAuth2Tokentype::Refresh,
            pair.refresh@,
            pair.refresh_expiry as int,
        ),
        find_token(final(store)@.tokens, auth_start.user.id@, OAuth2Tokentype::Access) == Some(
            TokenRowModel {
                user: auth_start.user.id@,
                kind: OAuth2Tokentype::Access,
                token: pair.access@,
                expiry: pair.access_expiry as int,
            },
        ),
        find_token(final(store)@.tokens, auth_start.user.id@, OAuth2Tokentype::Refresh) == Some(
            TokenRowModel {
                user: auth_start.user.id@,
                kind: OAuth2Tokentype::Refresh,
                token: pair.refresh@,
                expiry: pair.refresh_expiry as int,
            },
        ),
{
    let ghost m0 = store@;
    store.set_access_token(&auth_start.user, pair.access.as_str(), pair.access_expiry);
    let ghost m1 = store@;
    store.set_refresh_token(&auth_start.user, pair.refresh.as_str(), pair.refresh_expiry);
    proof {
        lemma_upsert_find(
            m0,
            auth_start.user.id@,
            OAuth2Tokentype::Access,
            pair.access@,
            pair.access_expiry as int,
        );
        lemma_upsert_find(
            m1,
            auth_start.user.id@,
            OAuth2Tokentype::Refresh,
            pair.refresh@,
            pair.refresh_expiry as int,
        );
        lemma_upsert_frame(
            m1,
            auth_start.user.id@,
            OAuth2Tokentype::Refresh,
            pair.refresh@,
            pair.refresh_expiry as int,
            auth_start.user.id@,
            OAuth2Tokentype::Access,
        );
    }
    Redirect::new(auth_start.caller.clone())
}

/// Read the user's current access token: not-found when the user is unknown
/// or owns no stored access token, else exactly the stored token and expiry.
pub fn access_token_response(store: &TokenStore, user_id: &str) -> (r: Result<AccessToken, Error>)
    ensures
        r matches Ok(t) ==> (find_token(store@.tokens, user_id@, OAuth2Tokentype::Access)
            matches Some(row) && t.token@ == row.token && t.expires_at as int == row.expiry),
        (r is Ok) <==> (store@.users.contains(user_id@) && find_token(
            store@.tokens,
            user_id@,
            OAuth2Tokentype::Access,
        ) is Some),
        r matches Err(e) ==> (e matches Error::NotFound),
{
    let user = match store.get_by_id(user_id) {
        Some(u) => u,
        None => {
            return Err(Error::NotFound);
        },
    };
    match store.get_access_token(&user) {
        Some(t) => Ok(AccessToken { token: t.token, expires_at: t.expiry }),
        None => Err(Error::NotFound),
    }
}

} // verus!
