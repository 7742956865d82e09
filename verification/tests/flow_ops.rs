use exactauth::error::{AuthErrorKind, Error};
use exactauth::exchange::{TokenError, TokenPair};
use exactauth::flow::{
    access_token_response, begin_login, complete_login_finish, complete_login_lookup,
};
use exactauth::store::TokenStore;

#[test]
fn begin_login_opens_a_retrievable_authorization_start() {
    let mut store = TokenStore::new();
    let started = begin_login(
        &mut store,
        "u1",
        "finance",
        "https://caller.example/done",
        "client-1",
        "https://auth.example/logged-in",
    )
    .ok()
    .unwrap();
    assert_eq!(started.auth_start.user.id, "u1");
    assert_eq!(started.auth_start.exact_scopes, "finance");
    assert_eq!(started.auth_start.caller, "https://caller.example/done");
    assert_eq!(started.auth_start.id.len(), 32);
    assert!(started.auth_start.id.chars().all(|c| c.is_ascii_alphanumeric()));
    // The attempt is retrievable by its id and matches the inputs exactly.
    let found = store
        .get_by_authorization_start_id(&started.auth_start.id)
        .ok()
        .unwrap()
        .unwrap();
    assert_eq!(found.user.id, "u1");
    assert_eq!(found.exact_scopes, "finance");
    assert_eq!(found.caller, "https://caller.example/done");
    // The user was created on first login.
    assert!(store.get_by_id("u1").is_some());
}

#[test]
fn begin_login_builds_the_authorization_url() {
    let mut store = TokenStore::new();
    let started = begin_login(&mut store, "u1", "scope one", "caller", "cid", "https://r.example/x")
        .ok()
        .unwrap();
    let url = started.redirect.location();
    let expected = format!(
        "https://start.exactonline.nl/api/oauth2/auth?client_id=cid&redirect_uri=https%3A%2F%2Fr.example%2Fx&state={}&response_type=code&force_login=1&scopes=scope%20one",
        started.auth_start.id
    );
    assert_eq!(url, expected);
}

#[test]
fn unknown_state_is_forbidden_and_writes_nothing() {
    let mut store = TokenStore::new();
    let user = store.create("u1").ok().unwrap();
    match complete_login_lookup(&store, "bogus-state") {
        Err(Error::Forbidden(_)) => {}
        _ => panic!("expected a forbidden error"),
    }
    // No token was written for the user.
    assert!(store.get_access_token(&user).is_none());
    assert!(store.get_refresh_token(&user).is_none());
}

#[test]
fn complete_login_persists_exactly_the_exchanged_tokens() {
    let mut store = TokenStore::new();
    let started = begin_login(&mut store, "u1", "s", "https://back.example", "cid", "ruri")
        .ok()
        .unwrap();
    let auth_start = complete_login_lookup(&store, &started.auth_start.id).ok().unwrap();
    let pair = TokenPair {
        access: "acc-1".to_owned(),
        refresh: "ref-1".to_owned(),
        access_expiry: 5000,
        refresh_expiry: 9000,
    };
    let redirect = complete_login_finish(&mut store, &auth_start, &pair);
    assert_eq!(redirect.location(), "https://back.example");
    let user = store.get_by_id("u1").unwrap();
    let access = store.get_access_token(&user).unwrap();
    assert_eq!(access.token, "acc-1");
    assert_eq!(access.expiry, 5000);
    let refresh = store.get_refresh_token(&user).unwrap();
    assert_eq!(refresh.token, "ref-1");
    assert_eq!(refresh.expiry, 9000);
}

#[test]
fn access_token_read_distinguishes_absence() {
    let mut store = TokenStore::new();
    match access_token_response(&store, "nobody") {
        Err(Error::NotFound) => {}
        _ => panic!("expected not-found for an unknown user"),
    }
    let user = store.create("u1").ok().unwrap();
    match access_token_response(&store, "u1") {
        Err(Error::NotFound) => {}
        _ => panic!("expected not-found without a stored token"),
    }
    store.set_access_token(&user, "tok", 77);
    let token = access_token_response(&store, "u1").ok().unwrap();
    assert_eq!(token.token, "tok");
    assert_eq!(token.expires_at, 77);
}

#[test]
fn status_codes_follow_the_error_taxonomy() {
    assert_eq!(Error::Dal(exactauth::store::Error::DuplicateUser).status_code(), 500);
    assert_eq!(Error::Forbidden("x".to_owned()).status_code(), 403);
    assert_eq!(Error::Transport("x".to_owned()).status_code(), 502);
    assert_eq!(
        Error::TokenExchangeError(TokenError::Transport("x".to_owned())).status_code(),
        502
    );
    assert_eq!(Error::TokenExchangeError(TokenError::InvalidGrant).status_code(), 400);
    assert_eq!(Error::TokenExchangeError(TokenError::Other("x".to_owned())).status_code(), 500);
    assert_eq!(Error::AuthClient(AuthErrorKind::Transport).status_code(), 502);
    assert_eq!(Error::AuthClient(AuthErrorKind::UnknownToken).status_code(), 403);
    assert_eq!(Error::AuthClient(AuthErrorKind::MissingScopes).status_code(), 403);
    assert_eq!(Error::AuthClient(AuthErrorKind::ProtocolError).status_code(), 500);
    assert_eq!(Error::AuthClient(AuthErrorKind::EncodeDecodeError).status_code(), 500);
    assert_eq!(Error::NotFound.status_code(), 404);
}
