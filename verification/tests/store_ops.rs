use exactauth::store::{Error, OAuth2Tokentype, TokenStore};

#[test]
fn create_and_get_user() {
    let mut store = TokenStore::new();
    assert!(store.get_by_id("u1").is_none());
    let user = store.create("u1").ok().unwrap();
    assert_eq!(user.id, "u1");
    let found = store.get_by_id("u1").unwrap();
    assert_eq!(found.id, "u1");
}

#[test]
fn create_duplicate_user_fails() {
    let mut store = TokenStore::new();
    store.create("u1").ok().unwrap();
    match store.create("u1") {
        Err(Error::DuplicateUser) => {}
        _ => panic!("expected a duplicate-user error"),
    }
    assert_eq!(store.list_all().len(), 1);
}

#[test]
fn list_all_keeps_insertion_order() {
    let mut store = TokenStore::new();
    store.create("a").ok().unwrap();
    store.create("b").ok().unwrap();
    store.create("c").ok().unwrap();
    let users = store.list_all();
    let ids: Vec<String> = users.into_iter().map(|u| u.id).collect();
    assert_eq!(ids, vec!["a".to_owned(), "b".to_owned(), "c".to_owned()]);
}

#[test]
fn token_type_strings_are_stable() {
    assert_eq!(OAuth2Tokentype::Access.get_token_type_string(), "Access");
    assert_eq!(OAuth2Tokentype::Refresh.get_token_type_string(), "Refresh");
}

#[test]
fn get_token_absent_is_none() {
    let mut store = TokenStore::new();
    let user = store.create("u1").ok().unwrap();
    assert!(store.get_access_token(&user).is_none());
    assert!(store.get_refresh_token(&user).is_none());
}

#[test]
fn set_token_then_get_returns_it() {
    let mut store = TokenStore::new();
    let user = store.create("u1").ok().unwrap();
    store.set_access_token(&user, "tok-a", 1000);
    store.set_refresh_token(&user, "tok-r", 2000);
    let access = store.get_access_token(&user).unwrap();
    assert_eq!(access.token, "tok-a");
    assert_eq!(access.expiry, 1000);
    let refresh = store.get_refresh_token(&user).unwrap();
    assert_eq!(refresh.token, "tok-r");
    assert_eq!(refresh.expiry, 2000);
}

#[test]
fn set_access_token_twice_keeps_latest_values() {
    let mut store = TokenStore::new();
    let user = store.create("u1").ok().unwrap();
    store.set_access_token(&user, "first", 100);
    store.set_access_token(&user, "second", 200);
    let access = store.get_access_token(&user).unwrap();
    assert_eq!(access.token, "second");
    assert_eq!(access.expiry, 200);
    // The refresh row is untouched by access-token writes.
    assert!(store.get_refresh_token(&user).is_none());
}

#[test]
fn tokens_of_different_users_do_not_mix() {
    let mut store = TokenStore::new();
    let u1 = store.create("u1").ok().unwrap();
    let u2 = store.create("u2").ok().unwrap();
    store.set_access_token(&u1, "a1", 10);
    store.set_access_token(&u2, "a2", 20);
    assert_eq!(store.get_access_token(&u1).unwrap().token, "a1");
    assert_eq!(store.get_access_token(&u2).unwrap().token, "a2");
}

#[test]
fn start_authorization_records_the_inputs() {
    let mut store = TokenStore::new();
    let user = store.create("u1").ok().unwrap();
    let start = store
        .start_authorization(&user, "finance read", "https://caller.example/return")
        .ok()
        .unwrap();
    assert_eq!(start.id.len(), 32);
    assert!(start.id.chars().all(|c| c.is_ascii_alphanumeric()));
    assert_eq!(start.user.id, "u1");
    assert_eq!(start.exact_scopes, "finance read");
    assert_eq!(start.caller, "https://caller.example/return");
}

#[test]
fn authorization_start_is_retrievable_by_id() {
    let mut store = TokenStore::new();
    let user = store.create("u1").ok().unwrap();
    let start = store.start_authorization(&user, "scope-x", "caller-y").ok().unwrap();
    let found = store.get_by_authorization_start_id(&start.id).ok().unwrap().unwrap();
    assert_eq!(found.id, start.id);
    assert_eq!(found.user.id, "u1");
    assert_eq!(found.exact_scopes, "scope-x");
    assert_eq!(found.caller, "caller-y");
    assert_eq!(found.timestamp, start.timestamp);
}

#[test]
fn insert_start_persists_under_the_given_id() {
    let mut store = TokenStore::new();
    let user = store.create("u1").ok().unwrap();
    let start = store
        .insert_start(&user, "state-fixed-1".to_owned(), 4242, "scope-z", "caller-z")
        .ok()
        .unwrap();
    assert_eq!(start.id, "state-fixed-1");
    assert_eq!(start.timestamp, 4242);
    let found = store.get_by_authorization_start_id("state-fixed-1").ok().unwrap().unwrap();
    assert_eq!(found.user.id, "u1");
    assert_eq!(found.timestamp, 4242);
    assert_eq!(found.exact_scopes, "scope-z");
    assert_eq!(found.caller, "caller-z");
}

#[test]
fn insert_start_refuses_a_colliding_id() {
    let mut store = TokenStore::new();
    let user = store.create("u1").ok().unwrap();
    store.insert_start(&user, "state-dup".to_owned(), 1, "s1", "c1").ok().unwrap();
    match store.insert_start(&user, "state-dup".to_owned(), 2, "s2", "c2") {
        Err(Error::DuplicateAuthorizationId(id)) => assert_eq!(id, "state-dup"),
        _ => panic!("expected a duplicate-id error"),
    }
    // The stored attempt is the first one, untouched.
    let found = store.get_by_authorization_start_id("state-dup").ok().unwrap().unwrap();
    assert_eq!(found.timestamp, 1);
    assert_eq!(found.exact_scopes, "s1");
    assert_eq!(found.caller, "c1");
}

#[test]
fn unknown_authorization_start_is_absent() {
    let mut store = TokenStore::new();
    store.create("u1").ok().unwrap();
    let found = store.get_by_authorization_start_id("nosuchstate").ok().unwrap();
    assert!(found.is_none());
}
