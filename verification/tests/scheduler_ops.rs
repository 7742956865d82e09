use exactauth::exchange::{make_token_pair, TokenPair};
use exactauth::scheduler::{
    apply_refresh_result, needs_refresh, next_interval_sec, refresh_candidates,
    JOB_FAIL_INTERVAL_SEC, JOB_INTERVAL_SEC,
};
use exactauth::store::TokenStore;

#[test]
fn refresh_boundary_is_twenty_nine_seconds() {
    // Concrete boundary cases: 28 seconds left renews, 30 does not.
    assert!(needs_refresh(1028, 1000));
    assert!(!needs_refresh(1030, 1000));
    // Exactly 29 seconds left does not renew.
    assert!(!needs_refresh(1029, 1000));
    // Already expired always renews.
    assert!(needs_refresh(1000, 1000));
    assert!(needs_refresh(500, 1000));
}

#[test]
fn users_without_both_tokens_are_skipped() {
    let mut store = TokenStore::new();
    let u1 = store.create("u1").ok().unwrap();
    let u2 = store.create("u2").ok().unwrap();
    store.create("u3").ok().unwrap();
    // u1 has only an access token, u2 only a refresh token, u3 nothing.
    store.set_access_token(&u1, "a", 0);
    store.set_refresh_token(&u2, "r", 0);
    assert!(refresh_candidates(&store, 1000).is_empty());
}

#[test]
fn expired_access_tokens_are_scheduled_in_user_order() {
    let mut store = TokenStore::new();
    let u1 = store.create("u1").ok().unwrap();
    let u2 = store.create("u2").ok().unwrap();
    let u3 = store.create("u3").ok().unwrap();
    store.set_access_token(&u1, "a1", 900);
    store.set_refresh_token(&u1, "r1", 99999);
    store.set_access_token(&u2, "a2", 99999);
    store.set_refresh_token(&u2, "r2", 99999);
    store.set_access_token(&u3, "a3", 1020);
    store.set_refresh_token(&u3, "r3", 99999);
    let plan = refresh_candidates(&store, 1000);
    assert_eq!(plan.len(), 2);
    assert_eq!(plan[0].user_id, "u1");
    assert_eq!(plan[0].refresh_token, "r1");
    assert_eq!(plan[1].user_id, "u3");
    assert_eq!(plan[1].refresh_token, "r3");
}

#[test]
fn identical_refresh_token_is_not_rewritten() {
    let mut store = TokenStore::new();
    let user = store.create("u1").ok().unwrap();
    store.set_refresh_token(&user, "r1", 100);
    let pair = TokenPair {
        access: "a2".to_owned(),
        refresh: "r1".to_owned(),
        access_expiry: 700,
        refresh_expiry: 999_999,
    };
    apply_refresh_result(&mut store, &user, "r1", &pair);
    // The access token was written; the refresh row kept its old expiry,
    // which shows no refresh-token write happened.
    assert_eq!(store.get_access_token(&user).unwrap().token, "a2");
    let refresh = store.get_refresh_token(&user).unwrap();
    assert_eq!(refresh.token, "r1");
    assert_eq!(refresh.expiry, 100);
}

#[test]
fn rotated_refresh_token_is_persisted() {
    let mut store = TokenStore::new();
    let user = store.create("u1").ok().unwrap();
    store.set_refresh_token(&user, "r1", 100);
    let pair = TokenPair {
        access: "a2".to_owned(),
        refresh: "r2".to_owned(),
        access_expiry: 700,
        refresh_expiry: 999_999,
    };
    apply_refresh_result(&mut store, &user, "r1", &pair);
    let refresh = store.get_refresh_token(&user).unwrap();
    assert_eq!(refresh.token, "r2");
    assert_eq!(refresh.expiry, 999_999);
}

#[test]
fn one_pass_renews_an_expired_user_end_to_end() {
    // User u1 holds a valid refresh token r1 and an expired access token.
    let mut store = TokenStore::new();
    let u1 = store.create("u1").ok().unwrap();
    store.set_access_token(&u1, "a1", 900);
    store.set_refresh_token(&u1, "r1", 5_000_000);
    let now: i64 = 1000;
    // One scheduler pass would call the partner with r1.
    let plan = refresh_candidates(&store, now);
    assert_eq!(plan.len(), 1);
    assert_eq!(plan[0].user_id, "u1");
    assert_eq!(plan[0].refresh_token, "r1");
    // The partner answers with a new access token and the same refresh token.
    let pair = make_token_pair("a2".to_owned(), "r1".to_owned(), "600", now).ok().unwrap();
    apply_refresh_result(&mut store, &u1, &plan[0].refresh_token, &pair);
    // Afterwards the access token is renewed and the refresh token unchanged.
    let access = store.get_access_token(&u1).unwrap();
    assert_eq!(access.token, "a2");
    assert_eq!(access.expiry, 1600);
    let refresh = store.get_refresh_token(&u1).unwrap();
    assert_eq!(refresh.token, "r1");
    assert_eq!(refresh.expiry, 5_000_000);
    // Nothing is left to renew at the same instant.
    assert!(refresh_candidates(&store, now).is_empty());
}

#[test]
fn sleep_intervals() {
    assert_eq!(next_interval_sec(true), 15);
    assert_eq!(next_interval_sec(false), 5);
    assert_eq!(JOB_INTERVAL_SEC, 15);
    assert_eq!(JOB_FAIL_INTERVAL_SEC, 5);
}
