use exactauth::exchange::{
    make_token_pair, parse_i64, token_error_from_code, OAuth2GrantType, TokenError,
    REFRESH_VALID_FOR_SEC, TOKEN_PATH,
};

#[test]
fn parse_plain_number() {
    assert_eq!(parse_i64("600"), Some(600));
    assert_eq!(parse_i64("0"), Some(0));
    assert_eq!(parse_i64("007"), Some(7));
}

#[test]
fn parse_signed_numbers() {
    assert_eq!(parse_i64("-42"), Some(-42));
    assert_eq!(parse_i64("+7"), Some(7));
}

#[test]
fn parse_extremes() {
    assert_eq!(parse_i64("9223372036854775807"), Some(i64::MAX));
    assert_eq!(parse_i64("-9223372036854775808"), Some(i64::MIN));
    assert_eq!(parse_i64("9223372036854775808"), None);
    assert_eq!(parse_i64("-9223372036854775809"), None);
    assert_eq!(parse_i64("99999999999999999999999"), None);
}

#[test]
fn parse_rejects_malformed() {
    assert_eq!(parse_i64(""), None);
    assert_eq!(parse_i64("+"), None);
    assert_eq!(parse_i64("-"), None);
    assert_eq!(parse_i64("12a"), None);
    assert_eq!(parse_i64(" 12"), None);
    assert_eq!(parse_i64("1 2"), None);
}

#[test]
fn invalid_grant_maps_to_the_invalid_grant_kind() {
    assert!(matches!(token_error_from_code("invalid_grant".to_owned()), TokenError::InvalidGrant));
}

#[test]
fn other_partner_errors_carry_the_code_verbatim() {
    match token_error_from_code("server_error".to_owned()) {
        TokenError::Other(code) => assert_eq!(code, "server_error"),
        _ => panic!("expected the opaque error kind"),
    }
    match token_error_from_code("invalid_client".to_owned()) {
        TokenError::Other(code) => assert_eq!(code, "invalid_client"),
        _ => panic!("expected the opaque error kind"),
    }
}

#[test]
fn token_pair_computes_absolute_expiries() {
    let pair = make_token_pair("acc".to_owned(), "ref".to_owned(), "600", 1_000_000)
        .ok()
        .unwrap();
    assert_eq!(pair.access, "acc");
    assert_eq!(pair.refresh, "ref");
    assert_eq!(pair.access_expiry, 1_000_600);
    assert_eq!(pair.refresh_expiry, 1_000_000 + 3600 * 24 * 30);
}

#[test]
fn token_pair_rejects_malformed_expires_in() {
    match make_token_pair("a".to_owned(), "r".to_owned(), "abc", 0) {
        Err(TokenError::Other(m)) => {
            assert_eq!(m, "Invalid value for 'expires_in', failed to parse 'abc' to i64");
        }
        _ => panic!("expected the opaque error kind"),
    }
}

#[test]
fn token_pair_rejects_out_of_range_expiry() {
    assert!(make_token_pair("a".to_owned(), "r".to_owned(), "600", i64::MAX).is_err());
}

#[test]
fn grant_type_strings() {
    assert_eq!(OAuth2GrantType::AuthorizationCode.grant_type_string(), "authorization_code");
    assert_eq!(OAuth2GrantType::RefreshToken.grant_type_string(), "refresh_token");
}

#[test]
fn token_endpoint_constants() {
    assert_eq!(TOKEN_PATH, "/api/oauth2/token");
    assert_eq!(REFRESH_VALID_FOR_SEC, 2_592_000);
}
