use exactauth::api::{build_authorize_url, get_exact_url, token_request_form};
use exactauth::client::{classify_response_status, get_url, AccessToken, ResponseDisposition};
use exactauth::exchange::OAuth2GrantType;
use exactauth::urlenc::encode_component;

#[test]
fn unreserved_bytes_pass_through() {
    assert_eq!(encode_component("abcXYZ019-_.~"), "abcXYZ019-_.~");
}

#[test]
fn reserved_bytes_are_percent_encoded_uppercase() {
    assert_eq!(encode_component("a b/c"), "a%20b%2Fc");
    assert_eq!(encode_component("x=y&z"), "x%3Dy%26z");
    assert_eq!(encode_component("100%"), "100%25");
}

#[test]
fn multi_byte_characters_encode_their_utf8_bytes() {
    assert_eq!(encode_component("é"), "%C3%A9");
    assert_eq!(encode_component(""), "");
}

#[test]
fn exact_url_prefixes_the_region_base() {
    assert_eq!(get_exact_url("/api/oauth2/token"), "https://start.exactonline.nl/api/oauth2/token");
    assert_eq!(get_exact_url(""), "https://start.exactonline.nl");
}

#[test]
fn authorize_url_carries_all_parameters_in_order() {
    let url = build_authorize_url("my client", "https://r.example/cb", "STATE123", "s1 s2");
    assert_eq!(
        url,
        "https://start.exactonline.nl/api/oauth2/auth?client_id=my%20client&redirect_uri=https%3A%2F%2Fr.example%2Fcb&state=STATE123&response_type=code&force_login=1&scopes=s1%20s2"
    );
}

#[test]
fn code_exchange_form_body() {
    let body = token_request_form(
        "cid",
        "sec ret",
        "https://r.example/cb",
        Some("CODE42"),
        None,
        OAuth2GrantType::AuthorizationCode,
    );
    assert_eq!(
        body,
        "code=CODE42&grant_type=authorization_code&client_id=cid&client_secret=sec%20ret&redirect_uri=https%3A%2F%2Fr.example%2Fcb"
    );
}

#[test]
fn refresh_form_body() {
    let body = token_request_form(
        "cid",
        "sec",
        "ruri",
        None,
        Some("REFRESH/1"),
        OAuth2GrantType::RefreshToken,
    );
    assert_eq!(
        body,
        "refresh_token=REFRESH%2F1&grant_type=refresh_token&client_id=cid&client_secret=sec&redirect_uri=ruri"
    );
}

#[test]
fn client_url_concatenates_base_and_path() {
    assert_eq!(get_url("https://auth.example", "/api/v1/access-token"), "https://auth.example/api/v1/access-token");
}

#[test]
fn access_token_from_parts_keeps_the_fields() {
    let t = AccessToken::from_parts("tok".to_owned(), 123);
    assert_eq!(t.token, "tok");
    assert_eq!(t.expires_at, 123);
}

#[test]
fn response_statuses_are_classified() {
    assert!(matches!(classify_response_status(403), ResponseDisposition::AuthFailure));
    assert!(matches!(classify_response_status(404), ResponseDisposition::HttpError));
    assert!(matches!(classify_response_status(500), ResponseDisposition::HttpError));
    assert!(matches!(classify_response_status(200), ResponseDisposition::Payload));
    assert!(matches!(classify_response_status(302), ResponseDisposition::Payload));
}
