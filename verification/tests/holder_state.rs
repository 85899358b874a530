use access_token::Error;
use access_token::InnerAccessToken;
use access_token::TokenRequest;
use access_token::TokenResponse;
use access_token::holder::refresh_delay_ms;

fn holder() -> InnerAccessToken {
    InnerAccessToken::new(
        String::from("http://localhost:8080/token"),
        TokenRequest::client_credentials(String::from("id"), String::from("secret")),
    )
}

fn response(token: &str, expires_in: i64) -> TokenResponse {
    TokenResponse {
        access_token: String::from(token),
        expires_in,
        refresh_token: None,
        refresh_expires_in: None,
    }
}

#[test]
fn holder_starts_without_a_token() {
    let h = holder();
    assert!(h.bearer().is_none());
    assert!(h.token_response().is_none());
    assert!(h.access_token().is_none());
    assert!(h.expires_in().is_none());
}

#[test]
fn successful_exchange_installs_the_token() {
    let mut h = holder();
    h.apply_exchange(Ok(response("abc", 100))).unwrap();
    assert_eq!(h.bearer().as_deref(), Some("Bearer abc"));
    assert_eq!(h.access_token().as_deref(), Some("abc"));
    assert_eq!(h.expires_in(), Some(100));
    let copy = h.token_response().unwrap();
    assert_eq!(copy.access_token, "abc");
    assert_eq!(copy.expires_in, 100);
}

#[test]
fn token_from_first_success_serves_readers_until_the_next_tick() {
    let mut h = holder();
    h.apply_exchange(Ok(response("abc", 100))).unwrap();
    // The next attempt is due only after 90 of the reported 100 seconds;
    // every read before it sees the installed credential.
    assert_eq!(h.refresh_delay_ms(), 90_000);
    for _ in 0..50 {
        assert_eq!(h.bearer().as_deref(), Some("Bearer abc"));
    }
}

#[test]
fn failed_refresh_keeps_the_previous_token() {
    let mut h = holder();
    h.apply_exchange(Ok(response("abc", 100))).unwrap();
    let e = h.apply_exchange(Err(Error::StatusCode(503))).unwrap_err();
    assert_eq!(e, Error::StatusCode(503));
    assert_eq!(h.bearer().as_deref(), Some("Bearer abc"));
    assert_eq!(h.expires_in(), Some(100));

    let e = h.apply_exchange(Err(Error::SendRequestError)).unwrap_err();
    assert_eq!(e, Error::SendRequestError);
    assert_eq!(h.bearer().as_deref(), Some("Bearer abc"));
}

#[test]
fn failed_first_exchange_leaves_the_holder_empty() {
    let mut h = holder();
    assert!(h.apply_exchange(Err(Error::PayloadError)).is_err());
    assert!(h.bearer().is_none());
}

#[test]
fn successful_refresh_replaces_the_token_wholesale() {
    let mut h = holder();
    h.apply_exchange(Ok(response("old", 100))).unwrap();
    h.apply_exchange(Ok(TokenResponse {
        access_token: String::from("new"),
        expires_in: 200,
        refresh_token: Some(String::from("r")),
        refresh_expires_in: Some(900),
    }))
    .unwrap();
    assert_eq!(h.bearer().as_deref(), Some("Bearer new"));
    assert_eq!(h.expires_in(), Some(200));
    let copy = h.token_response().unwrap();
    assert_eq!(copy.refresh_token.as_deref(), Some("r"));
    assert_eq!(copy.refresh_expires_in, Some(900));
}

#[test]
fn refresh_delay_falls_back_when_no_lifetime_is_known() {
    assert_eq!(refresh_delay_ms(None, 900), 54_000);
    assert_eq!(refresh_delay_ms(Some(100), 900), 90_000);
    assert_eq!(refresh_delay_ms(Some(100), 980), 98_000);
    assert_eq!(refresh_delay_ms(Some(-5), 900), 0);
    let h = holder();
    assert_eq!(h.refresh_delay_ms(), 54_000);
}

#[test]
fn bearer_header_value_comes_from_the_response() {
    let r = response("tok", 1);
    assert_eq!(r.bearer(), "Bearer tok");
}
