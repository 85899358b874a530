use access_token::Error;
use access_token::exchange::failure_event;
use access_token::exchange::interpret_response;

fn body(s: &str) -> Vec<u8> {
    s.as_bytes().to_vec()
}

#[test]
fn success_with_valid_body_returns_decoded_response() {
    let b = body(
        "{ \"access_token\": \"abc123\", \"expires_in\": 300, \
         \"refresh_token\": \"r1\", \"refresh_expires_in\": 1800, \
         \"token_type\": \"Bearer\", \"scope\": [\"openid\", {\"x\": 1}] }",
    );
    let r = interpret_response(200, &b).unwrap();
    assert_eq!(r.access_token, "abc123");
    assert_eq!(r.expires_in, 300);
    assert_eq!(r.refresh_token.as_deref(), Some("r1"));
    assert_eq!(r.refresh_expires_in, Some(1800));
}

#[test]
fn success_with_minimal_body_leaves_optional_fields_absent() {
    let b = body("{\"access_token\":\"t\",\"expires_in\":60}");
    let r = interpret_response(204, &b).unwrap();
    assert_eq!(r.access_token, "t");
    assert_eq!(r.expires_in, 60);
    assert!(r.refresh_token.is_none());
    assert!(r.refresh_expires_in.is_none());
}

#[test]
fn unexpected_status_is_reported_with_exactly_one_event() {
    let b = body("{\"error\":\"invalid_client\"}");
    let r = interpret_response(401, &b);
    assert_eq!(r.unwrap_err(), Error::StatusCode(401));

    let ev = failure_event(401, b.clone()).expect("one failure event");
    assert_eq!(ev.status, 401);
    assert_eq!(ev.body, b);

    assert!(failure_event(200, b).is_none());
}

#[test]
fn error_status_wins_even_over_a_parseable_body() {
    let b = body("{\"access_token\":\"t\",\"expires_in\":1}");
    assert_eq!(interpret_response(500, &b).unwrap_err(), Error::StatusCode(500));
}

#[test]
fn unparseable_body_is_a_parse_error() {
    assert_eq!(
        interpret_response(200, &body("not json")).unwrap_err(),
        Error::ParseError
    );
    assert_eq!(
        interpret_response(200, &body("{\"expires_in\": 5}")).unwrap_err(),
        Error::ParseError
    );
    assert_eq!(
        interpret_response(200, &body("{\"access_token\":\"t\"}")).unwrap_err(),
        Error::ParseError
    );
    assert_eq!(
        interpret_response(200, &body("{\"access_token\":\"t\",\"expires_in\":1.5}"))
            .unwrap_err(),
        Error::ParseError
    );
    assert_eq!(
        interpret_response(200, &body("{\"access_token\":7,\"expires_in\":1}"))
            .unwrap_err(),
        Error::ParseError
    );
    assert_eq!(
        interpret_response(200, &body("{\"access_token\":\"t\",\"expires_in\":1} x"))
            .unwrap_err(),
        Error::ParseError
    );
    assert_eq!(
        interpret_response(
            200,
            &body("{\"access_token\":\"t\",\"expires_in\":99999999999999999999}")
        )
        .unwrap_err(),
        Error::ParseError
    );
}

#[test]
fn string_escapes_decode_to_their_characters() {
    let b = body(
        "{\"access_token\":\"a\\u00e9\\n\\\"\\\\\\u0041\",\"expires_in\":1}",
    );
    let r = interpret_response(200, &b).unwrap();
    assert_eq!(r.access_token, "a\u{00e9}\n\"\\A");
}

#[test]
fn surrogate_pair_escapes_decode_and_lone_surrogates_fail() {
    let ok = body("{\"access_token\":\"\\ud83d\\ude00\",\"expires_in\":1}");
    let r = interpret_response(200, &ok).unwrap();
    assert_eq!(r.access_token, "\u{1f600}");

    let lone = body("{\"access_token\":\"\\ud83d\",\"expires_in\":1}");
    assert_eq!(interpret_response(200, &lone).unwrap_err(), Error::ParseError);
}

#[test]
fn null_optional_field_counts_as_absent() {
    let b = body(
        "{\"access_token\":\"t\",\"expires_in\":2,\"refresh_token\":null,\
         \"refresh_expires_in\":null}",
    );
    let r = interpret_response(200, &b).unwrap();
    assert!(r.refresh_token.is_none());
    assert!(r.refresh_expires_in.is_none());
}

#[test]
fn negative_and_extreme_lifetimes_parse_exactly() {
    let b = body("{\"access_token\":\"t\",\"expires_in\":-7}");
    assert_eq!(interpret_response(200, &b).unwrap().expires_in, -7);

    let b = body(
        "{\"access_token\":\"t\",\"expires_in\":9223372036854775807}",
    );
    assert_eq!(interpret_response(200, &b).unwrap().expires_in, i64::MAX);

    let b = body(
        "{\"access_token\":\"t\",\"expires_in\":-9223372036854775808}",
    );
    assert_eq!(interpret_response(200, &b).unwrap().expires_in, i64::MIN);
}

#[test]
fn later_duplicate_field_overwrites_earlier() {
    let b = body(
        "{\"access_token\":\"first\",\"expires_in\":1,\"access_token\":\"second\"}",
    );
    assert_eq!(interpret_response(200, &b).unwrap().access_token, "second");
}
