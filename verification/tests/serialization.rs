use access_token::TokenRequest;

fn to_string(token_request: TokenRequest) -> String {
    token_request.serialize()
}

#[test]
fn serializing_client_credentials_token_request_to_url_encoded() {
    let token_request = TokenRequest::client_credentials(
        String::from("some id"),
        String::from("some secret"),
    );

    assert_eq!(
        to_string(token_request),
        format!(
            "{}{}",
            "grant_type=client_credentials",
            "&client_id=some+id&client_secret=some+secret",
        )
    );
}

#[test]
fn serializing_password_token_request_to_url_encoded() {
    let token_request = TokenRequest::password(
        String::from("some name"),
        String::from("some password"),
    );

    assert_eq!(
        to_string(token_request),
        format!(
            "{}{}",
            "grant_type=password",
            "&username=some+name&password=some+password",
        )
    );
}

#[test]
fn serializing_password_token_request_with_id_to_url_encoded() {
    let token_request = TokenRequest::password_with_client_id(
        String::from("some name"),
        String::from("some password"),
        String::from("some id"),
    );

    assert_eq!(
        to_string(token_request),
        format!(
            "{}{}",
            "grant_type=password&username=some+name",
            "&password=some+password&client_id=some+id",
        )
    );
}

#[test]
fn serializing_refresh_token_request_to_url_encoded() {
    let token_request = TokenRequest::refresh_token(String::from("token"));

    assert_eq!(
        to_string(token_request),
        "grant_type=refresh_token&refresh_token=token".to_owned(),
    );
}

#[test]
fn serializing_refresh_token_request_with_id_to_url_encoded() {
    let token_request = TokenRequest::refresh_token_with_client_id(
        String::from("token"),
        String::from("some id"),
    );

    assert_eq!(
        to_string(token_request),
        format!(
            "{}{}",
            "grant_type=refresh_token&refresh_token=token",
            "&client_id=some+id",
        )
    );
}

#[test]
fn serializing_percent_escapes_reserved_and_non_ascii() {
    let token_request = TokenRequest::password(
        String::from("a&b=c"),
        String::from("p\u{00e9}!"),
    );

    assert_eq!(
        to_string(token_request),
        "grant_type=password&username=a%26b%3Dc&password=p%C3%A9%21",
    );
}

#[test]
fn serializing_keeps_unreserved_characters() {
    let token_request = TokenRequest::client_credentials(
        String::from("Az09*-._"),
        String::from("x"),
    );

    assert_eq!(
        to_string(token_request),
        "grant_type=client_credentials&client_id=Az09*-._&client_secret=x",
    );
}

#[test]
fn add_client_id_overwrites_on_password() {
    let token_request = TokenRequest::password_with_client_id(
        String::from("u"),
        String::from("p"),
        String::from("first"),
    )
    .add_client_id(String::from("second"));

    assert_eq!(
        to_string(token_request),
        "grant_type=password&username=u&password=p&client_id=second",
    );
}

#[test]
fn add_client_id_sets_on_refresh_token() {
    let token_request = TokenRequest::refresh_token(String::from("t"))
        .add_client_id(String::from("id"));

    assert_eq!(
        to_string(token_request),
        "grant_type=refresh_token&refresh_token=t&client_id=id",
    );
}

#[test]
fn add_client_id_is_a_no_op_on_client_credentials() {
    let token_request = TokenRequest::client_credentials(
        String::from("id"),
        String::from("secret"),
    )
    .add_client_id(String::from("other"));

    assert_eq!(
        to_string(token_request),
        "grant_type=client_credentials&client_id=id&client_secret=secret",
    );
}
