//! Grant requests: one case per OAuth2 grant type, with the construction
//! helpers and the `add_client_id` transform.

use vstd::prelude::*;

verus! {

/// A description of a grant request to the token endpoint. Each variant
/// carries exactly the fields of its grant type; optional fields that are
/// absent are omitted from the serialized form entirely.
#[derive(Clone, Debug)]
pub enum TokenRequest {
    ClientCredentials { client_id: String, client_secret: String },
    Password { username: String, password: String, client_id: Option<String> },
    RefreshToken { refresh_token: String, client_id: Option<String> },
}

/// What `add_client_id` returns: `Password` and `RefreshToken` requests get
/// `client_id` set to the given value (overwriting any present one), while a
/// `ClientCredentials` request is returned unchanged.
pub open spec fn spec_add_client_id(r: TokenRequest, id: String) -> TokenRequest {
    match r {
        TokenRequest::ClientCredentials { .. } => r,
        TokenRequest::Password { username, password, client_id } => (TokenRequest::Password {
            username,
            password,
            client_id: Some(id),
        }),
        TokenRequest::RefreshToken { refresh_token, client_id } => (TokenRequest::RefreshToken {
            refresh_token,
            client_id: Some(id),
        }),
    }
}

impl TokenRequest {
    pub fn client_credentials(client_id: String, client_secret: String) -> (r: Self)
        ensures
            r == (TokenRequest::ClientCredentials { client_id, client_secret }),
    {
        TokenRequest::ClientCredentials { client_id, client_secret }
    }

    pub fn password(username: String, password: String) -> (r: Self)
        ensures
            r == (TokenRequest::Password { username, password, client_id: None }),
    {
        TokenRequest::Password { username, password, client_id: None }
    }

    pub fn password_with_client_id(username: String, password: String, client_id: String) -> (r:
        Self)
        ensures
            r == (TokenRequest::Password { username, password, client_id: Some(client_id) }),
    {
        TokenRequest::Password { username, password, client_id: Some(client_id) }
    }

    pub fn refresh_token(refresh_token: String) -> (r: Self)
        ensures
            r == (TokenRequest::RefreshToken { refresh_token, client_id: None }),
    {
        TokenRequest::RefreshToken { refresh_token, client_id: None }
    }

    pub fn refresh_token_with_client_id(refresh_token: String, client_id: String) -> (r: Self)
        ensures
            r == (TokenRequest::RefreshToken { refresh_token, client_id: Some(client_id) }),
    {
        TokenRequest::RefreshToken { refresh_token, client_id: Some(client_id) }
    }

    /// Set `client_id` on a `Password` or `RefreshToken` request; leave a
    /// `ClientCredentials` request untouched.
    pub fn add_client_id(self, client_id: String) -> (r: Self)
        ensures
            r == spec_add_client_id(self, client_id),
    {
        match self {
            TokenRequest::Password { username, password, client_id: _ } => {
                TokenRequest::password_with_client_id(username, password, client_id)
            },
            TokenRequest::RefreshToken { refresh_token, client_id: _ } => {
                TokenRequest::refresh_token_with_client_id(refresh_token, client_id)
            },
            other => other,
        }
    }
}

/// Overwrite law of `add_client_id`: applying it twice is the same as
/// applying it once with the second value, and a `ClientCredentials`
/// request always comes back unchanged.
pub proof fn lemma_add_client_id_overwrites(r: TokenRequest, a: String, b: String)
    ensures
        spec_add_client_id(spec_add_client_id(r, a), b) == spec_add_client_id(r, b),
        r is ClientCredentials ==> spec_add_client_id(r, a) == r,
{
}

} // verus!
