//! Client-side OAuth2 token management: grant requests, their
//! `application/x-www-form-urlencoded` wire form, parsing of token-endpoint
//! responses, and the self-refreshing token holder's state machine.

use vstd::prelude::*;

pub mod exchange;
pub mod holder;
pub mod json;
pub mod request;
pub mod urlencode;

pub use exchange::Error;
pub use exchange::LogEvent;
pub use holder::InnerAccessToken;
pub use request::TokenRequest;
pub use request::spec_add_client_id;
pub use request::lemma_add_client_id_overwrites;

verus! {

/// A successful token exchange, as reported by the token endpoint.
#[derive(Clone, Debug)]
pub struct TokenResponse {
    pub access_token: String,
    pub expires_in: i64,
    pub refresh_token: Option<String>,
    pub refresh_expires_in: Option<i64>,
}

impl TokenResponse {
    /// A field-wise copy whose string contents read the same.
    pub fn duplicate(&self) -> (r: TokenResponse)
        ensures
            r.access_token@ == self.access_token@,
            r.expires_in == self.expires_in,
            r.refresh_token is Some <==> self.refresh_token is Some,
            r.refresh_token matches Some(x) ==> self.refresh_token matches Some(y) && x@ == y@,
            r.refresh_expires_in == self.refresh_expires_in,
    {
        TokenResponse {
            access_token: self.access_token.clone(),
            expires_in: self.expires_in,
            refresh_token: match &self.refresh_token {
                None => None,
                Some(s) => Some(s.clone()),
            },
            refresh_expires_in: self.refresh_expires_in,
        }
    }

    /// The `Authorization` header value this token grants.
    pub fn bearer(&self) -> (r: String)
        ensures
            r@ == "Bearer "@ + self.access_token@,
    {
        let mut s = String::new();
        s.append("Bearer ");
        s.append(self.access_token.as_str());
        s
    }
}

impl PartialEq for TokenResponse {
    /// Field-wise equality, string contents compared by their characters.
    fn eq(&self, other: &TokenResponse) -> (r: bool) {
        let tok = self.access_token.eq(&other.access_token);
        let exp = self.expires_in == other.expires_in;
        let rt = match (&self.refresh_token, &other.refresh_token) {
            (None, None) => true,
            (Some(a), Some(b)) => a.eq(b),
            _ => false,
        };
        let re = match (self.refresh_expires_in, other.refresh_expires_in) {
            (None, None) => true,
            (Some(a), Some(b)) => a == b,
            _ => false,
        };
        tok && exp && rt && re
    }
}

impl vstd::std_specs::cmp::PartialEqSpecImpl for TokenResponse {
    open spec fn obeys_eq_spec() -> bool {
        true
    }

    open spec fn eq_spec(&self, other: &TokenResponse) -> bool {
        crate::holder::response_like(*self, *other)
    }
}

} // verus!
