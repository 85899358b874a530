//! The self-refreshing credential holder's state: the current token (absent
//! until the first successful exchange), the fixed endpoint and request, the
//! install step that each exchange attempt ends in, and the schedule for the
//! next refresh.

use vstd::prelude::*;

use crate::TokenResponse;
use crate::exchange::Error;
use crate::request::TokenRequest;

verus! {

/// Fraction of the reported lifetime after which the next refresh runs,
/// in thousandths.
pub const DEFAULT_REFRESH_FACTOR_PERMILLE: u64 = 900;

/// Assumed lifetime, in seconds, when no token or no lifetime is at hand.
pub const FALLBACK_DELAY_SECS: u64 = 60;

/// The holder's state between exchanges.
pub struct InnerAccessToken {
    pub token_response: Option<TokenResponse>,
    pub endpoint: String,
    pub token_request: TokenRequest,
}

/// The state after one exchange attempt ends: a successful exchange
/// replaces the held token wholesale, a failed one changes nothing.
pub open spec fn spec_install(
    s: InnerAccessToken,
    outcome: Result<TokenResponse, Error>,
) -> InnerAccessToken {
    match outcome {
        Result::Ok(t) => (InnerAccessToken {
            token_response: Some(t),
            endpoint: s.endpoint,
            token_request: s.token_request,
        }),
        Result::Err(_) => s,
    }
}

/// Milliseconds until the next refresh: the reported lifetime (the fallback
/// when none is at hand, zero when it is negative), scaled by the refresh
/// factor. `secs * permille` is exactly `secs * 1000 * (permille / 1000)`.
pub open spec fn spec_refresh_delay_ms(expires_in: Option<i64>, factor_permille: u64) -> int {
    let base: int = match expires_in {
        Option::None => FALLBACK_DELAY_SECS as int,
        Option::Some(e) => if e < 0 {
            0
        } else {
            e as int
        },
    };
    base * factor_permille
}

/// Milliseconds until the next refresh attempt.
pub fn refresh_delay_ms(expires_in: Option<i64>, factor_permille: u64) -> (r: u128)
    requires
        0 < factor_permille < 1000,
    ensures
        r == spec_refresh_delay_ms(expires_in, factor_permille),
{
    let base: u64 = match expires_in {
        None => FALLBACK_DELAY_SECS,
        Some(e) => if e < 0 {
            0
        } else {
            e as u64
        },
    };
    proof {
        assert((base as int) * (factor_permille as int) <= (u64::MAX as int) * 1000)
            by (nonlinear_arith)
            requires
                base as int <= u64::MAX as int,
                0 <= factor_permille as int <= 1000,
        ;
    }
    (base as u128) * (factor_permille as u128)
}

/// Field-wise sameness of two responses, string contents compared by view.
pub open spec fn response_like(a: TokenResponse, b: TokenResponse) -> bool {
    &&& a.access_token@ == b.access_token@
    &&& a.expires_in == b.expires_in
    &&& (a.refresh_token is Some <==> b.refresh_token is Some)
    &&& (a.refresh_token matches Some(x) ==> b.refresh_token matches Some(y) && x@ == y@)
    &&& a.refresh_expires_in == b.refresh_expires_in
}

impl InnerAccessToken {
    /// A holder with no token yet, before the first exchange.
    pub fn new(endpoint: String, token_request: TokenRequest) -> (r: InnerAccessToken)
        ensures
            r.token_response is None,
            r.endpoint == endpoint,
            r.token_request == token_request,
    {
        InnerAccessToken { token_response: None, endpoint, token_request }
    }

    /// Install the outcome of one exchange attempt: a success replaces the
    /// held token atomically (the caller holds the write side only for this
    /// call), a failure is handed back and leaves the held token untouched.
    pub fn apply_exchange(&mut self, outcome: Result<TokenResponse, Error>) -> (r: Result<
        (),
        Error,
    >)
        ensures
            *final(self) == spec_install(*old(self), outcome),
            r is Ok <==> outcome is Ok,
            outcome matches Err(e) ==> r == Result::<(), Error>::Err(e),
    {
        match outcome {
            Ok(t) => {
                self.token_response = Some(t);
                Ok(())
            },
            Err(e) => Err(e),
        }
    }

    /// The reported lifetime of the held token, if one is held.
    pub fn expires_in(&self) -> (r: Option<i64>)
        ensures
            r == match self.token_response {
                Option::None => Option::<i64>::None,
                Option::Some(t) => Option::Some(t.expires_in),
            },
    {
        match &self.token_response {
            None => None,
            Some(t) => Some(t.expires_in),
        }
    }

    /// Milliseconds until the next refresh of this holder, at the default
    /// refresh factor.
    pub fn refresh_delay_ms(&self) -> (r: u128)
        ensures
            r == spec_refresh_delay_ms(
                match self.token_response {
                    Option::None => Option::<i64>::None,
                    Option::Some(t) => Option::Some(t.expires_in),
                },
                DEFAULT_REFRESH_FACTOR_PERMILLE,
            ),
    {
        refresh_delay_ms(self.expires_in(), DEFAULT_REFRESH_FACTOR_PERMILLE)
    }

    /// The held access token, if one is held.
    pub fn access_token(&self) -> (r: Option<String>)
        ensures
            r is Some <==> self.token_response is Some,
            r matches Some(s) ==> self.token_response matches Some(t) && s@ == t.access_token@,
    {
        match &self.token_response {
            None => None,
            Some(t) => Some(t.access_token.clone()),
        }
    }

    /// A copy of the held response, if one is held.
    pub fn token_response(&self) -> (r: Option<TokenResponse>)
        ensures
            r is Some <==> self.token_response is Some,
            r matches Some(t) ==> self.token_response matches Some(h) && response_like(t, h),
    {
        match &self.token_response {
            None => None,
            Some(t) => Some(t.duplicate()),
        }
    }

    /// The `Authorization` header value of the held token, if one is held.
    pub fn bearer(&self) -> (r: Option<String>)
        ensures
            r is Some <==> self.token_response is Some,
            r matches Some(s) ==> self.token_response matches Some(t) && s@ == "Bearer "@
                + t.access_token@,
    {
        match &self.token_response {
            None => None,
            Some(t) => Some(t.bearer()),
        }
    }
}

/// Availability over freshness: once a token is held, no failed refresh
/// attempt, however many, removes or changes it; the holder keeps serving
/// the last successfully exchanged token.
pub proof fn lemma_failed_refresh_retains_token(
    s: InnerAccessToken,
    t: TokenResponse,
    e: Error,
)
    ensures
        spec_install(spec_install(s, Result::Ok(t)), Result::Err(e)).token_response == Some(t),
        spec_install(s, Result::Err(e)) == s,
{
}

} // verus!
