//! The gateway's error answers: an HTTP status, a short message and optional
//! details.

use vstd::prelude::*;

use crate::text::concat;

verus! {

/// Every way a request can be refused or fail at the gateway.
#[derive(Debug)]
pub enum GatewayError {
    /// Neither a bearer token nor an API key was sent.
    AuthRequired,
    /// The bearer token did not verify; carries the verifier's reason.
    InvalidToken(String),
    /// The API key matched no profile.
    InvalidApiKey,
    /// The caller's token bucket is empty.
    RateLimited,
    /// An admin route was called by a non-admin.
    AdminRequired,
    /// An admin update named no field that may be changed.
    NoValidFields,
    /// The profile store is not configured.
    SupabaseNotConfigured,
    /// The profile store could not be reached; carries the client's reason.
    SupabaseUnreachable(String),
    /// The request body could not be read; carries the reason.
    BodyReadFailed(String),
    /// The core engine could not be reached; carries the reason.
    UpstreamUnavailable(String),
    /// The core engine's answer could not be read; carries the reason.
    UpstreamReadFailed(String),
    /// The answer to the caller could not be built; carries the reason.
    ResponseBuildFailed(String),
}

impl GatewayError {
    /// The HTTP status of the answer.
    pub open spec fn status_spec(&self) -> u16 {
        match self {
            GatewayError::AuthRequired => 401,
            GatewayError::InvalidToken(_) => 401,
            GatewayError::InvalidApiKey => 401,
            GatewayError::RateLimited => 429,
            GatewayError::AdminRequired => 403,
            GatewayError::NoValidFields => 400,
            GatewayError::SupabaseNotConfigured => 503,
            GatewayError::SupabaseUnreachable(_) => 502,
            GatewayError::BodyReadFailed(_) => 400,
            GatewayError::UpstreamUnavailable(_) => 502,
            GatewayError::UpstreamReadFailed(_) => 502,
            GatewayError::ResponseBuildFailed(_) => 500,
        }
    }

    /// The `error` text of the answer.
    pub open spec fn message_spec(&self) -> Seq<char> {
        match self {
            GatewayError::AuthRequired => "Auth required"@,
            GatewayError::InvalidToken(_) => "Invalid token"@,
            GatewayError::InvalidApiKey => "Invalid API key"@,
            GatewayError::RateLimited => "Rate limit exceeded"@,
            GatewayError::AdminRequired => "Admin access required"@,
            GatewayError::NoValidFields => "No valid fields"@,
            GatewayError::SupabaseNotConfigured => "Supabase not configured"@,
            GatewayError::SupabaseUnreachable(e) => "supabase: "@ + e@,
            GatewayError::BodyReadFailed(_) => "Body read fail"@,
            GatewayError::UpstreamUnavailable(_) => "Upstream unavailable"@,
            GatewayError::UpstreamReadFailed(_) => "Read fail"@,
            GatewayError::ResponseBuildFailed(_) => "Build fail"@,
        }
    }

    /// The `details` text of the answer, where it has one.
    pub open spec fn details_spec(&self) -> Option<Seq<char>> {
        match self {
            GatewayError::AuthRequired => Some("Provide Bearer token or X-API-Key"@),
            GatewayError::InvalidToken(e) => Some(e@),
            GatewayError::BodyReadFailed(e) => Some(e@),
            GatewayError::UpstreamUnavailable(e) => Some(e@),
            GatewayError::UpstreamReadFailed(e) => Some(e@),
            GatewayError::ResponseBuildFailed(e) => Some(e@),
            _ => None,
        }
    }

    /// The HTTP status of the answer.
    pub fn status(&self) -> (r: u16)
        ensures
            r == self.status_spec(),
    {
        match self {
            GatewayError::AuthRequired => 401,
            GatewayError::InvalidToken(_) => 401,
            GatewayError::InvalidApiKey => 401,
            GatewayError::RateLimited => 429,
            GatewayError::AdminRequired => 403,
            GatewayError::NoValidFields => 400,
            GatewayError::SupabaseNotConfigured => 503,
            GatewayError::SupabaseUnreachable(_) => 502,
            GatewayError::BodyReadFailed(_) => 400,
            GatewayError::UpstreamUnavailable(_) => 502,
            GatewayError::UpstreamReadFailed(_) => 502,
            GatewayError::ResponseBuildFailed(_) => 500,
        }
    }

    /// The `error` text of the answer.
    pub fn message(&self) -> (r: String)
        ensures
            r@ == self.message_spec(),
    {
        match self {
            GatewayError::AuthRequired => "Auth required".to_owned(),
            GatewayError::InvalidToken(_) => "Invalid token".to_owned(),
            GatewayError::InvalidApiKey => "Invalid API key".to_owned(),
            GatewayError::RateLimited => "Rate limit exceeded".to_owned(),
            GatewayError::AdminRequired => "Admin access required".to_owned(),
            GatewayError::NoValidFields => "No valid fields".to_owned(),
            GatewayError::SupabaseNotConfigured => "Supabase not configured".to_owned(),
            GatewayError::SupabaseUnreachable(e) => concat("supabase: ", e.as_str()),
            GatewayError::BodyReadFailed(_) => "Body read fail".to_owned(),
            GatewayError::UpstreamUnavailable(_) => "Upstream unavailable".to_owned(),
            GatewayError::UpstreamReadFailed(_) => "Read fail".to_owned(),
            GatewayError::ResponseBuildFailed(_) => "Build fail".to_owned(),
        }
    }

    /// The `details` text of the answer, where it has one.
    pub fn details(&self) -> (r: Option<String>)
        ensures
            r matches Some(d) ==> self.details_spec() == Some(d@),
            r is None ==> self.details_spec() is None,
    {
        match self {
            GatewayError::AuthRequired => Some("Provide Bearer token or X-API-Key".to_owned()),
            GatewayError::InvalidToken(e) => Some(e.clone()),
            GatewayError::BodyReadFailed(e) => Some(e.clone()),
            GatewayError::UpstreamUnavailable(e) => Some(e.clone()),
            GatewayError::UpstreamReadFailed(e) => Some(e.clone()),
            GatewayError::ResponseBuildFailed(e) => Some(e.clone()),
            _ => None,
        }
    }
}

} // verus!
