//! Who is calling: claims, the choice between bearer token and API key, and
//! the admin check.

use vstd::prelude::*;

use crate::errors::GatewayError;
use crate::supabase::{configured, is_configured, rest_url, rest_url_spec};
use crate::text::{has_prefix, push_str, str_eq, string_from_chars, strip_prefix};

verus! {

/// The text of an optional string.
pub open spec fn opt_text(o: Option<String>) -> Option<Seq<char>> {
    match o {
        Some(s) => Some(s@),
        None => None,
    }
}

/// The identity attached to an authenticated request.
pub struct Claims {
    pub sub: String,
    pub email: Option<String>,
    pub role: Option<String>,
    pub exp: usize,
    pub plan: Option<String>,
}

/// A profile row found for an API key.
pub struct Profile {
    pub id: String,
    pub plan: Option<String>,
}

/// The claims of an API-key caller with profile id `sub` and plan `plan`:
/// role `api`, no email, no expiry.
pub open spec fn api_claims(c: Claims, sub: Seq<char>, plan: Seq<char>) -> bool {
    &&& c.sub@ == sub
    &&& c.email is None
    &&& opt_text(c.role) == Some("api"@)
    &&& c.exp == usize::MAX
    &&& opt_text(c.plan) == Some(plan)
}

/// The claims every API key gets while the profile store is not configured.
pub fn default_api_key_claims() -> (c: Claims)
    ensures
        api_claims(c, "api-key-user"@, "Free"@),
{
    Claims {
        sub: "api-key-user".to_owned(),
        email: None,
        role: Some("api".to_owned()),
        exp: usize::MAX,
        plan: Some("Free".to_owned()),
    }
}

/// The claims of an API key from the profiles it matched: the first profile,
/// with plan `Free` where it has none; `None` when nothing matched.
pub fn api_key_claims(profiles: &Vec<Profile>) -> (r: Option<Claims>)
    ensures
        profiles@.len() == 0 ==> r is None,
        profiles@.len() > 0 ==> (r matches Some(c) && api_claims(
            c,
            profiles@[0].id@,
            match opt_text(profiles@[0].plan) { Some(p) => p, None => "Free"@ },
        )),
{
    if profiles.len() == 0 {
        return None;
    }
    let p = &profiles[0];
    let plan = match &p.plan {
        Some(s) => s.clone(),
        None => "Free".to_owned(),
    };
    Some(Claims {
        sub: p.id.clone(),
        email: None,
        role: Some("api".to_owned()),
        exp: usize::MAX,
        plan: Some(plan),
    })
}

/// The profile-store address that looks up an API key:
/// `{base}/rest/v1/profiles?api_key=eq.{key}&select=id,plan`.
pub fn api_key_lookup_url(base: &str, key: &str) -> (r: String)
    ensures
        r@ == rest_url_spec(base@, "profiles?api_key=eq."@ + key@ + "&select=id,plan"@),
{
    let mut path: Vec<char> = Vec::new();
    push_str(&mut path, "profiles?api_key=eq.");
    push_str(&mut path, key);
    push_str(&mut path, "&select=id,plan");
    assert(path@ =~= "profiles?api_key=eq."@ + key@ + "&select=id,plan"@);
    let path = string_from_chars(path.as_slice());
    rest_url(base, path.as_str())
}

/// What to do with a request's credentials.
pub enum AuthStep {
    /// Verify this bearer token.
    VerifyBearer(String),
    /// Look up this API key.
    CheckApiKey(String),
    /// Refuse the request.
    Reject(GatewayError),
}

/// How a request's `Authorization` and `X-API-Key` headers are used: a
/// `Bearer ` authorization wins; otherwise an API key is looked up;
/// otherwise the request is refused with `AuthRequired`.
pub open spec fn auth_step_spec(authorization: Option<Seq<char>>, api_key: Option<Seq<char>>, step: AuthStep) -> bool {
    if authorization is Some && has_prefix(authorization->0, "Bearer "@) {
        let a = authorization->0;
        step matches AuthStep::VerifyBearer(t) && t@ == a.subrange(7, a.len() as int)
    } else if api_key is Some {
        step matches AuthStep::CheckApiKey(k) && k@ == api_key->0
    } else {
        step matches AuthStep::Reject(GatewayError::AuthRequired)
    }
}

/// Chooses how to authenticate a request from its `Authorization` and
/// `X-API-Key` header texts.
pub fn auth_step(authorization: Option<&str>, api_key: Option<&str>) -> (r: AuthStep)
    ensures
        auth_step_spec(
            match authorization { Some(a) => Some(a@), None => None },
            match api_key { Some(k) => Some(k@), None => None },
            r,
        ),
{
    if let Some(a) = authorization {
        proof {
            reveal_strlit("Bearer ");
        }
        if let Some(token) = strip_prefix(a, "Bearer ") {
            return AuthStep::VerifyBearer(token);
        }
    }
    match api_key {
        Some(k) => AuthStep::CheckApiKey(k.to_owned()),
        None => AuthStep::Reject(GatewayError::AuthRequired),
    }
}

/// The answer to a bearer token: its claims when it verified, otherwise
/// `InvalidToken` with the verifier's reason.
pub open spec fn bearer_outcome_spec(decoded: Result<Claims, String>) -> Result<Claims, GatewayError> {
    match decoded {
        Ok(c) => Ok(c),
        Err(e) => Err(GatewayError::InvalidToken(e)),
    }
}

/// The answer to a bearer token whose verification gave `decoded`.
pub fn bearer_outcome(decoded: Result<Claims, String>) -> (r: Result<Claims, GatewayError>)
    ensures
        r == bearer_outcome_spec(decoded),
{
    match decoded {
        Ok(c) => Ok(c),
        Err(e) => Err(GatewayError::InvalidToken(e)),
    }
}

/// The answer to an API key: its claims when it matched, otherwise
/// `InvalidApiKey`.
pub open spec fn api_key_outcome_spec(found: Option<Claims>) -> Result<Claims, GatewayError> {
    match found {
        Some(c) => Ok(c),
        None => Err(GatewayError::InvalidApiKey),
    }
}

/// The answer to an API key whose lookup gave `found`.
pub fn api_key_outcome(found: Option<Claims>) -> (r: Result<Claims, GatewayError>)
    ensures
        r == api_key_outcome_spec(found),
{
    match found {
        Some(c) => Ok(c),
        None => Err(GatewayError::InvalidApiKey),
    }
}

/// The answer to a request's credentials after the step `step`: the bearer
/// token's verification gave `decoded`, or the API key's lookup gave `found`.
pub open spec fn authentication(step: AuthStep, decoded: Result<Claims, String>, found: Option<Claims>) -> Result<Claims, GatewayError> {
    match step {
        AuthStep::VerifyBearer(_) => bearer_outcome_spec(decoded),
        AuthStep::CheckApiKey(_) => api_key_outcome_spec(found),
        AuthStep::Reject(e) => Err(e),
    }
}

/// Access control: a request is let through only with claims from its
/// verified bearer token, or, when it sent no bearer token, from its API
/// key's lookup; every refusal is a 401. An invalid bearer token is refused
/// even when an API key is sent too.
pub proof fn lemma_access_control(
    authorization: Option<Seq<char>>,
    api_key: Option<Seq<char>>,
    step: AuthStep,
    decoded: Result<Claims, String>,
    found: Option<Claims>,
)
    requires
        auth_step_spec(authorization, api_key, step),
    ensures
        ({
            let outcome = authentication(step, decoded, found);
            &&& outcome is Err ==> outcome->Err_0.status_spec() == 401
            &&& outcome is Ok ==> (step is VerifyBearer && decoded == Ok::<Claims, String>(outcome->Ok_0))
                || (step is CheckApiKey && found == Some(outcome->Ok_0))
            &&& (authorization is Some && has_prefix(authorization->0, "Bearer "@)) ==> step is VerifyBearer
            &&& (authorization is None && api_key is None) ==> outcome matches Err(GatewayError::AuthRequired)
        }),
{
}

/// The user id of a request for admin checks: the claims' subject, or empty.
pub fn admin_subject(claims: Option<&Claims>) -> (r: String)
    ensures
        claims is Some ==> r@ == claims->0.sub@,
        claims is None ==> r@ == Seq::<char>::empty(),
{
    match claims {
        Some(c) => c.sub.clone(),
        None => String::new(),
    }
}

/// Whether admin routes consult the profile store: only when it is
/// configured; otherwise every caller is let through.
pub fn admin_check_required(url: &str, service_key: &str) -> (r: bool)
    ensures
        r == configured(url@, service_key@),
{
    is_configured(url, service_key)
}

/// The profile-store address that reads a user's role:
/// `{base}/rest/v1/profiles?id=eq.{uid}&select=role`.
pub fn admin_lookup_url(base: &str, uid: &str) -> (r: String)
    ensures
        r@ == rest_url_spec(base@, "profiles?id=eq."@ + uid@ + "&select=role"@),
{
    let mut path: Vec<char> = Vec::new();
    push_str(&mut path, "profiles?id=eq.");
    push_str(&mut path, uid);
    push_str(&mut path, "&select=role");
    assert(path@ =~= "profiles?id=eq."@ + uid@ + "&select=role"@);
    let path = string_from_chars(path.as_slice());
    rest_url(base, path.as_str())
}

/// The caller is an admin: the role lookup succeeded and its first row has
/// role `admin`.
pub open spec fn is_admin_spec(roles: Option<Seq<Option<String>>>) -> bool {
    match roles {
        Some(rows) => rows.len() > 0 && opt_text(rows[0]) == Some("admin"@),
        None => false,
    }
}

/// Lets an admin through and refuses anyone else with `AdminRequired`;
/// `roles` holds the `role` of each row the lookup gave, `None` where the
/// lookup or its decoding failed.
pub fn admin_verdict(roles: Option<Vec<Option<String>>>) -> (r: Result<(), GatewayError>)
    ensures
        is_admin_spec(match roles { Some(v) => Some(v@), None => None }) ==> r is Ok,
        !is_admin_spec(match roles { Some(v) => Some(v@), None => None }) ==> r matches Err(GatewayError::AdminRequired),
{
    let admin = match &roles {
        Some(rows) => rows.len() > 0 && match &rows[0] {
            Some(role) => str_eq(role.as_str(), "admin"),
            None => false,
        },
        None => false,
    };
    if admin {
        Ok(())
    } else {
        Err(GatewayError::AdminRequired)
    }
}

} // verus!
