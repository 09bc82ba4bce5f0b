//! Rules for passing requests on to the core engine and the frontend, and
//! their answers back.

use vstd::prelude::*;

use crate::text::{push_str, replace, replace_all, str_eq, string_from_chars};

verus! {

/// Checks a status number the way `http::StatusCode::from_u16` does and gives
/// the status's number back (`StatusCode::as_u16`). Trusted: `from_u16`
/// accepts exactly the numbers 100 through 999.
#[verifier::external_body]
fn status_code_from_u16(code: u16) -> (r: Option<u16>)
    ensures
        r == (if 100 <= code <= 999 { Some(code) } else { None::<u16> }),
{
    axum::http::StatusCode::from_u16(code).ok().map(|s| s.as_u16())
}

/// The status passed on for an upstream answer with status `code`: the same
/// status when it is a valid HTTP status (100 through 999), else `fallback`.
pub fn upstream_status(code: u16, fallback: u16) -> (r: u16)
    ensures
        r == (if 100 <= code <= 999 { code } else { fallback }),
{
    match status_code_from_u16(code) {
        Some(s) => s,
        None => fallback,
    }
}

/// `{core_url}{path}` followed by `?{query}` when the request has a query.
pub open spec fn core_target_spec(core_url: Seq<char>, path: Seq<char>, query: Option<Seq<char>>) -> Seq<char> {
    match query {
        Some(q) => core_url + path + "?"@ + q,
        None => core_url + path,
    }
}

/// Where a request for `path` (and `query`) is sent on the core engine.
pub fn core_target_url(core_url: &str, path: &str, query: Option<&str>) -> (r: String)
    ensures
        r@ == core_target_spec(core_url@, path@, match query { Some(q) => Some(q@), None => None }),
{
    let mut out: Vec<char> = Vec::new();
    push_str(&mut out, core_url);
    push_str(&mut out, path);
    match query {
        Some(q) => {
            push_str(&mut out, "?");
            push_str(&mut out, q);
            assert(out@ =~= core_url@ + path@ + "?"@ + q@);
        },
        None => {
            assert(out@ =~= core_url@ + path@);
        },
    }
    string_from_chars(out.as_slice())
}

/// Whether a request header (named in lower case, as HTTP header names are
/// held) is passed on to the core engine: all but `host`.
pub fn forwards_to_core(name: &str) -> (r: bool)
    ensures
        r == (name@ != "host"@),
{
    !str_eq(name, "host")
}

/// Whether a request header (named in lower case) is passed on to the
/// frontend: all but `host` and `transfer-encoding`.
pub fn forwards_to_frontend(name: &str) -> (r: bool)
    ensures
        r == (name@ != "host"@ && name@ != "transfer-encoding"@),
{
    !str_eq(name, "host") && !str_eq(name, "transfer-encoding")
}

/// `{frontend_url}{path_and_query}`, with `/` when the request has no path.
pub fn frontend_target(frontend_url: &str, path_and_query: Option<&str>) -> (r: String)
    ensures
        r@ == frontend_url@ + match path_and_query { Some(p) => p@, None => "/"@ },
{
    let mut out: Vec<char> = Vec::new();
    push_str(&mut out, frontend_url);
    match path_and_query {
        Some(p) => push_str(&mut out, p),
        None => push_str(&mut out, "/"),
    }
    string_from_chars(out.as_slice())
}

/// A redirect target with the frontend's local origins taken out: every
/// `http://127.0.0.1:3000`, then every `http://localhost:3000`.
pub open spec fn without_local_origins(location: Seq<char>) -> Seq<char> {
    replace_all(
        replace_all(location, "http://127.0.0.1:3000"@, Seq::empty()),
        "http://localhost:3000"@,
        Seq::empty(),
    )
}

/// Takes the frontend's local origins out of a `Location` value, so that
/// redirects stay on the gateway.
pub fn strip_local_origins(location: &str) -> (r: String)
    ensures
        r@ == without_local_origins(location@),
{
    proof {
        reveal_strlit("http://127.0.0.1:3000");
        reveal_strlit("http://localhost:3000");
        reveal_strlit("");
        assert(""@ =~= Seq::<char>::empty());
    }
    let first = replace(location, "http://127.0.0.1:3000", "");
    replace(first.as_str(), "http://localhost:3000", "")
}

/// What happens to a frontend answer header on its way back.
pub enum HeaderDisposition {
    /// Passed on unchanged.
    Keep,
    /// Left out.
    Drop,
    /// Passed on with this value.
    Replace(String),
}

/// A frontend answer header named `name` (lower case), whose value reads as
/// `value_text` when it is visible ASCII: `location` values are rewritten by
/// `without_local_origins`, `transfer-encoding` is dropped, and everything
/// else (a `location` whose value is not text too) is kept.
pub fn frontend_answer_header(name: &str, value_text: Option<&str>) -> (r: HeaderDisposition)
    ensures
        name@ == "location"@ && value_text is Some ==> (r matches HeaderDisposition::Replace(v)
            && v@ == without_local_origins(value_text->0@)),
        !(name@ == "location"@ && value_text is Some) && name@ == "transfer-encoding"@ ==> r is Drop,
        !(name@ == "location"@ && value_text is Some) && name@ != "transfer-encoding"@ ==> r is Keep,
{
    if str_eq(name, "location") {
        if let Some(loc) = value_text {
            return HeaderDisposition::Replace(strip_local_origins(loc));
        }
    }
    if str_eq(name, "transfer-encoding") {
        HeaderDisposition::Drop
    } else {
        HeaderDisposition::Keep
    }
}


/// Ways the frontend proxy can fail to pass an answer on.
pub enum FrontendFailure {
    /// The frontend could not be reached.
    Unavailable,
    /// The answer to the caller could not be built.
    BuildFailed,
}

/// The plain answer for a frontend failure: status, `Content-Type` where one
/// is set, and body. Unreachable frontend: 502, `text/plain`, `Frontend
/// unavailable`; unbuildable answer: 500, no content type, `proxy error`.
pub fn frontend_failure_answer(f: FrontendFailure) -> (r: (u16, Option<&'static str>, &'static str))
    ensures
        f is Unavailable ==> r.0 == 502 && r.2@ == "Frontend unavailable"@,
        f is Unavailable ==> (r.1 matches Some(t) && t@ == "text/plain"@),
        f is BuildFailed ==> r.0 == 500 && r.1 is None && r.2@ == "proxy error"@,
{
    match f {
        FrontendFailure::Unavailable => (502, Some("text/plain"), "Frontend unavailable"),
        FrontendFailure::BuildFailed => (500, None, "proxy error"),
    }
}

} // verus!
