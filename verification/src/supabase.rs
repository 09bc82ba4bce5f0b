//! Addresses and answers of the profile store's REST interface.

use vstd::prelude::*;
use vstd::string::StringSliceAdditionalSpecFns;

use crate::errors::GatewayError;
use crate::text::{chars_of, last_piece, last_piece_of, parse_i64, parsed_i64, push_str, string_from_chars};

verus! {

/// Both the store's address and its service key are set.
pub open spec fn configured(url: Seq<char>, service_key: Seq<char>) -> bool {
    url.len() > 0 && service_key.len() > 0
}

/// Whether the store's address and service key are both set.
pub fn is_configured(url: &str, service_key: &str) -> (r: bool)
    ensures
        r == configured(url@, service_key@),
{
    !url.is_empty() && !service_key.is_empty()
}

/// `{base}/rest/v1/{path}`.
pub open spec fn rest_url_spec(base: Seq<char>, path: Seq<char>) -> Seq<char> {
    base + "/rest/v1/"@ + path
}

/// The REST address of `path` under the store at `base`.
pub fn rest_url(base: &str, path: &str) -> (r: String)
    ensures
        r@ == rest_url_spec(base@, path@),
{
    let mut out: Vec<char> = Vec::new();
    push_str(&mut out, base);
    push_str(&mut out, "/rest/v1/");
    push_str(&mut out, path);
    assert(out@ =~= rest_url_spec(base@, path@));
    string_from_chars(out.as_slice())
}

/// The address for a generic store request, refused with
/// `SupabaseNotConfigured` when the store has no address.
pub fn request_url(base: &str, path: &str) -> (r: Result<String, GatewayError>)
    ensures
        base@.len() == 0 ==> r matches Err(GatewayError::SupabaseNotConfigured),
        base@.len() > 0 ==> (r matches Ok(u) && u@ == rest_url_spec(base@, path@)),
{
    if base.is_empty() {
        Err(GatewayError::SupabaseNotConfigured)
    } else {
        Ok(rest_url(base, path))
    }
}

/// The address that counts the rows of `table` matching `filter`
/// (`{base}/rest/v1/{table}?select=id{filter}`), or `None` when the store has
/// no address and the count is zero without asking.
pub fn count_url(base: &str, table: &str, filter: &str) -> (r: Option<String>)
    ensures
        base@.len() == 0 ==> r is None,
        base@.len() > 0 ==> (r matches Some(u) && u@ == base@ + "/rest/v1/"@ + table@ + "?select=id"@ + filter@),
{
    if base.is_empty() {
        return None;
    }
    let mut out: Vec<char> = Vec::new();
    push_str(&mut out, base);
    push_str(&mut out, "/rest/v1/");
    push_str(&mut out, table);
    push_str(&mut out, "?select=id");
    push_str(&mut out, filter);
    assert(out@ =~= base@ + "/rest/v1/"@ + table@ + "?select=id"@ + filter@);
    Some(string_from_chars(out.as_slice()))
}

/// The row count that a `Content-Range` answer header reports: the number
/// after its last `/`, or zero where the header is missing or that piece is
/// not an `i64`.
pub open spec fn reported_count(header: Option<Seq<char>>) -> i64 {
    match header {
        None => 0,
        Some(h) => match parsed_i64(last_piece(h, '/')) {
            Some(n) => n,
            None => 0,
        },
    }
}

/// Reads the row count from a `Content-Range` header such as `0-0/42`.
pub fn count_from_content_range(header: Option<&str>) -> (r: i64)
    ensures
        r == reported_count(match header { Some(h) => Some(h@), None => None }),
{
    match header {
        None => 0,
        Some(h) => {
            let cs = chars_of(h);
            let piece = last_piece_of(cs.as_slice(), '/');
            match parse_i64(piece.as_slice()) {
                Some(n) => n,
                None => 0,
            }
        },
    }
}

/// The filter selecting today's usage rows: `&created_at=gte.{today}T00:00:00Z`.
pub fn today_usage_filter(today: &str) -> (r: String)
    ensures
        r@ == "&created_at=gte."@ + today@ + "T00:00:00Z"@,
{
    let mut out: Vec<char> = Vec::new();
    push_str(&mut out, "&created_at=gte.");
    push_str(&mut out, today);
    push_str(&mut out, "T00:00:00Z");
    assert(out@ =~= "&created_at=gte."@ + today@ + "T00:00:00Z"@);
    string_from_chars(out.as_slice())
}

/// Whether a request's usage is recorded: the store is configured and the
/// user id is 36 bytes long (a UUID).
pub fn should_record_usage(url: &str, service_key: &str, user_id: &str) -> (r: bool)
    ensures
        r == (configured(url@, service_key@) && user_id.spec_bytes().len() == 36),
{
    is_configured(url, service_key) && user_id.as_bytes().len() == 36
}

} // verus!
