//! The gateway's own public answers: health and license.

use vstd::prelude::*;

verus! {

/// The health answer.
pub struct Health {
    pub status: String,
    pub version: String,
    pub uptime_secs: u64,
}

/// The health answer of a running gateway of `version`, up for
/// `uptime_secs` seconds: status `ok`.
pub fn health_report(version: &str, uptime_secs: u64) -> (r: Health)
    ensures
        r.status@ == "ok"@,
        r.version@ == version@,
        r.uptime_secs == uptime_secs,
{
    Health { status: "ok".to_owned(), version: version.to_owned(), uptime_secs }
}

/// The license answer.
pub struct LicenseInfo {
    pub license: String,
    pub source_code: String,
    pub notice: String,
}

/// The license the service is offered under.
pub open spec fn license_id() -> Seq<char> {
    "AGPL-3.0-or-later"@
}

/// The license answer: AGPL-3.0-or-later, where the source is, and the
/// operators' duty to publish it.
pub fn license_info() -> (r: LicenseInfo)
    ensures
        r.license@ == license_id(),
        r.source_code@ == "https://github.com/ext-sakamoro/ALICE-i18n-SaaS"@,
        r.notice@ == "SaaS operators must publish complete service source code under AGPL-3.0."@,
{
    LicenseInfo {
        license: "AGPL-3.0-or-later".to_owned(),
        source_code: "https://github.com/ext-sakamoro/ALICE-i18n-SaaS".to_owned(),
        notice: "SaaS operators must publish complete service source code under AGPL-3.0.".to_owned(),
    }
}

/// The header that names the license on the license answer: `X-License`
/// with the license's identifier.
pub fn license_header() -> (r: (&'static str, &'static str))
    ensures
        r.0@ == "X-License"@,
        r.1@ == license_id(),
{
    ("X-License", "AGPL-3.0-or-later")
}

} // verus!
