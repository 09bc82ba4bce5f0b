use api_gateway::admin::{allowed_update, revenue_in_range, revenue_summary, update_path, UpdateTarget};
use api_gateway::auth::{
    admin_lookup_url, admin_subject, admin_verdict, api_key_claims, api_key_lookup_url, api_key_outcome,
    auth_step, bearer_outcome, default_api_key_claims, AuthStep, Claims, Profile,
};
use api_gateway::calendar::{chrono_today, civil_from_days, date_from_unix_secs, format_date, today_text, CivilDate};
use api_gateway::errors::GatewayError;
use api_gateway::proxy::{
    core_target_url, forwards_to_core, forwards_to_frontend, frontend_answer_header, frontend_target,
    frontend_failure_answer, strip_local_origins, upstream_status, FrontendFailure, HeaderDisposition,
};
use api_gateway::rate_limit::{admit_request, admit_request_at, plan_max_tokens, rate_limit_subject, TokenBucket};
use api_gateway::service::{health_report, license_header, license_info};
use api_gateway::supabase::{
    count_from_content_range, count_url, is_configured, request_url, rest_url, should_record_usage,
    today_usage_filter,
};
use api_gateway::text::{parse_i64, replace, strip_prefix};

fn claims(sub: &str, plan: Option<&str>) -> Claims {
    Claims {
        sub: sub.to_string(),
        email: None,
        role: Some("api".to_string()),
        exp: usize::MAX,
        plan: plan.map(|p| p.to_string()),
    }
}

fn chars(s: &str) -> Vec<char> {
    s.chars().collect()
}

#[test]
fn rate_limiter_basic() {
    let mut tb = TokenBucket::new(10, 10, 1);
    for _ in 0..10 {
        assert!(tb.try_consume());
    }
    assert!(!tb.try_consume());
}

#[test]
fn plan_rate_limits() {
    let limits: Vec<(&str, f64)> = vec![
        ("Free", 100.0), ("General", 1_000.0), ("Pro", 10_000.0), ("Enterprise", 100_000.0),
    ];
    for (plan, expected) in limits {
        let max = plan_max_tokens(plan) as f64;
        assert!((max - expected).abs() < f64::EPSILON, "plan {plan}");
    }
}

#[test]
fn chrono_today_format() {
    let d = chrono_today();
    assert_eq!(d.len(), 10);
    assert_eq!(&d[4..5], "-");
    assert_eq!(&d[7..8], "-");
}

#[test]
fn unknown_plans_get_the_free_limit() {
    assert_eq!(plan_max_tokens("free"), 100);
    assert_eq!(plan_max_tokens(""), 100);
    assert_eq!(plan_max_tokens("Pro "), 100);
}

#[test]
fn bucket_refills_over_time() {
    let mut tb = TokenBucket::new(2, 10, 1);
    assert_eq!(tb.last_refill_ns(), 0);
    assert!(tb.try_consume_at(0));
    assert!(tb.try_consume_at(0));
    assert!(!tb.try_consume_at(0));
    // A tenth of a second at ten tokens per second gives back one token.
    assert!(tb.try_consume_at(100_000_000));
    assert_eq!(tb.last_refill_ns(), 100_000_000);
    // The refill is measured from the previous request, not from creation.
    assert!(!tb.try_consume_at(199_999_999));
    assert_eq!(tb.whole_tokens(), 0);
    // Refill stops at the bucket's size.
    assert!(tb.try_consume_at(u128::MAX));
    assert_eq!(tb.whole_tokens(), 1);
}

#[test]
fn bucket_clock_goes_back_without_refill() {
    let mut tb = TokenBucket::new(1, 10, 1);
    assert!(tb.try_consume_at(500_000_000));
    assert!(!tb.try_consume_at(100_000_000));
    assert_eq!(tb.last_refill_ns(), 100_000_000);
}

#[test]
fn bucket_without_refill_stays_empty() {
    let mut tb = TokenBucket::new(1, 0, 1);
    assert!(tb.try_consume_at(0));
    assert!(!tb.try_consume_at(1_000_000_000_000));
}

#[test]
fn plan_bucket_refills_its_limit_per_hour() {
    let mut tb = TokenBucket::for_plan_limit(3600);
    assert_eq!(tb.max_tokens(), 3600);
    assert_eq!(tb.whole_tokens(), 3600);
    for _ in 0..3600 {
        assert!(tb.try_consume_at(0));
    }
    assert!(!tb.try_consume_at(0));
    // 3600 tokens per hour is one per second.
    assert!(!tb.try_consume_at(999_999_999));
    assert!(tb.try_consume_at(1_000_000_000));
}

#[test]
fn admissions_stay_within_the_window_bound() {
    // Ten tokens, ten per second: over half a second at most 10 + 5 requests pass.
    let mut tb = TokenBucket::new(10, 10, 1);
    let mut admitted = 0;
    for i in 0..1000u128 {
        if tb.try_consume_at(i * 500_000) {
            admitted += 1;
        }
    }
    assert!(admitted <= 15);
    assert!(admitted >= 14);
}

#[test]
fn admit_request_resets_on_plan_change() {
    let mut tb = TokenBucket::for_plan_limit(100);
    for _ in 0..100 {
        assert!(tb.try_consume_at(0));
    }
    // Same plan: the empty bucket is kept.
    assert!(!admit_request_at(&mut tb, 100, 0));
    // Off by one token: still kept.
    assert!(!admit_request_at(&mut tb, 101, 0));
    assert_eq!(tb.max_tokens(), 100);
    // A plan upgrade gives a fresh bucket, measured from this request.
    assert!(admit_request_at(&mut tb, 1000, 7));
    assert_eq!(tb.max_tokens(), 1000);
    assert_eq!(tb.whole_tokens(), 999);
    assert_eq!(tb.last_refill_ns(), 7);
    assert!(admit_request(&mut tb, 1000));
}

#[test]
fn rate_limit_subject_defaults() {
    let (uid, max) = rate_limit_subject(None);
    assert_eq!(uid, "anon");
    assert_eq!(max, 100);
    let c = claims("u-1", Some("Enterprise"));
    let (uid, max) = rate_limit_subject(Some(&c));
    assert_eq!(uid, "u-1");
    assert_eq!(max, 100_000);
    let c = claims("u-2", None);
    assert_eq!(rate_limit_subject(Some(&c)).1, 100);
}

#[test]
fn civil_dates_of_known_days() {
    assert_eq!(civil_from_days(0), CivilDate { year: 1970, month: 1, day: 1 });
    assert_eq!(civil_from_days(-1), CivilDate { year: 1969, month: 12, day: 31 });
    assert_eq!(civil_from_days(11016), CivilDate { year: 2000, month: 2, day: 29 });
    assert_eq!(civil_from_days(19723), CivilDate { year: 2024, month: 1, day: 1 });
    assert_eq!(civil_from_days(19782), CivilDate { year: 2024, month: 2, day: 29 });
    assert_eq!(civil_from_days(-719468), CivilDate { year: 0, month: 3, day: 1 });
    assert_eq!(civil_from_days(-719469), CivilDate { year: 0, month: 2, day: 29 });
}

#[test]
fn dates_of_unix_times() {
    assert_eq!(date_from_unix_secs(1725029869), CivilDate { year: 2024, month: 8, day: 30 });
    assert_eq!(date_from_unix_secs(86399), CivilDate { year: 1970, month: 1, day: 1 });
    assert_eq!(date_from_unix_secs(86400), CivilDate { year: 1970, month: 1, day: 2 });
    assert_eq!(date_from_unix_secs(-1), CivilDate { year: 1969, month: 12, day: 31 });
    assert_eq!(today_text(1725029869), "2024-08-30");
    assert_eq!(today_text(0), "1970-01-01");
}

#[test]
fn date_rendering_pads_like_format() {
    let d = CivilDate { year: 7, month: 3, day: 9 };
    assert_eq!(format_date(d), format!("{:04}-{:02}-{:02}", 7, 3, 9));
    let d = CivilDate { year: -5, month: 12, day: 31 };
    assert_eq!(format_date(d), format!("{:04}-{:02}-{:02}", -5, 12, 31));
    let d = CivilDate { year: 12345, month: 1, day: 1 };
    assert_eq!(format_date(d), "12345-01-01");
}

#[test]
fn parse_i64_follows_std() {
    for s in ["0", "42", "+7", "-7", "", "-", "+", "12a", "9223372036854775807", "9223372036854775808",
        "-9223372036854775808", "-9223372036854775809", "00012", "99999999999999999999999", " 1"] {
        assert_eq!(parse_i64(&chars(s)), s.parse::<i64>().ok(), "input {s:?}");
    }
}

#[test]
fn content_range_counts() {
    assert_eq!(count_from_content_range(Some("0-0/123")), 123);
    assert_eq!(count_from_content_range(Some("*/0")), 0);
    assert_eq!(count_from_content_range(Some("17")), 17);
    assert_eq!(count_from_content_range(Some("0-0/*")), 0);
    assert_eq!(count_from_content_range(Some("0-0/")), 0);
    assert_eq!(count_from_content_range(None), 0);
}

#[test]
fn replace_scans_left_to_right() {
    assert_eq!(replace("aaa", "aa", "b"), "aaa".replace("aa", "b"));
    assert_eq!(replace("xhttp://ay", "http://a", ""), "xy");
    assert_eq!(strip_local_origins("http://127.0.0.1:3000/login?next=http://localhost:3000/x"), "/login?next=/x");
    assert_eq!(strip_local_origins("https://example.com/"), "https://example.com/");
}

#[test]
fn prefixes() {
    assert_eq!(strip_prefix("Bearer abc", "Bearer "), Some("abc".to_string()));
    assert_eq!(strip_prefix("bearer abc", "Bearer "), None);
    assert_eq!(strip_prefix("Bearer", "Bearer "), None);
}

#[test]
fn bearer_token_wins_over_api_key() {
    match auth_step(Some("Bearer t0k"), Some("key")) {
        AuthStep::VerifyBearer(t) => assert_eq!(t, "t0k"),
        _ => panic!("expected a bearer token"),
    }
    match auth_step(Some("Basic xyz"), Some("key")) {
        AuthStep::CheckApiKey(k) => assert_eq!(k, "key"),
        _ => panic!("expected an API key"),
    }
    match auth_step(Some("Basic xyz"), None) {
        AuthStep::Reject(e) => {
            assert_eq!(e.status(), 401);
            assert_eq!(e.message(), "Auth required");
            assert_eq!(e.details(), Some("Provide Bearer token or X-API-Key".to_string()));
        }
        _ => panic!("expected a refusal"),
    }
    match auth_step(None, None) {
        AuthStep::Reject(GatewayError::AuthRequired) => {}
        _ => panic!("expected a refusal"),
    }
}

#[test]
fn credential_outcomes() {
    match bearer_outcome(Err("ExpiredSignature".to_string())) {
        Err(e) => {
            assert_eq!(e.status(), 401);
            assert_eq!(e.message(), "Invalid token");
            assert_eq!(e.details(), Some("ExpiredSignature".to_string()));
        }
        Ok(_) => panic!("expected a refusal"),
    }
    assert_eq!(bearer_outcome(Ok(claims("a", None))).unwrap().sub, "a");
    match api_key_outcome(None) {
        Err(e) => {
            assert_eq!(e.status(), 401);
            assert_eq!(e.message(), "Invalid API key");
            assert_eq!(e.details(), None);
        }
        Ok(_) => panic!("expected a refusal"),
    }
}

#[test]
fn api_key_claims_from_profiles() {
    let c = default_api_key_claims();
    assert_eq!(c.sub, "api-key-user");
    assert_eq!(c.role.as_deref(), Some("api"));
    assert_eq!(c.plan.as_deref(), Some("Free"));
    assert_eq!(c.exp, usize::MAX);
    assert!(c.email.is_none());

    assert!(api_key_claims(&vec![]).is_none());
    let found = api_key_claims(&vec![
        Profile { id: "p1".to_string(), plan: None },
        Profile { id: "p2".to_string(), plan: Some("Pro".to_string()) },
    ])
    .unwrap();
    assert_eq!(found.sub, "p1");
    assert_eq!(found.plan.as_deref(), Some("Free"));
    let found = api_key_claims(&vec![Profile { id: "p2".to_string(), plan: Some("Pro".to_string()) }]).unwrap();
    assert_eq!(found.plan.as_deref(), Some("Pro"));
    assert_eq!(
        api_key_lookup_url("https://db", "k1"),
        "https://db/rest/v1/profiles?api_key=eq.k1&select=id,plan"
    );
}

#[test]
fn admin_checks() {
    assert!(admin_verdict(Some(vec![Some("admin".to_string())])).is_ok());
    assert!(admin_verdict(Some(vec![Some("user".to_string()), Some("admin".to_string())])).is_err());
    assert!(admin_verdict(Some(vec![None])).is_err());
    assert!(admin_verdict(Some(vec![])).is_err());
    match admin_verdict(None) {
        Err(e) => {
            assert_eq!(e.status(), 403);
            assert_eq!(e.message(), "Admin access required");
        }
        Ok(()) => panic!("expected a refusal"),
    }
    assert_eq!(admin_subject(None), "");
    assert_eq!(admin_subject(Some(&claims("u9", None))), "u9");
    assert_eq!(admin_lookup_url("https://db", "u9"), "https://db/rest/v1/profiles?id=eq.u9&select=role");
}

#[test]
fn admin_updates_keep_allowed_fields() {
    let body = vec![("plan".to_string(), 1), ("email".to_string(), 2), ("banned".to_string(), 3)];
    let kept = allowed_update(UpdateTarget::User, body).ok().unwrap();
    assert_eq!(kept, vec![("plan".to_string(), 1), ("banned".to_string(), 3)]);
    let body = vec![("plan".to_string(), 1)];
    match allowed_update(UpdateTarget::Project, body) {
        Err(e) => {
            assert_eq!(e.status(), 400);
            assert_eq!(e.message(), "No valid fields");
        }
        Ok(_) => panic!("expected a refusal"),
    }
    let body: Vec<(String, u8)> = vec![("is_public".to_string(), 0), ("hidden".to_string(), 1)];
    assert_eq!(allowed_update(UpdateTarget::Project, body).ok().unwrap().len(), 2);
    assert!(allowed_update::<u8>(UpdateTarget::User, vec![]).is_err());
    assert_eq!(update_path(&UpdateTarget::User, "42"), "profiles?id=eq.42");
    assert_eq!(update_path(&UpdateTarget::Project, "7"), "projects?id=eq.7");
}

#[test]
fn revenue_counts_general_and_pro() {
    let r = revenue_summary(3, 2, 9);
    assert_eq!(r.mrr_jpy, 3 * 1500 + 2 * 5000);
    assert_eq!((r.general, r.pro, r.enterprise), (3, 2, 9));
    assert!(revenue_in_range(3, 2));
    assert!(!revenue_in_range(i64::MAX, 0));
    assert!(!revenue_in_range(0, i64::MAX / 4000));
}

#[test]
fn store_addresses() {
    assert!(is_configured("https://db", "key"));
    assert!(!is_configured("", "key"));
    assert!(!is_configured("https://db", ""));
    assert_eq!(rest_url("https://db", "api_usage"), "https://db/rest/v1/api_usage");
    assert_eq!(request_url("https://db", "x").ok().unwrap(), "https://db/rest/v1/x");
    match request_url("", "x") {
        Err(e) => {
            assert_eq!(e.status(), 503);
            assert_eq!(e.message(), "Supabase not configured");
        }
        Ok(_) => panic!("expected a refusal"),
    }
    assert_eq!(count_url("", "profiles", ""), None);
    assert_eq!(
        count_url("https://db", "profiles", "&plan=eq.Pro"),
        Some("https://db/rest/v1/profiles?select=id&plan=eq.Pro".to_string())
    );
    assert_eq!(today_usage_filter("2024-08-30"), "&created_at=gte.2024-08-30T00:00:00Z");
    assert!(should_record_usage("u", "k", "123e4567-e89b-12d3-a456-426614174000"));
    assert!(!should_record_usage("u", "k", "anon"));
    assert!(!should_record_usage("", "k", "123e4567-e89b-12d3-a456-426614174000"));
    match GatewayError::SupabaseUnreachable("timeout".to_string()) {
        e => {
            assert_eq!(e.status(), 502);
            assert_eq!(e.message(), "supabase: timeout");
            assert_eq!(e.details(), None);
        }
    }
}

#[test]
fn proxy_rules() {
    assert_eq!(upstream_status(200, 500), 200);
    assert_eq!(upstream_status(999, 500), 999);
    assert_eq!(upstream_status(99, 500), 500);
    assert_eq!(upstream_status(1000, 502), 502);
    assert_eq!(core_target_url("http://core", "/api/v1/x", Some("a=1")), "http://core/api/v1/x?a=1");
    assert_eq!(core_target_url("http://core", "/api/v1/x", None), "http://core/api/v1/x");
    assert!(!forwards_to_core("host"));
    assert!(forwards_to_core("transfer-encoding"));
    assert!(!forwards_to_frontend("transfer-encoding"));
    assert!(!forwards_to_frontend("host"));
    assert!(forwards_to_frontend("accept"));
    assert_eq!(frontend_target("http://fe", None), "http://fe/");
    assert_eq!(frontend_target("http://fe", Some("/a?b")), "http://fe/a?b");
    match frontend_answer_header("location", Some("http://localhost:3000/home")) {
        HeaderDisposition::Replace(v) => assert_eq!(v, "/home"),
        _ => panic!("expected a rewrite"),
    }
    assert!(matches!(frontend_answer_header("location", None), HeaderDisposition::Keep));
    assert!(matches!(frontend_answer_header("transfer-encoding", Some("chunked")), HeaderDisposition::Drop));
    assert!(matches!(frontend_answer_header("content-type", Some("text/html")), HeaderDisposition::Keep));
}

#[test]
fn error_answers() {
    let cases = [
        (GatewayError::RateLimited, 429, "Rate limit exceeded"),
        (GatewayError::BodyReadFailed("e".to_string()), 400, "Body read fail"),
        (GatewayError::UpstreamUnavailable("e".to_string()), 502, "Upstream unavailable"),
        (GatewayError::UpstreamReadFailed("e".to_string()), 502, "Read fail"),
        (GatewayError::ResponseBuildFailed("e".to_string()), 500, "Build fail"),
    ];
    for (e, status, message) in cases {
        assert_eq!(e.status(), status);
        assert_eq!(e.message(), message);
    }
    assert_eq!(GatewayError::RateLimited.details(), None);
    assert_eq!(GatewayError::UpstreamReadFailed("boom".to_string()).details(), Some("boom".to_string()));
}

#[test]
fn public_answers() {
    let h = health_report("0.1.0", 42);
    assert_eq!(h.status, "ok");
    assert_eq!(h.version, "0.1.0");
    assert_eq!(h.uptime_secs, 42);
    let l = license_info();
    assert_eq!(l.license, "AGPL-3.0-or-later");
    assert_eq!(l.source_code, "https://github.com/ext-sakamoro/ALICE-i18n-SaaS");
    assert_eq!(license_header(), ("X-License", "AGPL-3.0-or-later"));
}

#[test]
fn plan_bucket_is_full_again_after_an_hour() {
    let mut tb = TokenBucket::for_plan_limit(1000);
    for _ in 0..1000 {
        assert!(tb.try_consume_at(0));
    }
    assert_eq!(tb.whole_tokens(), 0);
    assert!(tb.try_consume_at(3_600_000_000_000));
    assert_eq!(tb.whole_tokens(), 999);
}

#[test]
fn frontend_failure_answers() {
    assert_eq!(frontend_failure_answer(FrontendFailure::Unavailable), (502, Some("text/plain"), "Frontend unavailable"));
    assert_eq!(frontend_failure_answer(FrontendFailure::BuildFailed), (500, None, "proxy error"));
}

#[test]
fn next_day_across_month_and_year_ends() {
    assert_eq!(today_text(1_709_164_800), "2024-02-29");
    assert_eq!(today_text(1_709_164_800 + 86_400), "2024-03-01");
    assert_eq!(today_text(1_735_603_200), "2024-12-31");
    assert_eq!(today_text(1_735_603_200 + 86_400), "2025-01-01");
    assert!(today_text(1_735_603_200) < today_text(1_735_603_200 + 86_400));
}

#[test]
fn admissions_after_an_idle_spell_stay_within_the_window_bound() {
    // Drained at 0, idle for 100 s, then half a second of requests: at most
    // the bucket's ten tokens plus five refilled ones pass.
    let mut tb = TokenBucket::new(10, 10, 1);
    for _ in 0..10 {
        assert!(tb.try_consume_at(0));
    }
    let t0: u128 = 100_000_000_000;
    let mut admitted = 0;
    for i in 0..1000u128 {
        if tb.try_consume_at(t0 + i * 500_000) {
            admitted += 1;
        }
    }
    assert_eq!(admitted, 14);
    // Per plan: 3600 per hour, idle, then ten seconds of requests on a fresh
    // window give at most 3600 + 10.
    let mut pb = TokenBucket::for_plan_limit(3600);
    let mut admitted = 0;
    for i in 0..10_000u128 {
        if admit_request_at(&mut pb, 3600, 7_200_000_000_000 + i * 1_000_000) {
            admitted += 1;
        }
    }
    assert!(admitted <= 3610);
    assert_eq!(admitted, 3609);
}
