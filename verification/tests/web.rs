use babylon::config::{
    funnel_active_from_status,
    check_funnel, check_funnel_prod, default_bind, default_db, lenient_bool, Config, FunnelCheck, FunnelRefusal,
    LenientBool,
};
use babylon::error::{map_err, Error, McpErrorKind};
use babylon::web::{
    check_csrf, cookie_value, csrf_cookie, ct_eq, dashboard_access, dev_no_auth_allowed, err_status, history_params, host_allowed,
    host_only, is_loopback, mint_kind, post_request_check,
};
use babylon::types::AgentKind;

#[test]
fn host_only_strips_scheme_and_port() {
    assert_eq!(host_only("https://evil.com:443/x"), "evil.com");
    assert_eq!(host_only("127.0.0.1:8787"), "127.0.0.1");
    assert_eq!(host_only("http://[::1]:8787"), "::1");
    assert_eq!(host_only("babylon.example.ts.net"), "babylon.example.ts.net");
}

#[test]
fn loopback_detection() {
    assert!(is_loopback("127.0.0.1"));
    assert!(is_loopback("localhost"));
    assert!(is_loopback("::1"));
    assert!(!is_loopback("evil.com"));
}

#[test]
fn host_allowlist() {
    let allowed = vec!["babylon.example.ts.net".to_string()];
    assert!(host_allowed("127.0.0.1", &allowed));
    assert!(host_allowed("babylon.example.ts.net", &allowed));
    assert!(!host_allowed("evil.com", &allowed));
}

#[test]
fn constant_time_eq() {
    assert!(ct_eq("abc", "abc"));
    assert!(!ct_eq("abc", "abd"));
    assert!(!ct_eq("abc", "abcd"));
    assert!(!ct_eq("", "x"));
}

#[test]
fn dev_guard() {
    assert!(dev_no_auth_allowed("127.0.0.1:8787"));
    assert!(dev_no_auth_allowed("localhost:8787"));
    assert!(dev_no_auth_allowed("::1:8787"));
    assert!(!dev_no_auth_allowed("0.0.0.0:8787"));
    assert!(!dev_no_auth_allowed("10.0.0.5:8787"));
}

#[test]
fn host_only_handles_queries_fragments_and_bare_ipv6() {
    assert_eq!(host_only("  https://a.b.c/path?q=1  "), "a.b.c");
    assert_eq!(host_only("host.example?x"), "host.example");
    assert_eq!(host_only("host.example#frag"), "host.example");
    assert_eq!(host_only("[fe80::1]"), "fe80::1");
    assert_eq!(host_only(""), "");
    assert!(host_allowed("babylon.example.ts.net", &["https://babylon.example.ts.net:443".to_string()]));
}

#[test]
fn cookie_value_finds_the_named_pair() {
    assert_eq!(cookie_value(Some("a=1; babylon_csrf=tok ; b=2"), "babylon_csrf").as_deref(), Some("tok"));
    assert_eq!(cookie_value(Some("junk; babylon_csrf=x"), "babylon_csrf").as_deref(), Some("x"));
    assert_eq!(cookie_value(Some("a=1;b=2"), "babylon_csrf"), None);
    assert_eq!(cookie_value(Some("a=1=2"), "a").as_deref(), Some("1=2"));
    assert_eq!(cookie_value(None, "a"), None);
}

#[test]
fn csrf_needs_matching_cookie_and_header_from_an_allowed_origin() {
    let allowed = vec!["babylon.example.ts.net".to_string()];
    let cookie = Some("babylon_csrf=tok");
    assert_eq!(check_csrf(None, cookie, Some("tok"), &allowed), Ok(()));
    assert_eq!(check_csrf(Some("http://127.0.0.1:8787"), cookie, Some("tok"), &allowed), Ok(()));
    assert_eq!(check_csrf(Some("https://evil.com"), cookie, Some("tok"), &allowed), Err(403));
    assert_eq!(check_csrf(None, cookie, Some("other"), &allowed), Err(403));
    assert_eq!(check_csrf(None, None, Some("tok"), &allowed), Err(403));
    assert_eq!(check_csrf(None, Some("babylon_csrf="), Some(""), &allowed), Err(403));
}

#[test]
fn dashboard_access_requires_owner_host_and_csrf_on_writes() {
    let allowed = vec!["babylon.example.ts.net".to_string()];
    let ok_host = Some("127.0.0.1:8787");
    assert_eq!(dashboard_access(None, Some("me"), ok_host, false, None, None, None, &allowed), Err(403));
    assert_eq!(dashboard_access(Some("me"), Some("you"), ok_host, false, None, None, None, &allowed), Err(403));
    assert_eq!(dashboard_access(Some("me"), None, ok_host, false, None, None, None, &allowed), Err(403));
    assert_eq!(dashboard_access(Some("me"), Some("me"), Some("evil.com"), false, None, None, None, &allowed), Err(403));
    assert_eq!(dashboard_access(Some("me"), Some("me"), ok_host, false, None, None, None, &allowed), Ok(()));
    assert_eq!(dashboard_access(Some("me"), Some("me"), ok_host, true, None, None, None, &allowed), Err(403));
    assert_eq!(
        dashboard_access(Some("me"), Some("me"), ok_host, true, None, Some("babylon_csrf=t"), Some("t"), &allowed),
        Ok(())
    );
}

#[test]
fn err_status_maps_each_refusal() {
    assert_eq!(err_status(&Error::UnknownChannel("x".into())), 404);
    assert_eq!(err_status(&Error::UnknownHandle("x".into())), 404);
    assert_eq!(err_status(&Error::HandleExists("x".into())), 409);
    assert_eq!(err_status(&Error::ChannelExists("x".into())), 409);
    assert_eq!(err_status(&Error::Unauthorized), 403);
    assert_eq!(err_status(&Error::TokenRevoked), 403);
    assert_eq!(err_status(&Error::NotAuthorizedToResolve(3)), 403);
    assert_eq!(err_status(&Error::TooLarge("summary".into())), 400);
    assert_eq!(err_status(&Error::TaskNeedsAssignee), 400);
    assert_eq!(err_status(&Error::NotSubscribed("x".into())), 400);
}

#[test]
fn history_missing_channel_returns_400() {
    assert_eq!(history_params(None, None), Err(400));
    assert_eq!(history_params(Some(""), Some(10)), Err(400));
    assert_eq!(history_params(Some("deploy"), None), Ok(("deploy".to_string(), 50)));
    assert_eq!(history_params(Some("deploy"), Some(0)), Ok(("deploy".to_string(), 50)));
    assert_eq!(history_params(Some("deploy"), Some(7)), Ok(("deploy".to_string(), 7)));
    assert_eq!(history_params(Some("deploy"), Some(5000)), Ok(("deploy".to_string(), 200)));
}

#[test]
fn dashboard_post_checks_kind_and_task_assignee() {
    assert_eq!(post_request_check("note", &[]), Ok(()));
    assert_eq!(post_request_check("memo", &[]), Err(400));
    assert_eq!(post_request_check("task", &[]), Err(400));
    assert_eq!(post_request_check("task", &["deploy".to_string()]), Ok(()));
    assert_eq!(mint_kind(Some("operator")), AgentKind::Operator);
    assert_eq!(mint_kind(Some("agent")), AgentKind::Agent);
    assert_eq!(mint_kind(None), AgentKind::Agent);
}

#[test]
fn lenient_switches_and_defaults() {
    assert_eq!(default_db(), "babylon.db");
    assert_eq!(default_bind(), "127.0.0.1:8787");
    assert_eq!(lenient_bool(&LenientBool::Bool(true)), Ok(true));
    assert_eq!(lenient_bool(&LenientBool::Int(0)), Ok(false));
    assert_eq!(lenient_bool(&LenientBool::Int(-3)), Ok(true));
    assert_eq!(lenient_bool(&LenientBool::Str(" YES ".into())), Ok(true));
    assert_eq!(lenient_bool(&LenientBool::Str("Off".into())), Ok(false));
    assert_eq!(lenient_bool(&LenientBool::Str("".into())), Ok(false));
    assert_eq!(lenient_bool(&LenientBool::Str(" Maybe ".into())), Err("maybe".to_string()));
}

#[test]
fn funnel_check_skips_in_dev_and_when_allowed() {
    let cfg = |dev: bool, allow: bool| Config {
        db_path: "babylon.db".into(),
        bind: "127.0.0.1:8787".into(),
        dev_no_auth: dev,
        allow_funnel: allow,
    };
    assert!(matches!(check_funnel(&cfg(true, false)), FunnelCheck::SkipDevMode));
    assert!(matches!(check_funnel(&cfg(false, true)), FunnelCheck::SkipAllowed));
    assert!(matches!(check_funnel(&cfg(false, false)), FunnelCheck::Probe));
    assert!(check_funnel_prod(Some(false)).is_ok());
    assert!(matches!(check_funnel_prod(Some(true)), Err(FunnelRefusal::Active)));
    assert!(matches!(check_funnel_prod(None), Err(FunnelRefusal::Unknown)));
    assert!(FunnelRefusal::Active.message().contains("BABYLON_ALLOW_FUNNEL=1"));
}

#[test]
fn tool_errors_are_classified_and_worded() {
    let (k, m) = map_err(&Error::NotSubscribed("deploy".into()));
    assert!(matches!(k, McpErrorKind::InvalidRequest));
    assert_eq!(m, "not subscribed to channel: deploy");
    let (k, m) = map_err(&Error::BadReplyTarget(-4));
    assert!(matches!(k, McpErrorKind::InvalidParams));
    assert_eq!(m, "reply target invalid: -4");
    assert_eq!(
        Error::HandleExists("code".into()).message(),
        "handle already exists: code; use rotate_token to get a new token"
    );
    assert_eq!(Error::NotAuthorizedToResolve(12).message(), "not authorized to resolve message 12");
    let (k, m) = map_err(&Error::RandomUnavailable);
    assert_eq!(k, McpErrorKind::Internal);
    assert_eq!(m, "internal error");
    assert_eq!(err_status(&Error::RandomUnavailable), 500);
    assert_eq!(Error::RandomUnavailable.message(), "random source unavailable");
}

#[test]
fn csrf_cookie_is_same_site_secure_for_a_day() {
    assert_eq!(
        csrf_cookie("tok123"),
        "babylon_csrf=tok123; SameSite=Strict; Secure; Path=/; Max-Age=86400"
    );
    assert_eq!(cookie_value(Some(&csrf_cookie("abc")), "babylon_csrf").as_deref(), Some("abc"));
}

#[test]
fn funnel_status_is_read_from_the_tailscale_answer() {
    assert_eq!(funnel_active_from_status(true, br#"{"AllowFunnel":{"host:443":true}}"#), Some(true));
    assert_eq!(funnel_active_from_status(true, br#"{"AllowFunnel":{"a:443":false,"b:8443":true}}"#), Some(true));
    assert_eq!(funnel_active_from_status(true, br#"{"AllowFunnel":{"host:443":false}}"#), Some(false));
    assert_eq!(funnel_active_from_status(true, br#"{"TCP":{}}"#), Some(false));
    assert_eq!(funnel_active_from_status(true, b"not json"), None);
    assert_eq!(funnel_active_from_status(false, br#"{"AllowFunnel":{"host:443":true}}"#), None);
}
