use querypie_cli::auth::cookies::{
    cookie_header, has_cookie, read_cookies, refresh_cookies_if_needed, refresh_step, refresh_wanted_by,
    RefreshAction, RefreshEvent, RefreshPhase,
};
use querypie_cli::auth::error::{is_login_canceled, AuthError};
use querypie_cli::auth::known_hosts;
use querypie_cli::auth::service::{
    cookie_from_stdout, is_auth_expired, verdict_of, AuthService, CheckAction, CheckEvent, CheckPhase,
    CookieAction, CookieEvent, CookiePhase, Verdict,
};
use querypie_cli::auth::status::{AuthCheck, AuthState};
use querypie_cli::auth::AuthSession;
use querypie_cli::failure::Failure;
use querypie_cli::paths::normalize_host;
use querypie_cli::qpapi::grpcweb::GrpcError;

fn expired_error() -> Failure {
    Failure::Grpc(GrpcError {
        code: "16".to_string(),
        app_code: 0,
        message: "Access token expired".to_string(),
        domain: "ENGINE".to_string(),
    })
}

#[test]
fn detects_login_canceled_error() {
    let err = Failure::Auth(AuthError::LoginCanceled);
    assert!(is_login_canceled(&err));
}

#[test]
fn other_errors_are_not_canceled_logins() {
    assert!(!is_login_canceled(&Failure::Message("boom".to_string())));
    assert!(!is_login_canceled(&expired_error()));
}

#[test]
fn detects_auth_expired_grpc_error() {
    let err = expired_error();
    assert!(is_auth_expired(&err));
}

#[test]
fn auth_expired_ignores_other_errors() {
    let err = Failure::Grpc(GrpcError {
        code: "10".to_string(),
        app_code: 0,
        message: "SessionNotFound".to_string(),
        domain: "ENGINE".to_string(),
    });
    assert!(!is_auth_expired(&err));
    assert!(!is_auth_expired(&Failure::Message("access token expired".to_string())));
}

#[test]
fn normalizes_host_input() {
    let cases = [
        ("https://querypie.example.com/", "querypie.example.com"),
        ("querypie.example.com", "querypie.example.com"),
    ];
    for (input, expected) in cases {
        let normalized = normalize_host(input);
        assert_eq!(normalized, expected);
    }
}

#[test]
fn service_normalizes_and_requires_host() {
    let service = AuthService::new(" http://querypie.example.com// ").unwrap();
    assert_eq!(service.host(), "querypie.example.com");
    match AuthService::new("  https:// ") {
        Err(Failure::Message(m)) => assert_eq!(m, "auth: host is required"),
        _ => panic!("expected a missing host"),
    }
}

#[test]
fn cookie_from_stdout_trims_output() {
    assert_eq!(cookie_from_stdout(b"  a=1; b=2 \n".to_vec()).unwrap(), Some("a=1; b=2".to_string()));
    assert_eq!(cookie_from_stdout(b" \n".to_vec()).unwrap(), None);
    assert!(cookie_from_stdout(vec![0xff, 0xfe]).is_err());
}

#[test]
fn has_cookie_needs_a_value() {
    assert!(has_cookie("a=1; qp_access_token=tok", "qp_access_token"));
    assert!(has_cookie(" qp_access_token = tok ", "qp_access_token"));
    assert!(!has_cookie("qp_access_token=  ; a=1", "qp_access_token"));
    assert!(!has_cookie("qp_access_token", "qp_access_token"));
    assert!(has_cookie("qp_access_token=x; qp_access_token=", "qp_access_token"));
}

#[test]
fn cookie_header_sorts_and_keeps_last_value() {
    let pairs = vec![
        ("b".to_string(), "2".to_string()),
        ("a".to_string(), "1".to_string()),
        ("b".to_string(), "3".to_string()),
        ("c".to_string(), String::new()),
    ];
    assert_eq!(cookie_header(&pairs), Some("a=1; b=3".to_string()));
    assert_eq!(cookie_header(&vec![("c".to_string(), String::new())]), None);
}

#[test]
fn read_cookies_keeps_headers_with_access_token() {
    assert_eq!(
        read_cookies(Some("qp_access_token=t".to_string())),
        Some("qp_access_token=t".to_string())
    );
    assert_eq!(read_cookies(Some("other=t".to_string())), None);
    assert_eq!(read_cookies(None), None);
}

#[test]
fn known_hosts_are_sorted_and_unique() {
    let hosts = known_hosts(
        vec!["b.example".to_string(), "a.example".to_string()],
        vec!["b.example".to_string(), "c.example".to_string()],
    );
    assert_eq!(hosts, vec!["a.example", "b.example", "c.example"]);
}

#[test]
fn auth_check_constructors() {
    assert_eq!(AuthCheck::missing("h".to_string()).state, AuthState::Missing);
    assert_eq!(AuthCheck::valid("h".to_string()).state, AuthState::Valid);
    assert_eq!(AuthCheck::expired("h".to_string()).host, "h");
}

#[test]
fn verdicts_follow_the_call_outcome() {
    assert!(matches!(verdict_of(Ok(())), Verdict::Valid));
    assert!(matches!(verdict_of(Err(expired_error())), Verdict::Refused));
    assert!(matches!(verdict_of(Err(Failure::Message("x".to_string()))), Verdict::Failed(_)));
}

#[test]
fn check_reports_missing_cookies() {
    let service = AuthService::new("querypie.example.com").unwrap();
    let (mut flow, action) = service.check();
    assert!(matches!(action, CheckAction::ReadCookie));
    match flow.step(CheckEvent::Cookies(Ok(None))) {
        CheckAction::Finish(Ok(check)) => {
            assert_eq!(check.state, AuthState::Missing);
            assert_eq!(check.host, "querypie.example.com");
        }
        _ => panic!("expected a finished check"),
    }
}

#[test]
fn check_refreshes_refused_cookies() {
    let service = AuthService::new("h.example").unwrap();
    let (mut flow, _) = service.check();
    assert!(matches!(flow.step(CheckEvent::Cookies(Ok(Some("c".to_string())))), CheckAction::Validate(ref c) if c == "c"));
    assert!(matches!(flow.step(CheckEvent::Checked(Verdict::Refused)), CheckAction::RefreshCookie));
    assert_eq!(flow.phase, CheckPhase::Refreshing);
    assert!(matches!(flow.step(CheckEvent::Cookies(Ok(Some("d".to_string())))), CheckAction::Validate(ref c) if c == "d"));
    match flow.step(CheckEvent::Checked(Verdict::Refused)) {
        CheckAction::Finish(Ok(check)) => assert_eq!(check.state, AuthState::Expired),
        _ => panic!("expected an expired login"),
    }
}

#[test]
fn check_reports_valid_cookies() {
    let service = AuthService::new("h.example").unwrap();
    let (mut flow, _) = service.check();
    flow.step(CheckEvent::Cookies(Ok(Some("c".to_string()))));
    match flow.step(CheckEvent::Checked(Verdict::Valid)) {
        CheckAction::Finish(Ok(check)) => assert_eq!(check.state, AuthState::Valid),
        _ => panic!("expected a valid login"),
    }
}

#[test]
fn read_or_login_without_history_fails() {
    let service = AuthService::new("h.example").unwrap();
    let (mut flow, action) = service.read_or_login_cookie();
    assert!(matches!(action, CookieAction::ReadCookie));
    assert!(matches!(flow.step(CookieEvent::Cookies(Ok(None))), CookieAction::CheckHistory));
    match flow.step(CookieEvent::History(false)) {
        CookieAction::Finish(Err(Failure::Message(m))) => assert_eq!(
            m,
            "not logged in to h.example; run `querypie --host h.example auth login` first"
        ),
        _ => panic!("expected an error"),
    }
}

#[test]
fn refresh_or_login_logs_in_again() {
    let service = AuthService::new("h.example").unwrap();
    let (mut flow, action) = service.refresh_or_login_cookie();
    assert!(matches!(action, CookieAction::RefreshCookie));
    flow.step(CookieEvent::Cookies(Ok(None)));
    assert!(matches!(flow.step(CookieEvent::History(true)), CookieAction::LockAndReadCookie));
    assert!(matches!(flow.step(CookieEvent::Cookies(Ok(Some("old".to_string())))), CookieAction::Validate(_)));
    assert!(matches!(flow.step(CookieEvent::Checked(Verdict::Refused)), CookieAction::Login));
    let session = AuthSession { host: "h.example".to_string(), cookies: "new".to_string() };
    match flow.step(CookieEvent::LoggedIn(Ok(session))) {
        CookieAction::Finish(Ok(c)) => assert_eq!(c, "new"),
        _ => panic!("expected cookies"),
    }
    assert!(matches!(flow.phase, CookiePhase::Done));
}

#[test]
fn refresh_or_login_message_names_host() {
    let service = AuthService::new("h.example").unwrap();
    let (mut flow, _) = service.refresh_or_login_cookie();
    flow.step(CookieEvent::Cookies(Ok(None)));
    match flow.step(CookieEvent::History(false)) {
        CookieAction::Finish(Err(Failure::Message(m))) => assert_eq!(
            m,
            "QueryPie session expired and refresh failed; run `querypie --host h.example auth login`"
        ),
        _ => panic!("expected an error"),
    }
}

#[test]
fn refresh_keeps_accepted_cookies() {
    let (phase, action) = refresh_cookies_if_needed();
    assert!(matches!(action, RefreshAction::ReadHeader));
    let (phase, action) = refresh_step(phase, RefreshEvent::Header(Ok(Some("c".to_string()))));
    assert!(matches!(action, RefreshAction::AskRefresh(_)));
    let (_, action) = refresh_step(phase, RefreshEvent::Wanted(refresh_wanted_by(Verdict::Valid)));
    assert!(matches!(action, RefreshAction::Finish(Ok(Some(ref c))) if c == "c"));
}

#[test]
fn refresh_exchanges_refused_cookies() {
    let (phase, _) = refresh_cookies_if_needed();
    let (phase, _) = refresh_step(phase, RefreshEvent::Header(Ok(Some("c".to_string()))));
    let (phase, action) = refresh_step(phase, RefreshEvent::Wanted(refresh_wanted_by(Verdict::Refused)));
    assert!(matches!(action, RefreshAction::RefreshToken(_)));
    let (phase, action) = refresh_step(phase, RefreshEvent::Refreshed(Ok(Some(vec!["qp_access_token=n".to_string()]))));
    assert!(matches!(action, RefreshAction::SetCookies(_)));
    assert!(matches!(phase, RefreshPhase::Rereading));
    let (_, action) = refresh_step(phase, RefreshEvent::Header(Ok(Some("other=1".to_string()))));
    assert!(matches!(action, RefreshAction::Finish(Ok(None))));
}

#[test]
fn sessions_carry_the_service_host() {
    let service = AuthService::new("https://h.example/").unwrap();
    let session = service.session_from_cookies("c=1".to_string());
    assert_eq!(session.host, "h.example");
    assert_eq!(session.cookies, "c=1");
}
