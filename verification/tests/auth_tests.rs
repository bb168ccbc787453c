use github_importer::auth::{
    account_from_user, gh_token_from_output, poll_transport_failure, read_device_code, read_poll_response,
    require_client_id, window_expired, window_remaining, Account, AuthError, AuthMethod, DeviceCodeInfo,
    OAuthEndpoints, PendingDeviceFlow, PollOutcome, SecretToken, REQUIRED_SCOPES,
};
use github_importer::json::{JsonNumber, JsonValue};
use std::time::{Duration, Instant};

fn from_serde(v: &serde_json::Value) -> JsonValue {
    match v {
        serde_json::Value::Null => JsonValue::Null,
        serde_json::Value::Bool(b) => JsonValue::Bool(*b),
        serde_json::Value::Number(n) => JsonValue::Number(JsonNumber {
            text: n.to_string(),
            as_u64: n.as_u64(),
            is_zero: n.as_f64() == Some(0.0),
        }),
        serde_json::Value::String(s) => JsonValue::Str(s.clone()),
        serde_json::Value::Array(a) => JsonValue::Array(a.iter().map(from_serde).collect()),
        serde_json::Value::Object(o) => JsonValue::Object(o.iter().map(|(k, v)| (k.clone(), from_serde(v))).collect()),
    }
}

fn parse(text: &str) -> JsonValue {
    from_serde(&serde_json::from_str(text).unwrap())
}

fn info() -> DeviceCodeInfo {
    DeviceCodeInfo {
        user_code: "ABCD-1234".into(),
        verification_uri: "https://github.com/login/device".into(),
        expires_in: 900,
        interval: 5,
        client_id: "cid".into(),
    }
}

#[test]
fn endpoints_are_built_from_a_host() {
    let e = OAuthEndpoints::github();
    assert_eq!(e.device_code_url, "https://github.com/login/device/code");
    assert_eq!(e.access_token_url, "https://github.com/login/oauth/access_token");
    assert_eq!(e.verification_uri, "https://github.com/login/device");
}

#[test]
fn endpoints_support_a_trailing_slash_and_enterprise_host() {
    let e = OAuthEndpoints::for_host("https://ghe.example.com/");
    assert_eq!(e.device_code_url, "https://ghe.example.com/login/device/code");
}

#[test]
fn required_scopes_cover_issues_projects_and_org_lookup() {
    let scopes: Vec<&str> = REQUIRED_SCOPES.split_whitespace().collect();
    assert!(scopes.contains(&"repo"));
    assert!(scopes.contains(&"project"));
    assert!(scopes.contains(&"read:org"));
}

#[test]
fn missing_scopes_reports_what_is_absent() {
    let acct = Account { login: "octocat".into(), name: None, scopes: vec!["repo".into()] };
    let missing = acct.missing_scopes();
    assert!(missing.contains(&"project".to_string()));
    assert!(missing.contains(&"read:org".to_string()));
    assert!(!missing.contains(&"repo".to_string()));
}

#[test]
fn unknown_scopes_are_not_reported_as_missing() {
    let acct = Account { login: "octocat".into(), name: None, scopes: vec![] };
    assert!(acct.missing_scopes().is_empty());
}

#[test]
fn device_flow_expires_after_its_window() {
    let started = Instant::now();
    let flow = PendingDeviceFlow::new(info(), "secret".into(), started);
    assert!(!flow.is_expired(started));
    assert_eq!(flow.seconds_remaining(started), 900);
    assert_eq!(flow.seconds_remaining(started + Duration::from_secs(300)), 600);
    assert!(!flow.is_expired(started + Duration::from_secs(899)));
    assert!(flow.is_expired(started + Duration::from_secs(900)));
    assert_eq!(flow.seconds_remaining(started + Duration::from_secs(900)), 0);
    assert_eq!(flow.seconds_remaining(started + Duration::from_secs(901)), 0);
}

#[test]
fn clearing_a_flow_wipes_the_device_code() {
    let mut flow = PendingDeviceFlow::new(info(), "device-secret".into(), Instant::now());
    flow.clear();
    assert!(flow.device_code().is_empty());
}

#[test]
fn token_debug_never_prints_the_secret() {
    let t = SecretToken::new("ghp_supersecret");
    assert_eq!(t.debug_text(), "SecretToken(***)");
    assert_eq!(t.expose(), "ghp_supersecret");
}

#[test]
fn rate_limited_message_points_at_the_pat_fallback() {
    let msg = AuthError::RateLimited.message();
    assert!(msg.contains("personal access token"));
    assert!(msg.contains("50"));
}

#[test]
fn device_flow_disabled_message_explains_the_fix() {
    assert!(AuthError::DeviceFlowDisabled.message().contains("Enable it"));
}

#[test]
fn auth_method_labels_are_human_readable() {
    assert_eq!(AuthMethod::DeviceFlow.label(), "GitHub device flow");
    assert_eq!(AuthMethod::GhCli.label(), "Imported from the gh CLI");
}

// ---------------------------------------------------------------------------

#[test]
fn the_window_arithmetic_rounds_down() {
    assert!(!window_expired(900, 899, 999_999_999));
    assert!(window_expired(900, 900, 0));
    assert_eq!(window_remaining(900, 300, 0), 600);
    assert_eq!(window_remaining(900, 300, 1), 599);
    assert_eq!(window_remaining(900, 901, 0), 0);
}

#[test]
fn slow_down_adds_five_seconds() {
    let mut flow = PendingDeviceFlow::new(info(), "code".into(), Instant::now());
    flow.slow_down();
    assert_eq!(flow.interval, 10);
    assert_eq!(flow.duplicate().interval, 10);
    assert_eq!(flow.duplicate().device_code(), "code");
}

#[test]
fn a_client_id_is_required() {
    assert!(matches!(require_client_id("  "), Err(AuthError::NoClientId)));
    assert!(require_client_id("Iv1.abc").is_ok());
}

#[test]
fn a_device_code_answer_is_read() {
    let e = OAuthEndpoints::github();
    let v = parse(r#"{"device_code": "dc", "user_code": "WDJB-MJHT", "expires_in": 600}"#);
    let (info, code) = read_device_code(200, "", Ok(&v), &e, "cid").unwrap();
    assert_eq!(code, "dc");
    assert_eq!(info.user_code, "WDJB-MJHT");
    assert_eq!(info.verification_uri, "https://github.com/login/device");
    assert_eq!(info.expires_in, 600);
    assert_eq!(info.interval, 5);
    assert_eq!(info.client_id, "cid");
}

#[test]
fn device_code_errors_are_named() {
    let e = OAuthEndpoints::github();
    assert!(matches!(read_device_code(429, "", Err("x".into()), &e, "cid"), Err(AuthError::RateLimited)));
    assert!(matches!(read_device_code(200, "API rate limit hit", Err("x".into()), &e, "cid"), Err(AuthError::RateLimited)));
    let disabled = parse(r#"{"error": "device_flow_disabled"}"#);
    assert!(matches!(read_device_code(200, "", Ok(&disabled), &e, "cid"), Err(AuthError::DeviceFlowDisabled)));
    let other = parse(r#"{"error": "unsupported"}"#);
    match read_device_code(200, "", Ok(&other), &e, "cid") {
        Err(AuthError::Other(m)) => assert_eq!(m, "GitHub rejected the device code request: unsupported"),
        _ => panic!("expected Other"),
    }
    let empty = parse(r#"{}"#);
    match read_device_code(200, "", Ok(&empty), &e, "cid") {
        Err(AuthError::Other(m)) => assert_eq!(m, "device code response had no user_code"),
        _ => panic!("expected Other"),
    }
    match read_device_code(200, "", Err("EOF".into()), &e, "cid") {
        Err(AuthError::Other(m)) => assert_eq!(m, "unexpected device-code response: EOF"),
        _ => panic!("expected Other"),
    }
}

#[test]
fn poll_answers_are_read() {
    let token = parse(r#"{"access_token": "gho_x", "token_type": "bearer"}"#);
    assert!(matches!(read_poll_response(Ok(&token)), PollOutcome::Token(t) if t == "gho_x"));
    let pending = parse(r#"{"error": "authorization_pending"}"#);
    assert!(matches!(read_poll_response(Ok(&pending)), PollOutcome::Pending));
    let slow = parse(r#"{"error": "slow_down"}"#);
    assert!(matches!(read_poll_response(Ok(&slow)), PollOutcome::SlowDown));
    let denied = parse(r#"{"error": "access_denied"}"#);
    assert!(matches!(read_poll_response(Ok(&denied)), PollOutcome::Failed(AuthError::Denied)));
    let expired = parse(r#"{"error": "expired_token"}"#);
    assert!(matches!(read_poll_response(Ok(&expired)), PollOutcome::Failed(AuthError::Expired)));
    let blank = parse(r#"{"access_token": ""}"#);
    match read_poll_response(Ok(&blank)) {
        PollOutcome::Failed(AuthError::Other(m)) => assert_eq!(m, "GitHub rejected the token request: "),
        _ => panic!("an empty token is not a token"),
    }
    assert!(matches!(poll_transport_failure(true, "timeout".into()), PollOutcome::Pending));
    assert!(matches!(poll_transport_failure(false, "tls".into()), PollOutcome::Failed(AuthError::Http(m)) if m == "tls"));
}

#[test]
fn the_account_is_read_from_the_user_payload() {
    let user = parse(r#"{"login": "octocat", "name": "The Octocat"}"#);
    let a = account_from_user(&user, vec!["repo".into()]).unwrap();
    assert_eq!(a.login, "octocat");
    assert_eq!(a.name.as_deref(), Some("The Octocat"));
    let anonymous = parse(r#"{"name": null}"#);
    match account_from_user(&anonymous, vec![]) {
        Err(AuthError::Other(m)) => assert_eq!(m, "token is not associated with an account"),
        _ => panic!("a login is required"),
    }
}

#[test]
fn the_gh_cli_token_is_trimmed_and_checked() {
    assert_eq!(gh_token_from_output(true, "gho_abc\n", "").unwrap(), "gho_abc");
    match gh_token_from_output(true, "  \n", "") {
        Err(AuthError::Other(m)) => assert_eq!(m, "`gh auth token` returned nothing; run `gh auth login` first"),
        _ => panic!(),
    }
    match gh_token_from_output(false, "", "not logged in\n") {
        Err(AuthError::Other(m)) => assert_eq!(m, "not logged in"),
        _ => panic!(),
    }
    match gh_token_from_output(false, "", "") {
        Err(AuthError::Other(m)) => assert_eq!(m, "`gh auth token` failed; run `gh auth login` first"),
        _ => panic!(),
    }
}

#[test]
fn a_token_can_be_wiped() {
    let mut t = SecretToken::new("ghp_x");
    t.wipe();
    assert_eq!(t.expose(), "");
}
