use github_importer::github::{
    absolute_url, after_page, created_issue_from, require_token, error_from_graphql_body, error_message_for, is_benign_already_set,
    is_rate_limit_body, label_created, next_link, parse_u64, repo_node_id_from, rest_failure, retry_delay_for,
    scopes_from_header, without_pull_requests, GithubError, Issue, RepoRef, RetryDecision, MAX_BACKOFF_MS,
    MAX_PAGES, MAX_RETRIES,
};
use github_importer::json::{JsonNumber, JsonValue};

fn from_serde(v: &serde_json::Value) -> JsonValue {
    match v {
        serde_json::Value::Null => JsonValue::Null,
        serde_json::Value::Bool(b) => JsonValue::Bool(*b),
        serde_json::Value::Number(n) => JsonValue::Number(JsonNumber {
            text: n.to_string(),
            as_u64: n.as_u64(),
            is_zero: n.as_f64() == Some(0.0),
        }),
        serde_json::Value::String(s) => JsonValue::Str(s.clone()),
        serde_json::Value::Array(a) => JsonValue::Array(a.iter().map(from_serde).collect()),
        serde_json::Value::Object(o) => JsonValue::Object(o.iter().map(|(k, v)| (k.clone(), from_serde(v))).collect()),
    }
}

fn message_for(status: u16, body: &str) -> String {
    let parsed = serde_json::from_str::<serde_json::Value>(body).ok().map(|v| from_serde(&v));
    error_message_for(status, body, parsed.as_ref())
}

fn issue(number: u64, title: &str, pull_request: Option<JsonValue>) -> Issue {
    Issue { number, id: number * 11, node_id: None, title: title.into(), body: None, pull_request }
}

#[test]
fn parses_next_link() {
    let header = r#"<https://api.github.com/repos/o/r/issues?page=2>; rel="next", <https://api.github.com/repos/o/r/issues?page=5>; rel="last""#;
    assert_eq!(next_link(Some(header)).as_deref(), Some("https://api.github.com/repos/o/r/issues?page=2"));
}

#[test]
fn next_link_ignores_prev_and_last() {
    let header = r#"<https://api.github.com/x?page=1>; rel="prev", <https://api.github.com/x?page=9>; rel="last""#;
    assert_eq!(next_link(Some(header)), None);
    assert_eq!(next_link(None), None);
    assert_eq!(next_link(Some("")), None);
}

#[test]
fn next_link_handles_a_next_that_is_not_first() {
    let header = r#"<https://api.github.com/x?page=1>; rel="prev", <https://api.github.com/x?page=3>; rel="next""#;
    assert_eq!(next_link(Some(header)).as_deref(), Some("https://api.github.com/x?page=3"));
}

#[test]
fn repo_ref_parses_owner_and_name() {
    assert_eq!(RepoRef::parse("PersianRepo/front").unwrap(), RepoRef { owner: "PersianRepo".into(), name: "front".into() });
    assert!(RepoRef::parse("nope").is_err());
    assert!(RepoRef::parse("/x").is_err());
    assert!(RepoRef::parse("x/").is_err());
}

#[test]
fn benign_message_matches_the_python_regex() {
    assert!(is_benign_already_set("Validation failed: Target issue has already been taken (addBlockedBy)"));
    assert!(is_benign_already_set("Label already exists"));
    assert!(!is_benign_already_set("Permission denied"));
}

#[test]
fn a_duplicate_label_is_recognised_from_its_error_code() {
    let body = r#"{"message":"Validation Failed","errors":[{"resource":"Label","code":"already_exists","field":"name"}]}"#;
    let err = GithubError::Api { status: 422, message: message_for(422, body), rate_limited: false };
    assert!(err.is_duplicate_label(), "message was: {}", err.message());
    assert!(!err.is_already_set(), "the phrase match is not what catches this case");
}

#[test]
fn a_rejected_label_name_is_not_mistaken_for_a_duplicate() {
    let body = r#"{"message":"Validation Failed","errors":[{"resource":"Label","code":"invalid","field":"name"}]}"#;
    let err = GithubError::Api { status: 422, message: message_for(422, body), rate_limited: false };
    assert!(!err.is_duplicate_label(), "message was: {}", err.message());
}

#[test]
fn a_non_422_is_never_a_duplicate_label() {
    let err = GithubError::Api { status: 403, message: "already_exists".into(), rate_limited: false };
    assert!(!err.is_duplicate_label());
}

#[test]
fn retry_delay_honours_retry_after() {
    assert_eq!(retry_delay_for(429, Some("7"), 0, true), Some(7000));
}

#[test]
fn retry_delay_caps_a_hostile_retry_after() {
    assert_eq!(retry_delay_for(429, Some("99999"), 0, true), Some(MAX_BACKOFF_MS));
}

#[test]
fn retry_delay_backs_off_exponentially_without_a_header() {
    assert_eq!(retry_delay_for(429, None, 0, true), Some(1000));
    assert_eq!(retry_delay_for(429, None, 2, true), Some(4000));
}

#[test]
fn retry_delay_does_not_retry_plain_forbidden() {
    assert_eq!(retry_delay_for(403, None, 0, false), None);
    assert_eq!(retry_delay_for(404, None, 0, false), None);
    assert_eq!(retry_delay_for(422, None, 0, false), None);
}

#[test]
fn retry_delay_retries_rate_limited_forbidden() {
    assert!(retry_delay_for(403, None, 0, true).is_some());
}

#[test]
fn error_message_extracts_validation_detail() {
    let body = r#"{"message":"Validation Failed","errors":[{"resource":"Issue","field":"title","message":"is too long"}]}"#;
    assert_eq!(message_for(422, body), "Validation Failed (is too long)");
}

#[test]
fn error_message_falls_back_to_the_raw_body() {
    assert_eq!(message_for(500, "boom"), "boom");
    assert_eq!(message_for(500, ""), "HTTP 500");
}

#[test]
fn pull_requests_are_recognised() {
    let pr = issue(5, "[SETUP-001] Init", Some(from_serde(&serde_json::from_str(r#"{"url": "https://api.github.com/x"}"#).unwrap())));
    assert!(pr.is_pull_request());
    let plain = issue(6, "[SETUP-002] Init", None);
    assert!(!plain.is_pull_request());
}

// ---------------------------------------------------------------------------

#[test]
fn pull_requests_are_dropped_from_a_listing_in_order() {
    let kept = without_pull_requests(vec![
        issue(1, "a", None),
        issue(2, "b", Some(JsonValue::Null)),
        issue(3, "c", None),
    ]);
    let numbers: Vec<u64> = kept.iter().map(|i| i.number).collect();
    assert_eq!(numbers, vec![1, 3]);
}

#[test]
fn the_backoff_is_capped_at_thirty_two_seconds() {
    assert_eq!(retry_delay_for(500, None, 5, false), Some(32000));
    assert_eq!(retry_delay_for(503, None, 9, false), Some(32000));
    assert_eq!(retry_delay_for(429, Some(" 3 "), 0, true), Some(3000));
    assert_eq!(retry_delay_for(429, Some("soon"), 1, true), Some(2000));
}

#[test]
fn parse_u64_reads_what_str_parse_reads() {
    assert_eq!(parse_u64("42"), Some(42));
    assert_eq!(parse_u64("+7"), Some(7));
    assert_eq!(parse_u64("18446744073709551615"), Some(u64::MAX));
    assert_eq!(parse_u64("18446744073709551616"), None);
    assert_eq!(parse_u64(""), None);
    assert_eq!(parse_u64("+"), None);
    assert_eq!(parse_u64("-1"), None);
    assert_eq!(parse_u64("1a"), None);
    for text in ["0", "123", "0042", "+99", "x", "4294967296"] {
        assert_eq!(parse_u64(text), text.parse::<u64>().ok(), "{text}");
    }
}

#[test]
fn a_failed_request_is_retried_then_given_up() {
    match rest_failure(429, Some("2"), 0, "slow down", None) {
        RetryDecision::Retry(ms) => assert_eq!(ms, 2000),
        RetryDecision::Fail(_) => panic!("a 429 is retried"),
    }
    match rest_failure(429, Some("2"), MAX_RETRIES, "slow down", None) {
        RetryDecision::Fail(GithubError::Api { status, message, rate_limited }) => {
            assert_eq!(status, 429);
            assert_eq!(message, "slow down");
            assert!(rate_limited);
        }
        _ => panic!("retries are capped"),
    }
    match rest_failure(403, None, 0, "You have exceeded a secondary rate limit", None) {
        RetryDecision::Retry(ms) => assert_eq!(ms, 1000),
        RetryDecision::Fail(_) => panic!("a rate-limited 403 is retried"),
    }
    match rest_failure(404, None, 0, "", None) {
        RetryDecision::Fail(e) => assert_eq!(e.message(), "GitHub returned 404: HTTP 404"),
        RetryDecision::Retry(_) => panic!("a 404 is not retried"),
    }
}

#[test]
fn rate_limit_bodies_are_recognised() {
    assert!(is_rate_limit_body("API rate limit exceeded"));
    assert!(is_rate_limit_body("You have triggered an abuse detection mechanism"));
    assert!(!is_rate_limit_body("Resource not accessible by integration"));
}

#[test]
fn urls_are_made_absolute() {
    assert_eq!(absolute_url("https://api.github.com/", "/repos/o/r"), "https://api.github.com/repos/o/r");
    assert_eq!(absolute_url("https://api.github.com", "repos/o/r"), "https://api.github.com/repos/o/r");
    assert_eq!(absolute_url("https://api.github.com", "https://other/x"), "https://other/x");
}

#[test]
fn a_created_issue_is_read_from_its_payload() {
    let v = from_serde(&serde_json::from_str(r#"{"number": 12, "id": 1200, "node_id": "I_abc"}"#).unwrap());
    let c = created_issue_from(&v).unwrap();
    assert_eq!((c.number, c.id, c.node_id.as_str()), (12, 1200, "I_abc"));
    let bad = from_serde(&serde_json::from_str(r#"{"number": 12, "id": 1200}"#).unwrap());
    assert_eq!(created_issue_from(&bad).unwrap_err().message(), "created issue has no node_id");
    let none = from_serde(&serde_json::from_str(r#"{"id": 1}"#).unwrap());
    assert_eq!(created_issue_from(&none).unwrap_err().message(), "created issue has no number");
}

#[test]
fn the_repository_node_id_is_read() {
    let v = from_serde(&serde_json::from_str(r#"{"node_id": "R_1"}"#).unwrap());
    assert_eq!(repo_node_id_from(&v).unwrap(), "R_1");
    assert_eq!(repo_node_id_from(&JsonValue::Null).unwrap_err().message(), "repo has no node_id");
}

#[test]
fn token_scopes_come_from_the_header() {
    assert_eq!(scopes_from_header(Some("repo, project , read:org")), vec!["repo", "project", "read:org"]);
    assert!(scopes_from_header(Some("")).is_empty());
    assert!(scopes_from_header(None).is_empty());
}

#[test]
fn a_duplicate_label_counts_as_created() {
    let dup = GithubError::Api { status: 422, message: "Validation Failed (already_exists)".into(), rate_limited: false };
    assert!(label_created(Err(dup)).is_ok());
    let other = GithubError::Api { status: 422, message: "Validation Failed (invalid)".into(), rate_limited: false };
    assert!(label_created(Err(other)).is_err());
}

#[test]
fn graphql_errors_become_api_errors() {
    let whole = from_serde(&serde_json::from_str(r#"{"errors": [{"message": "Could not resolve to a node with the global id of 'x'"}]}"#).unwrap());
    let errors = match from_serde(&serde_json::from_str(r#"[{"message": "Could not resolve to a node with the global id of 'x'"}]"#).unwrap()) {
        JsonValue::Array(a) => a,
        _ => unreachable!(),
    };
    match error_from_graphql_body(&errors, &whole) {
        GithubError::Api { status, message, rate_limited } => {
            assert_eq!(status, 404);
            assert_eq!(message, "Could not resolve to a node with the global id of 'x'");
            assert!(!rate_limited);
        }
        other => panic!("unexpected {}", other.message()),
    }
}

#[test]
fn error_texts_read_as_they_display() {
    assert_eq!(GithubError::Unauthenticated.message(), "not authenticated");
    assert_eq!(
        GithubError::Api { status: 422, message: "Validation Failed".into(), rate_limited: false }.message(),
        "GitHub returned 422: Validation Failed"
    );
}

#[test]
fn a_client_without_a_token_refuses_before_calling() {
    assert!(matches!(require_token(""), Err(GithubError::Unauthenticated)));
    assert!(require_token("ghp_x").is_ok());
}

#[test]
fn pagination_follows_links_up_to_the_page_cap() {
    assert_eq!(after_page(1, None).unwrap(), None);
    assert_eq!(after_page(1, Some("https://x/?page=2".into())).unwrap().as_deref(), Some("https://x/?page=2"));
    assert_eq!(after_page(MAX_PAGES - 1, Some("n".into())).unwrap().as_deref(), Some("n"));
    assert_eq!(after_page(MAX_PAGES, None).unwrap(), None);
    let err = after_page(MAX_PAGES, Some("n".into())).unwrap_err();
    assert_eq!(err.message(), "pagination exceeded 200 pages");
}
