use github_importer::auth::{Account, AuthMethod, SecretToken};
use github_importer::commands::{
    default_true, device_flow_precheck, dry_run_preview, import_statuses, pat_from_input, preview_rows, project_wanted,
    status_from, task_statuses, validation_failure, vault_for, Prefs, Session,
};
use github_importer::state::{AppPaths, Config, ImportState};
use github_importer::commands::load_backlog;
use github_importer::json::JsonValue;
use github_importer::tasks::{Task, ValidationReport};

fn task(id: &str) -> Task {
    Task {
        id: id.into(),
        module: "setup".into(),
        title: "t".into(),
        priority: "P0".into(),
        labels: vec!["ui".into()],
        body: String::new(),
        depends_on: vec!["B-001".into()],
        parent: Some("P-001".into()),
    }
}

#[test]
fn prefs_default_and_paths() {
    let p = Prefs::default();
    assert!(!p.remember_token);
    assert!(default_true());
    let paths = AppPaths { portable: false, base_dir: "/w".into() };
    assert_eq!(Prefs::path(&paths), "/w/desktop-settings.json");
    let mut q = Prefs::default();
    q.with_builtin_client_id(Some("Iv1.builtin"));
    assert_eq!(q.client_id, "Iv1.builtin");
    q.with_builtin_client_id(Some("other"));
    assert_eq!(q.client_id, "Iv1.builtin");
}

#[test]
fn the_vault_follows_the_remember_preference() {
    let paths = AppPaths { portable: false, base_dir: "/w".into() };
    let mut prefs = Prefs::default();
    assert!(!vault_for(&paths, &prefs).is_persistent());
    prefs.remember_token = true;
    assert!(vault_for(&paths, &prefs).is_persistent());
}

#[test]
fn the_status_shows_the_session() {
    let prefs = Prefs { client_id: "cid".into(), remember_token: true, vault_passphrase: None };
    let out = status_from(None, &prefs, None);
    assert!(!out.signed_in);
    assert_eq!(out.client_id, "cid");
    let session = Session {
        token: SecretToken::new("t"),
        account: Account { login: "octocat".into(), name: None, scopes: vec!["repo".into()] },
        method: AuthMethod::PersonalAccessToken,
    };
    let s = status_from(Some(&session), &prefs, Some("x".into()));
    assert!(s.signed_in);
    assert_eq!(s.login.as_deref(), Some("octocat"));
    assert_eq!(s.method.as_deref(), Some("Personal access token"));
    assert_eq!(s.missing_scopes, vec!["project", "read:org"]);
    assert_eq!(s.vault_error.as_deref(), Some("x"));
}

#[test]
fn inputs_are_checked_before_anything_is_sent() {
    assert_eq!(pat_from_input("  ghp_x \n").unwrap(), "ghp_x");
    assert_eq!(pat_from_input("   ").unwrap_err(), "Enter a token first.");
    assert!(device_flow_precheck(" ").unwrap_err().starts_with("No OAuth App client id is configured."));
    assert!(device_flow_precheck("Iv1.x").is_ok());
}

#[test]
fn the_preview_and_dry_run_report() {
    let tasks = vec![task("A-001"), task(""), task("C-001")];
    let rows = preview_rows(&tasks);
    assert_eq!(rows.len(), 3);
    assert_eq!(rows[0].parent.as_deref(), Some("P-001"));
    assert_eq!(rows[0].depends_on, vec!["B-001"]);
    let report = dry_run_preview(&tasks, false);
    assert!(report.summary.dry_run);
    assert_eq!(report.summary.created, 2);
    assert!(report.cli_output.contains("Done. Created 2;"));
}

#[test]
fn a_run_needs_a_valid_backlog_and_a_board_name() {
    let ok = ValidationReport { ok: true, errors: vec![], task_count: 2 };
    assert!(validation_failure(&ok).is_none());
    let bad = ValidationReport { ok: false, errors: vec!["A-001: missing module".into()], task_count: 1 };
    assert_eq!(
        validation_failure(&bad).unwrap(),
        "The backlog did not validate:\nValidation failed:\n- A-001: missing module\n"
    );
    let c = Config { repo: "o/r".into(), project: "Front".into(), project_owner: " ".into() };
    assert!(!project_wanted(&c));
    let c = Config { repo: "o/r".into(), project: "Front".into(), project_owner: "Org".into() };
    assert!(project_wanted(&c));
}

#[test]
fn statuses_list_tracked_tasks_in_id_order() {
    let mut state = ImportState::default();
    state.issues.insert("B-001".into(), 2);
    state.issues.insert("A-001".into(), 1);
    state.project_items.insert("B-001".into(), "PVTI".into());
    let rows = import_statuses(&state);
    assert_eq!(rows.len(), 2);
    assert_eq!((rows[0].id.as_str(), rows[0].number, rows[0].on_project), ("A-001", 1, false));
    assert_eq!((rows[1].id.as_str(), rows[1].number, rows[1].on_project), ("B-001", 2, true));
    assert_eq!(task_statuses(), vec!["created", "skipped", "added", "already_set", "failed", "would_create", "would_add"]);
}

#[test]
fn a_backlog_is_parsed_only_when_it_validates() {
    let (report, parsed) = load_backlog(&[good("A-001"), good("A-002")]);
    assert!(report.ok);
    assert_eq!(parsed.len(), 2);
    assert_eq!(parsed[1].id, "A-002");
    let (report, parsed) = load_backlog(&[good("A-001"), good("A-001")]);
    assert!(!report.ok);
    assert!(parsed.is_empty());
}

fn obj(members: Vec<(&str, JsonValue)>) -> JsonValue {
    JsonValue::Object(members.into_iter().map(|(k, v)| (k.to_string(), v)).collect())
}

fn good(id: &str) -> JsonValue {
    obj(vec![
        ("id", JsonValue::Str(id.into())),
        ("module", JsonValue::Str("setup".into())),
        ("title", JsonValue::Str("t".into())),
        ("priority", JsonValue::Str("P1".into())),
        ("labels", JsonValue::Array(vec![])),
        ("body", JsonValue::Str("b".into())),
        ("depends_on", JsonValue::Array(vec![])),
        ("parent", JsonValue::Null),
    ])
}
