use github_importer::json::{to_json_text, JsonNumber, JsonValue};
use github_importer::state::{join_name, AppPaths, ImportState, PORTABLE_MARKER, PORTABLE_MARKER_ALT};
use github_importer::strmap::StrMap;

fn s(x: &str) -> JsonValue {
    JsonValue::Str(x.to_string())
}

fn num(n: u64) -> JsonValue {
    JsonValue::Number(JsonNumber { text: n.to_string(), as_u64: Some(n), is_zero: n == 0 })
}

fn obj(members: Vec<(&str, JsonValue)>) -> JsonValue {
    JsonValue::Object(members.into_iter().map(|(k, v)| (k.to_string(), v)).collect())
}

fn member<'a>(v: &'a JsonValue, key: &str) -> Option<&'a JsonValue> {
    match v {
        JsonValue::Object(o) => o.iter().find(|m| m.0 == key).map(|m| &m.1),
        _ => None,
    }
}

#[test]
fn portable_marker_wins_over_everything() {
    let exe = "/tmp/stick/exe";
    let paths = AppPaths::resolve(exe, true, Some("/tmp/stick"), "/tmp/stick/cfg", true);
    assert!(paths.portable);
    assert_eq!(paths.base_dir, exe);
    assert_eq!(paths.state(), join_name(exe, ".import-state.json"));
    assert_eq!(paths.state(), "/tmp/stick/exe/.import-state.json");
}

#[test]
fn debug_build_uses_the_repo_root() {
    let paths = AppPaths::resolve("/tmp/t/exe", false, Some("/tmp/t/repo"), "/tmp/t/cfg", true);
    assert!(!paths.portable);
    assert_eq!(paths.base_dir, "/tmp/t/repo");
}

#[test]
fn release_build_uses_the_app_config_dir() {
    let paths = AppPaths::resolve("/tmp/t/exe", false, Some("/tmp/t/repo"), "/tmp/t/cfg", false);
    assert!(!paths.portable);
    assert_eq!(paths.base_dir, "/tmp/t/cfg");
}

#[test]
fn state_round_trips_and_keeps_the_cli_key() {
    let mut state = ImportState::default();
    state.issues.insert("A-001".into(), 12);
    state.issue_ids.insert("A-001".into(), 1200);
    state.node_ids.insert("A-001".into(), "I_abc".into());
    state.project_items.insert("A-001".into(), "PVTI_1".into());
    let raw = state.to_json();

    let issues = member(&raw, "issues").unwrap();
    assert_eq!(to_json_text(member(issues, "A-001").unwrap()), "12");

    let back = ImportState::from_json(&raw);
    assert_eq!(back.issues.get("A-001"), Some(&12));
    assert_eq!(back.issue_ids.get("A-001"), Some(&1200));
    assert_eq!(back.node_ids.get("A-001").map(String::as_str), Some("I_abc"));
    assert_eq!(back.project_items.get("A-001").map(String::as_str), Some("PVTI_1"));
}

#[test]
fn state_load_of_a_cli_written_file_works() {
    let v = obj(vec![("issues", obj(vec![("DOC-FE-001", num(92))]))]);
    let state = ImportState::from_json(&v);
    assert_eq!(state.issues.get("DOC-FE-001"), Some(&92));
    assert_eq!(state.project_items.len(), 0);
}

// ---------------------------------------------------------------------------

#[test]
fn the_markers_and_paths_are_spelled_as_documented() {
    assert_eq!(PORTABLE_MARKER, "portable.txt");
    assert_eq!(PORTABLE_MARKER_ALT, ".portable");
    let p = AppPaths { portable: false, base_dir: "/w".into() };
    assert_eq!(p.config(), "/w/config.json");
    assert_eq!(p.tasks(), "/w/tasks.json");
    assert_eq!(p.dotenv(), "/w/.env");
    assert_eq!(p.portable_marker_path(), "/w/portable.txt");
    assert_eq!(join_name("/w/", "x"), "/w/x");
    assert_eq!(join_name("", "x"), "x");
}

#[test]
fn a_malformed_state_reads_as_empty() {
    let bad = obj(vec![("issues", obj(vec![("A-001", s("twelve"))])), ("node_ids", obj(vec![("A-001", s("I_1"))]))]);
    let state = ImportState::from_json(&bad);
    assert_eq!(state.issues.len(), 0);
    assert_eq!(state.node_ids.len(), 0);
    let null_field = obj(vec![("issues", JsonValue::Null)]);
    assert_eq!(ImportState::from_json(&null_field).issues.len(), 0);
    assert_eq!(ImportState::from_json(&s("nope")).issues.len(), 0);
}

#[test]
fn a_state_written_as_an_array_reads_by_position() {
    let v = JsonValue::Array(vec![obj(vec![("A-001", num(3))]), obj(vec![])]);
    assert_eq!(ImportState::from_json(&v).issues.get("A-001"), Some(&3));
    let too_long = JsonValue::Array(vec![obj(vec![]), obj(vec![]), obj(vec![]), obj(vec![]), obj(vec![])]);
    assert_eq!(ImportState::from_json(&too_long).issues.len(), 0);
}

#[test]
fn seeding_merges_and_is_idempotent() {
    let mut state = ImportState::default();
    state.issues.insert("A-001".into(), 1);
    state.issues.insert("B-001".into(), 2);
    let mut found = StrMap::new();
    found.insert("B-001".to_string(), 20u64);
    found.insert("C-001".to_string(), 30u64);
    state.seed_issues(&found);
    state.seed_issues(&found);
    assert_eq!(state.issues.get("A-001"), Some(&1));
    assert_eq!(state.issues.get("B-001"), Some(&20));
    assert_eq!(state.issues.get("C-001"), Some(&30));
    assert_eq!(state.issues.len(), 3);
}

#[test]
fn the_written_state_names_its_version_with_keys_ascending() {
    let v = ImportState::default().to_json();
    assert_eq!(
        to_json_text(&v),
        r#"{"issue_ids":{},"issues":{},"node_ids":{},"project_items":{},"version":2}"#
    );
}

#[test]
fn written_ids_ascend_whatever_the_insertion_order() {
    let mut state = ImportState::default();
    state.issues.insert("B-002".into(), 2);
    state.issues.insert("A-010".into(), 10);
    state.issues.insert("A-002".into(), 3);
    assert_eq!(to_json_text(member(&state.to_json(), "issues").unwrap()), r#"{"A-002":3,"A-010":10,"B-002":2}"#);
}
