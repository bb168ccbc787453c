use github_importer::json::{JsonNumber, JsonValue};
use github_importer::tasks::{
    body_marker, existing_from_issues, issue_body, issue_labels, issue_title, issues_from_state, load_settings,
    needed_labels, parse_dotenv, preview_line, project_not_found_message, py_repr, settings_banner, state_to_json,
    task_id_from_title, tasks_from_document, to_task, validate, RelationshipErrors, Settings, Task,
};
use github_importer::json::to_json_text;

fn s(x: &str) -> JsonValue {
    JsonValue::Str(x.to_string())
}

fn num(n: u64) -> JsonValue {
    JsonValue::Number(JsonNumber { text: n.to_string(), as_u64: Some(n), is_zero: n == 0 })
}

fn arr(items: Vec<JsonValue>) -> JsonValue {
    JsonValue::Array(items)
}

fn obj(members: Vec<(&str, JsonValue)>) -> JsonValue {
    JsonValue::Object(members.into_iter().map(|(k, v)| (k.to_string(), v)).collect())
}

fn valid_task(id: &str) -> JsonValue {
    obj(vec![
        ("id", s(id)),
        ("module", s("setup")),
        ("title", s("A task")),
        ("priority", s("P0")),
        ("labels", arr(vec![s("frontend")])),
        ("body", s("Do the thing.")),
        ("depends_on", arr(vec![])),
        ("parent", JsonValue::Null),
    ])
}

fn set(t: &mut JsonValue, key: &str, value: JsonValue) {
    if let JsonValue::Object(members) = t {
        for m in members.iter_mut() {
            if m.0 == key {
                m.1 = value;
                return;
            }
        }
        members.push((key.to_string(), value));
    }
}

fn remove(t: &mut JsonValue, key: &str) {
    if let JsonValue::Object(members) = t {
        members.retain(|m| m.0 != key);
    }
}

fn task(id: &str, module: &str, title: &str, priority: &str, labels: Vec<&str>, body: &str) -> Task {
    Task {
        id: id.into(),
        module: module.into(),
        title: title.into(),
        priority: priority.into(),
        labels: labels.into_iter().map(String::from).collect(),
        body: body.into(),
        depends_on: vec![],
        parent: None,
    }
}

#[test]
fn accepts_a_valid_backlog() {
    let tasks = vec![valid_task("SETUP-001"), valid_task("SETUP-002")];
    let r = validate(&tasks);
    assert!(r.ok, "{:?}", r.errors);
    assert_eq!(r.to_cli_output(), "OK: 2 tasks validated.\n");
}

#[test]
fn reports_missing_fields() {
    let mut t = valid_task("A-001");
    remove(&mut t, "module");
    let r = validate(&[t]);
    assert_eq!(r.errors, vec!["A-001: missing module"]);
    assert_eq!(r.to_cli_output(), "Validation failed:\n- A-001: missing module\n");
}

#[test]
fn missing_id_uses_question_mark_in_missing_message() {
    let mut t = valid_task("A-001");
    remove(&mut t, "id");
    let r = validate(&[t]);
    assert_eq!(r.errors, vec!["?: missing id"]);
    assert_eq!(r.to_cli_output(), "Validation failed:\n- ?: missing id\n");
}

#[test]
fn detects_duplicate_ids() {
    let tasks = vec![valid_task("A-001"), valid_task("A-001")];
    let r = validate(&tasks);
    assert_eq!(r.errors, vec!["A-001: duplicate ID"]);
}

#[test]
fn detects_invalid_priority() {
    let mut t = valid_task("A-001");
    set(&mut t, "priority", s("P9"));
    let r = validate(&[t]);
    assert_eq!(r.errors, vec!["A-001: invalid priority"]);
}

#[test]
fn missing_priority_is_invalid_since_key_is_absent() {
    let mut t = valid_task("A-001");
    remove(&mut t, "priority");
    let r = validate(&[t]);
    assert!(r.errors.contains(&"A-001: missing priority".to_string()));
    assert!(r.errors.contains(&"A-001: invalid priority".to_string()));
}

#[test]
fn detects_unknown_dependency() {
    let mut t = valid_task("A-001");
    set(&mut t, "depends_on", arr(vec![s("NOPE-001")]));
    let r = validate(&[t]);
    assert_eq!(r.errors, vec!["A-001: unknown dependency NOPE-001"]);
}

#[test]
fn detects_self_dependency() {
    let mut t = valid_task("A-001");
    set(&mut t, "depends_on", arr(vec![s("A-001")]));
    let r = validate(&[t]);
    assert_eq!(r.errors, vec!["A-001: self dependency"]);
}

#[test]
fn self_dependency_that_is_also_known_reports_only_self() {
    let mut t = valid_task("A-001");
    set(&mut t, "depends_on", arr(vec![s("A-001")]));
    let r = validate(&[t]);
    assert!(!r.errors.iter().any(|e| e.contains("unknown dependency")));
}

#[test]
fn detects_unknown_parent() {
    let mut t = valid_task("A-001");
    set(&mut t, "parent", s("GHOST-001"));
    let r = validate(&[t]);
    assert_eq!(r.errors, vec!["A-001: unknown parent GHOST-001"]);
}

#[test]
fn null_and_empty_parent_are_ignored() {
    let mut a = valid_task("A-001");
    set(&mut a, "parent", JsonValue::Null);
    let mut b = valid_task("A-002");
    set(&mut b, "parent", s(""));
    let r = validate(&[a, b]);
    assert!(r.ok, "{:?}", r.errors);
}

#[test]
fn every_falsy_parent_is_ignored_like_python() {
    let falsy = vec![JsonValue::Null, JsonValue::Bool(false), num(0), s(""), arr(vec![]), obj(vec![])];
    for value in falsy {
        let mut t = valid_task("A-001");
        let shown = to_json_text(&value);
        set(&mut t, "parent", value);
        let r = validate(&[t]);
        assert!(r.ok, "parent {shown} produced {:?}", r.errors);
    }
}

#[test]
fn a_non_empty_parent_that_is_absent_is_reported() {
    let truthy = vec![s("GHOST-001"), num(1), JsonValue::Bool(true), arr(vec![s("GHOST-001")])];
    for value in truthy {
        let mut t = valid_task("A-001");
        let shown = to_json_text(&value);
        set(&mut t, "parent", value);
        let r = validate(&[t]);
        assert_eq!(r.errors.len(), 1, "parent {shown} produced {:?}", r.errors);
        assert!(r.errors[0].starts_with("A-001: unknown parent"), "parent {shown} produced {:?}", r.errors);
    }
}

#[test]
fn a_string_depends_on_iterates_per_character_like_python() {
    let mut a = valid_task("A-001");
    set(&mut a, "depends_on", s("A-002"));
    let b = valid_task("A-002");
    let r = validate(&[a, b]);
    assert_eq!(
        r.errors,
        vec![
            "A-001: unknown dependency A",
            "A-001: unknown dependency -",
            "A-001: unknown dependency 0",
            "A-001: unknown dependency 0",
            "A-001: unknown dependency 2",
        ]
    );
}

#[test]
fn a_non_array_non_string_depends_on_is_ignored() {
    for value in vec![JsonValue::Null, num(1), JsonValue::Bool(true)] {
        let mut t = valid_task("A-001");
        let shown = to_json_text(&value);
        set(&mut t, "depends_on", value);
        let r = validate(&[t]);
        assert!(r.ok, "depends_on {shown} produced {:?}", r.errors);
    }
}

#[test]
fn pass_one_errors_precede_pass_two_errors() {
    let mut a = valid_task("A-001");
    set(&mut a, "priority", s("P9"));
    let mut b = valid_task("A-002");
    set(&mut b, "depends_on", arr(vec![s("MISSING-001")]));
    let r = validate(&[a, b]);
    assert_eq!(r.errors, vec!["A-001: invalid priority", "A-002: unknown dependency MISSING-001"]);
}

#[test]
fn parent_cycle_is_accepted() {
    let mut a = valid_task("A-001");
    set(&mut a, "parent", s("A-002"));
    let mut b = valid_task("A-002");
    set(&mut b, "parent", s("A-001"));
    let r = validate(&[a, b]);
    assert!(r.ok, "{:?}", r.errors);
}

#[test]
fn title_regex_matches_the_documented_shapes() {
    assert_eq!(task_id_from_title("[SETUP-001] Init").as_deref(), Some("SETUP-001"));
    assert_eq!(task_id_from_title("[AUTH-FE-003] Login").as_deref(), Some("AUTH-FE-003"));
    assert_eq!(task_id_from_title("[DOC-FE-001] Docs").as_deref(), Some("DOC-FE-001"));
}

#[test]
fn title_regex_rejects_near_misses() {
    assert_eq!(task_id_from_title("SETUP-001 Init"), None);
    assert_eq!(task_id_from_title("[SETUP-01] Init"), None);
    assert_eq!(task_id_from_title("[setup-001] Init"), None);
    assert_eq!(task_id_from_title("[SETUP-001]Init"), None);
    assert_eq!(task_id_from_title("x [SETUP-001] Init"), None);
    assert_eq!(task_id_from_title("[SETUP-0001] Init"), None);
}

#[test]
fn title_regex_requires_leading_position() {
    assert_eq!(task_id_from_title("Re: [SETUP-001] Init"), None);
}

#[test]
fn issue_body_is_byte_stable() {
    let t = task("SETUP-001", "setup", "Init", "P0", vec![], "Hello.");
    let expected = "<!-- github-task:SETUP-001 -->\n\n**Module:** `setup`  \n**Priority:** `P0`\n\nHello.\n\n## Acceptance Criteria\n\n- [ ] Implementation completed\n- [ ] Appropriate tests added\n- [ ] API/documentation updated where applicable\n";
    assert_eq!(issue_body(&t), expected);
}

#[test]
fn issue_title_is_byte_stable() {
    let t = task("SETUP-001", "setup", "Init", "P0", vec![], "");
    assert_eq!(issue_title(&t), "[SETUP-001] Init");
    assert_eq!(body_marker("SETUP-001"), "<!-- github-task:SETUP-001 -->");
}

#[test]
fn labels_are_deduped_in_order() {
    let t = task("A-001", "setup", "t", "P0", vec!["backend", "frontend", "setup"], "");
    assert_eq!(issue_labels(&t), vec!["backend", "setup", "P0", "frontend"]);
}

#[test]
fn needed_labels_include_implicit_ones() {
    let t = task("A-001", "setup", "t", "P0", vec!["ui"], "");
    assert_eq!(needed_labels(&[t]), vec!["P0", "P1", "P2", "P3", "backend", "setup", "ui"]);
}

#[test]
fn preview_line_pads_like_python() {
    let t = task("A-001", "setup", "Init", "P0", vec![], "");
    assert_eq!(preview_line(&t), "A-001           P0 setup              Init");
}

#[test]
fn existing_detects_cli_created_titles() {
    let issues = vec![(1u64, "[SETUP-001] Init"), (2u64, "Random issue"), (3u64, "[AUTH-FE-003] Login")];
    let found = existing_from_issues(&issues);
    assert_eq!(found.get("SETUP-001"), Some(&1));
    assert_eq!(found.get("AUTH-FE-003"), Some(&3));
    assert_eq!(found.len(), 2);
}

#[test]
fn dotenv_parsing_matches_python() {
    let parsed = parse_dotenv("# comment\n\nRELATIONSHIP_ERRORS=ignore\nSKIP_RELATIONSHIPS = \"true\"\nnot a pair\n");
    assert_eq!(
        parsed,
        vec![
            ("RELATIONSHIP_ERRORS".to_string(), "ignore".to_string()),
            ("SKIP_RELATIONSHIPS".to_string(), "true".to_string()),
        ]
    );
}

#[test]
fn settings_precedence_env_over_dotenv_over_default() {
    let dotenv = vec![
        ("RELATIONSHIP_ERRORS".to_string(), "ignore".to_string()),
        ("SKIP_RELATIONSHIPS".to_string(), "true".to_string()),
    ];
    let env = vec![("RELATIONSHIP_ERRORS".to_string(), "strict".to_string())];
    let s = load_settings(&dotenv, &env);
    assert_eq!(s.relationship_errors, RelationshipErrors::Strict);
    assert_eq!(s.relationship_errors_source, "environment");
    assert!(s.skip_relationships);
    assert_eq!(s.skip_relationships_source, ".env");
}

#[test]
fn invalid_setting_falls_back_and_annotates_source() {
    let dotenv = vec![("RELATIONSHIP_ERRORS".to_string(), "nonsense".to_string())];
    let s = load_settings(&dotenv, &[]);
    assert_eq!(s.relationship_errors, RelationshipErrors::Strict);
    assert_eq!(s.relationship_errors_source, ".env (invalid)");
}

#[test]
fn state_round_trips() {
    let v = obj(vec![("issues", obj(vec![("A-001", num(12)), ("A-002", num(13))]))]);
    let map = issues_from_state(&v);
    assert_eq!(map.get("A-001"), Some(&12));
    assert_eq!(to_json_text(&state_to_json(&map)), to_json_text(&v));
}

#[test]
fn settings_default_to_strict_without_skipping() {
    let s = Settings::default();
    assert_eq!(s.relationship_errors, RelationshipErrors::Strict);
    assert!(!s.skip_relationships);
}

// ---------------------------------------------------------------------------

#[test]
fn an_invalid_skip_setting_is_annotated_and_warned_about() {
    let dotenv = vec![("SKIP_RELATIONSHIPS".to_string(), "maybe".to_string())];
    let s = load_settings(&dotenv, &[]);
    assert!(!s.skip_relationships);
    assert_eq!(s.skip_relationships_source, ".env (invalid)");
    assert_eq!(s.warnings.len(), 1);
    assert!(!s.warnings_text().is_empty());
}

#[test]
fn the_banner_names_each_setting_and_its_source() {
    let s = Settings::default();
    assert_eq!(
        settings_banner(&s),
        "Settings:\n  RELATIONSHIP_ERRORS=strict (default)\n  SKIP_RELATIONSHIPS=false (default)\n"
    );
}

#[test]
fn py_repr_quotes_like_python() {
    assert_eq!(py_repr("abc"), "'abc'");
    assert_eq!(py_repr("it's"), "\"it's\"");
}

#[test]
fn to_task_reads_a_validated_task() {
    let t = to_task(&valid_task("A-001")).unwrap();
    assert_eq!(t.id, "A-001");
    assert_eq!(t.labels, vec!["frontend"]);
    assert_eq!(t.parent, None);
    assert!(to_task(&s("not an object")).is_none());
}

#[test]
fn a_document_must_be_an_array() {
    assert_eq!(tasks_from_document(arr(vec![valid_task("A-001")])).unwrap().len(), 1);
    assert_eq!(tasks_from_document(obj(vec![])).unwrap_err(), "expected a JSON array of tasks");
}

#[test]
fn a_missing_board_lists_the_sorted_titles() {
    let m = project_not_found_message("Org", "Board", &["Zeta".to_string(), "Alpha".to_string()]);
    assert_eq!(m, "Project 'Board' not found for owner 'Org'. Available projects: ['Alpha', 'Zeta']");
}

#[test]
fn a_later_issue_with_the_same_id_wins() {
    let issues = vec![(1u64, "[A-001] One"), (7u64, "[A-001] Again")];
    let found = existing_from_issues(&issues);
    assert_eq!(found.get("A-001"), Some(&7));
    assert_eq!(found.len(), 1);
}

#[test]
fn an_issue_title_is_recognised_as_its_task() {
    for id in ["SETUP-001", "AUTH-FE-003", "A-999", "X1-Y2-Z3-042"] {
        let t = task(id, "setup", "Some title", "P1", vec![], "");
        assert_eq!(task_id_from_title(&issue_title(&t)).as_deref(), Some(id));
        assert!(issue_body(&t).starts_with(&body_marker(id)));
    }
}
