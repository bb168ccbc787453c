use github_importer::graphql::{
    added_item_id, find_project, graphql_data, graphql_url, next_page_cursor, project_owner, push_page, Project,
    ADD_ITEM_MUTATION, PROJECTS_QUERY,
};
use github_importer::json::{JsonNumber, JsonValue};

fn from_serde(v: &serde_json::Value) -> JsonValue {
    match v {
        serde_json::Value::Null => JsonValue::Null,
        serde_json::Value::Bool(b) => JsonValue::Bool(*b),
        serde_json::Value::Number(n) => JsonValue::Number(JsonNumber {
            text: n.to_string(),
            as_u64: n.as_u64(),
            is_zero: n.as_f64() == Some(0.0),
        }),
        serde_json::Value::String(s) => JsonValue::Str(s.clone()),
        serde_json::Value::Array(a) => JsonValue::Array(a.iter().map(from_serde).collect()),
        serde_json::Value::Object(o) => JsonValue::Object(o.iter().map(|(k, v)| (k.clone(), from_serde(v))).collect()),
    }
}

fn parse(text: &str) -> JsonValue {
    from_serde(&serde_json::from_str(text).unwrap())
}

fn board(id: &str, title: &str, number: u64) -> Project {
    Project { id: id.into(), title: title.into(), number, owner_kind: "user".into() }
}

#[test]
fn projects_query_requests_both_owner_types() {
    assert!(PROJECTS_QUERY.contains("user(login: $login)"));
    assert!(PROJECTS_QUERY.contains("organization(login: $login)"));
    assert!(PROJECTS_QUERY.contains("pageInfo"));
}

#[test]
fn add_item_mutation_uses_the_documented_input() {
    assert!(ADD_ITEM_MUTATION.contains("addProjectV2ItemById(input: { projectId: $projectId, contentId: $contentId })"));
}

// ---------------------------------------------------------------------------

#[test]
fn boards_are_found_by_exact_title() {
    let boards = vec![board("PVT_1", "Front", 1), board("PVT_2", "API", 2), board("PVT_3", "Front", 3)];
    let p = find_project(&boards, "Org", "Front").unwrap();
    assert_eq!((p.id.as_str(), p.number), ("PVT_1", 1));
    let err = find_project(&boards, "Org", "front").unwrap_err();
    assert_eq!(err.message(), "Project 'front' not found for owner 'Org'. Available projects: ['API', 'Front', 'Front']");
}

#[test]
fn the_user_answers_before_the_organisation() {
    let both = parse(r#"{"user": {"a": 1}, "organization": {"b": 2}}"#);
    assert_eq!(project_owner(&both, "x").unwrap().1, "user");
    let org = parse(r#"{"user": null, "organization": {"b": 2}}"#);
    assert_eq!(project_owner(&org, "x").unwrap().1, "organization");
    let none = parse(r#"{"user": null, "organization": null}"#);
    assert_eq!(project_owner(&none, "ghost").unwrap_err().message(), "no user or organization named 'ghost'");
}

#[test]
fn pages_are_followed_only_while_there_is_a_cursor() {
    assert_eq!(next_page_cursor(true, Some("c2".into())).as_deref(), Some("c2"));
    assert_eq!(next_page_cursor(true, None), None);
    assert_eq!(next_page_cursor(false, Some("c2".into())), None);
    let mut out = vec![board("PVT_0", "Old", 0)];
    push_page(&mut out, &[("PVT_1".into(), "Front".into(), 1), ("PVT_2".into(), "API".into(), 2)], "organization");
    assert_eq!(out.len(), 3);
    assert_eq!(out[2].title, "API");
    assert_eq!(out[2].owner_kind, "organization");
}

#[test]
fn graphql_answers_are_read() {
    let ok = parse(r#"{"data": {"x": 1}}"#);
    assert!(graphql_data(&ok).is_ok());
    let empty_errors = parse(r#"{"errors": [], "data": {"x": 1}}"#);
    assert!(graphql_data(&empty_errors).is_ok());
    let failed = parse(r#"{"errors": [{"message": "Resource not accessible by integration"}]}"#);
    let e = graphql_data(&failed).unwrap_err();
    assert_eq!(e.message(), "GitHub returned 403: Resource not accessible by integration");
    let no_data = parse(r#"{"extensions": {}}"#);
    assert_eq!(graphql_data(&no_data).unwrap_err().message(), "GraphQL response has no data");
    assert_eq!(graphql_url("https://api.github.com/"), "https://api.github.com/graphql");
}

#[test]
fn the_added_item_id_is_read() {
    let data = parse(r#"{"addProjectV2ItemById": {"item": {"id": "PVTI_9"}}}"#);
    assert_eq!(added_item_id(&data).unwrap(), "PVTI_9");
    let missing = parse(r#"{"addProjectV2ItemById": {"item": null}}"#);
    assert_eq!(added_item_id(&missing).unwrap_err().message(), "addProjectV2ItemById returned no item");
}
