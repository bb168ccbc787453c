//! GitHub Projects V2 over GraphQL: the documents sent, and how the answers
//! are read. Projects V2 has no REST equivalent.

use vstd::prelude::*;
use crate::json::{JsonValue, field, as_str_spec};
use crate::github::{GithubError, error_from_graphql_body, graphql_error_is};
use crate::text::{owned, push_str, str_chars, string_from_range, strip_trailing, strip_trailing_bound, str_eq, views};
use crate::tasks::{project_not_found_message, not_found_text};

verus! {

broadcast use vstd::seq_lib::group_seq_properties;

/// One Projects V2 board.
#[derive(Debug, Clone)]
pub struct Project {
    /// The GraphQL global id: `projectId` on `addProjectV2ItemById`.
    pub id: String,
    pub title: String,
    pub number: u64,
    /// Which of the two owner types answered.
    pub owner_kind: String,
}

/// One query fetches both owner types; whichever is non-null answers.
pub const PROJECTS_QUERY: &'static str = r#"
query($login: String!, $cursor: String) {
  user(login: $login) {
    projectsV2(first: 100, after: $cursor) {
      pageInfo { hasNextPage endCursor }
      nodes { id title number }
    }
  }
  organization(login: $login) {
    projectsV2(first: 100, after: $cursor) {
      pageInfo { hasNextPage endCursor }
      nodes { id title number }
    }
  }
}"#;

/// Adds an existing issue (by node id) to a board.
pub const ADD_ITEM_MUTATION: &'static str = r#"
mutation($projectId: ID!, $contentId: ID!) {
  addProjectV2ItemById(input: { projectId: $projectId, contentId: $contentId }) {
    item { id }
  }
}"#;

/// The GraphQL endpoint under an API base URL.
pub fn graphql_url(base_url: &str) -> (res: String)
    ensures
        res@ == strip_trailing(base_url@, '/') + "/graphql"@,
{
    let cs = str_chars(base_url);
    let e = strip_trailing_bound(cs.as_slice(), 0, cs.len(), '/');
    assert(cs@.subrange(0, cs@.len() as int) =~= cs@);
    let mut out = string_from_range(cs.as_slice(), 0, e);
    push_str(&mut out, "/graphql");
    out
}

/// The request body: `{"query": ..., "variables": ...}`.
pub fn graphql_payload(query: &str, variables: JsonValue) -> (res: JsonValue)
    ensures
        res == JsonValue::Object(res->Object_0),
        res->Object_0@.len() == 2,
        res->Object_0@[0].0@ == "query"@,
        res->Object_0@[0].1 == JsonValue::Str(res->Object_0@[0].1->Str_0),
        res->Object_0@[0].1->Str_0@ == query@,
        res->Object_0@[1].0@ == "variables"@,
        res->Object_0@[1].1 == variables,
{
    JsonValue::Object(vec![(owned("query"), JsonValue::Str(owned(query))), (owned("variables"), variables)])
}

/// The variables of [`PROJECTS_QUERY`]: the login, and the cursor or null.
pub fn projects_variables(login: &str, cursor: Option<&str>) -> (res: JsonValue)
    ensures
        res == JsonValue::Object(res->Object_0),
        res->Object_0@.len() == 2,
        res->Object_0@[0].0@ == "login"@,
        res->Object_0@[0].1 is Str && res->Object_0@[0].1->Str_0@ == login@,
        res->Object_0@[1].0@ == "cursor"@,
        match cursor {
            Some(c) => res->Object_0@[1].1 is Str && res->Object_0@[1].1->Str_0@ == c@,
            None => res->Object_0@[1].1 is Null,
        },
{
    let c = match cursor {
        Some(c) => JsonValue::Str(owned(c)),
        None => JsonValue::Null,
    };
    JsonValue::Object(vec![(owned("login"), JsonValue::Str(owned(login))), (owned("cursor"), c)])
}

/// The variables of [`ADD_ITEM_MUTATION`].
pub fn add_item_variables(project_id: &str, content_id: &str) -> (res: JsonValue)
    ensures
        res == JsonValue::Object(res->Object_0),
        res->Object_0@.len() == 2,
        res->Object_0@[0].0@ == "projectId"@,
        res->Object_0@[0].1 is Str && res->Object_0@[0].1->Str_0@ == project_id@,
        res->Object_0@[1].0@ == "contentId"@,
        res->Object_0@[1].1 is Str && res->Object_0@[1].1->Str_0@ == content_id@,
{
    JsonValue::Object(vec![
        (owned("projectId"), JsonValue::Str(owned(project_id))),
        (owned("contentId"), JsonValue::Str(owned(content_id))),
    ])
}

/// The `errors` array of a GraphQL answer, when it is a non-empty array.
pub open spec fn graphql_errors(parsed: JsonValue) -> Option<Seq<JsonValue>> {
    match field(parsed, "errors"@) {
        Some(JsonValue::Array(a)) => if a@.len() > 0 { Some(a@) } else { None },
        _ => None,
    }
}

/// Reads a 200 GraphQL answer: a non-empty `errors` array is the error it
/// describes, otherwise `data` is the result. GraphQL reports partial
/// failure in the body, not in the status.
pub fn graphql_data(parsed: &JsonValue) -> (res: Result<&JsonValue, GithubError>)
    ensures
        match graphql_errors(*parsed) {
            Some(errs) => res matches Err(e) && graphql_error_is(e, errs, *parsed),
            None => match field(*parsed, "data"@) {
                Some(d) => res matches Ok(r) && *r == d,
                None => res matches Err(e) && e is Other && e->Other_0@ == "GraphQL response has no data"@,
            },
        },
{
    match parsed.get("errors") {
        Some(JsonValue::Array(a)) => {
            if a.len() > 0 {
                return Err(error_from_graphql_body(a.as_slice(), parsed));
            }
        },
        _ => {},
    }
    match parsed.get("data") {
        Some(d) => Ok(d),
        None => Err(GithubError::Other(owned("GraphQL response has no data"))),
    }
}

/// A member that is present and not null.
pub open spec fn non_null(v: Option<JsonValue>) -> Option<JsonValue> {
    match v {
        Some(x) => if x is Null { None } else { Some(x) },
        None => None,
    }
}

/// The message when neither owner type answers.
pub open spec fn no_owner_text(login: Seq<char>) -> Seq<char> {
    "no user or organization named '"@ + login + "'"@
}

/// Which owner answered a projects query: the user when non-null, else the
/// organisation, with the kind named for diagnostics.
pub fn project_owner<'a>(data: &'a JsonValue, login: &str) -> (res: Result<(&'a JsonValue, &'static str), GithubError>)
    ensures
        match (non_null(field(*data, "user"@)), non_null(field(*data, "organization"@))) {
            (Some(u), _) => res matches Ok((o, k)) && *o == u && k@ == "user"@,
            (None, Some(g)) => res matches Ok((o, k)) && *o == g && k@ == "organization"@,
            (None, None) => res matches Err(e) && e is Other && e->Other_0@ == no_owner_text(login@),
        },
{
    match data.get("user") {
        Some(u) => {
            if !u.is_null() {
                return Ok((u, "user"));
            }
        },
        None => {},
    }
    match data.get("organization") {
        Some(o) => {
            if !o.is_null() {
                return Ok((o, "organization"));
            }
        },
        None => {},
    }
    let mut m = owned("no user or organization named '");
    push_str(&mut m, login);
    push_str(&mut m, "'");
    Err(GithubError::Other(m))
}

/// The cursor of the next page: `endCursor` when `hasNextPage`, and no
/// further page otherwise or when the cursor is missing.
pub fn next_page_cursor(has_next_page: bool, end_cursor: Option<String>) -> (res: Option<String>)
    ensures
        res == (if has_next_page { end_cursor } else { None }),
{
    if has_next_page { end_cursor } else { None }
}

/// Appends one page's nodes `(id, title, number)` as projects of the owner
/// kind that answered.
pub fn push_page(out: &mut Vec<Project>, nodes: &[(String, String, u64)], kind: &str)
    ensures
        final(out)@.len() == old(out)@.len() + nodes@.len(),
        forall|i: int| 0 <= i < old(out)@.len() ==> final(out)@[i] == old(out)@[i],
        forall|i: int| 0 <= i < nodes@.len() ==> {
            let p = #[trigger] final(out)@[old(out)@.len() + i];
            &&& p.id@ == nodes@[i].0@
            &&& p.title@ == nodes@[i].1@
            &&& p.number == nodes@[i].2
            &&& p.owner_kind@ == kind@
        },
{
    let ghost start = out@;
    let mut k: usize = 0;
    while k < nodes.len()
        invariant
            k <= nodes@.len(),
            out@.len() == start.len() + k,
            forall|i: int| 0 <= i < start.len() ==> out@[i] == start[i],
            forall|i: int| 0 <= i < k ==> {
                let p = #[trigger] out@[start.len() + i];
                &&& p.id@ == nodes@[i].0@
                &&& p.title@ == nodes@[i].1@
                &&& p.number == nodes@[i].2
                &&& p.owner_kind@ == kind@
            },
        decreases nodes.len() - k,
    {
        let (id, title, number) = &nodes[k];
        out.push(Project { id: id.clone(), title: title.clone(), number: *number, owner_kind: owned(kind) });
        k = k + 1;
    }
}

/// The first board titled exactly `name`.
pub open spec fn first_titled(projects: Seq<Project>, name: Seq<char>) -> Option<int> {
    if exists|i: int| 0 <= i < projects.len() && projects[i].title@ == name {
        Some(choose|i: int| 0 <= i < projects.len() && projects[i].title@ == name
            && forall|j: int| 0 <= j < i ==> projects[j].title@ != name)
    } else {
        None
    }
}

/// The titles of the boards, in order.
pub open spec fn titles(projects: Seq<Project>) -> Seq<Seq<char>> {
    projects.map_values(|p: Project| p.title@)
}

/// Resolves a board by exact title, as the CLI's `project_check` does; the
/// error lists the boards there are.
pub fn find_project(projects: &[Project], owner: &str, name: &str) -> (res: Result<Project, GithubError>)
    ensures
        match res {
            Ok(p) => exists|i: int| 0 <= i < projects@.len() && projects@[i].title@ == name@
                && (forall|j: int| 0 <= j < i ==> projects@[j].title@ != name@)
                && p.id@ == projects@[i].id@ && p.title@ == projects@[i].title@
                && p.number == projects@[i].number && p.owner_kind@ == projects@[i].owner_kind@,
            Err(e) => (forall|i: int| 0 <= i < projects@.len() ==> projects@[i].title@ != name@)
                && e is Other && e->Other_0@ == not_found_text(owner@, name@, titles(projects@)),
        },
{
    let mut i: usize = 0;
    while i < projects.len()
        invariant
            i <= projects@.len(),
            forall|j: int| 0 <= j < i ==> projects@[j].title@ != name@,
        decreases projects.len() - i,
    {
        if str_eq(projects[i].title.as_str(), name) {
            let p = &projects[i];
            return Ok(Project { id: p.id.clone(), title: p.title.clone(), number: p.number, owner_kind: p.owner_kind.clone() });
        }
        i = i + 1;
    }
    let mut names: Vec<String> = Vec::new();
    let mut k: usize = 0;
    while k < projects.len()
        invariant
            k <= projects@.len(),
            names@.len() == k,
            views(names@) == titles(projects@.subrange(0, k as int)),
        decreases projects.len() - k,
    {
        let ghost before = names@;
        names.push(projects[k].title.clone());
        proof {
            let a = views(names@);
            let b = titles(projects@.subrange(0, k + 1));
            assert forall|i: int| 0 <= i < a.len() implies a[i] == b[i] by {
                if i < k {
                    assert(names@[i] == before[i]);
                    assert(views(before)[i] == titles(projects@.subrange(0, k as int))[i]);
                }
            }
            assert(a =~= b);
        }
        k = k + 1;
    }
    assert(projects@.subrange(0, projects@.len() as int) =~= projects@);
    Err(GithubError::Other(project_not_found_message(owner, name, names.as_slice())))
}

/// The item id `addProjectV2ItemById` returned.
pub open spec fn added_item(data: JsonValue) -> Option<Seq<char>> {
    match field(data, "addProjectV2ItemById"@) {
        Some(a) => match field(a, "item"@) {
            Some(item) => as_str_spec(field(item, "id"@)),
            None => None,
        },
        None => None,
    }
}

/// Reads the new item's id from an `addProjectV2ItemById` answer.
pub fn added_item_id(data: &JsonValue) -> (res: Result<String, GithubError>)
    ensures
        match added_item(*data) {
            Some(id) => res matches Ok(s) && s@ == id,
            None => res matches Err(e) && e is Other && e->Other_0@ == "addProjectV2ItemById returned no item"@,
        },
{
    match data.get("addProjectV2ItemById") {
        Some(a) => match a.get("item") {
            Some(item) => match item.get("id") {
                Some(JsonValue::Str(s)) => return Ok(s.clone()),
                _ => {},
            },
            None => {},
        },
        None => {},
    }
    Err(GithubError::Other(owned("addProjectV2ItemById returned no item")))
}

} // verus!
