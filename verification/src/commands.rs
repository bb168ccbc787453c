//! What the app's commands decide: preferences, the sign-in status shown,
//! the task preview, the dry-run report, and the checks made before a run.
//! The commands themselves, which read files and talk to GitHub, stand
//! around these functions.

use vstd::prelude::*;
use crate::text::{owned, push_str, trim, trim_str, copy_strings, views};
use crate::auth::{Account, AuthMethod, SecretToken, method_label, absent, required_scopes};
use crate::state::{AppPaths, Config, ImportState, join_name, joined};
use crate::secrets::{Store, store_for, VAULT_FILE};
use crate::strmap::strictly_sorted;
use crate::tasks::{Task, ValidationReport, Settings, cli_report, validate, validation_errors, to_task, task_matches};
use crate::json::JsonValue;
use crate::importer::{ImportSummary, cli_summary, same_summary};

verus! {

broadcast use vstd::seq_lib::group_seq_properties;

/// The event name the importer streams progress on.
pub const PROGRESS_EVENT: &'static str = "import://progress";

/// The event name the device-flow poller streams status on.
pub const AUTH_EVENT: &'static str = "auth://device";

/// The file holding the app's own preferences, in the workspace.
pub const PREFS_FILE: &'static str = "desktop-settings.json";

/// An authenticated session.
pub struct Session {
    pub token: SecretToken,
    pub account: Account,
    pub method: AuthMethod,
}

/// Preferences that are not part of the workspace.
#[derive(Debug, Clone)]
pub struct Prefs {
    /// The OAuth App client id.
    pub client_id: String,
    /// Keep the token between runs; when false it is held in memory only.
    pub remember_token: bool,
    /// Optional passphrase for the encrypted vault.
    pub vault_passphrase: Option<String>,
}

impl Default for Prefs {
    fn default() -> (res: Self)
        ensures
            res.client_id@ == Seq::<char>::empty(),
            !res.remember_token,
            res.vault_passphrase is None,
    {
        Prefs { client_id: String::new(), remember_token: false, vault_passphrase: None }
    }
}

/// What a preferences file that omits `rememberToken` means: remember.
pub fn default_true() -> (res: bool)
    ensures
        res,
{
    true
}

impl Prefs {
    /// Where the preferences are kept.
    pub fn path(paths: &AppPaths) -> (res: String)
        ensures
            joined(res@, paths.base_dir@, PREFS_FILE@),
    {
        join_name(paths.base_dir.as_str(), PREFS_FILE)
    }

    /// A build-time client id fills in an empty one.
    pub fn with_builtin_client_id(&mut self, builtin: Option<&str>)
        ensures
            (old(self).client_id@.len() == 0 && builtin is Some) ==> final(self).client_id@ == builtin->0@,
            !(old(self).client_id@.len() == 0 && builtin is Some) ==> final(self).client_id@ == old(self).client_id@,
            final(self).remember_token == old(self).remember_token,
            final(self).vault_passphrase == old(self).vault_passphrase,
    {
        if self.client_id.unicode_len() == 0 {
            match builtin {
                Some(b) => self.client_id = owned(b),
                None => {},
            }
        }
    }
}

/// The store the saved preferences imply: "don't remember me" is memory
/// only, so the token is never written anywhere.
pub fn vault_for(paths: &AppPaths, prefs: &Prefs) -> (res: Store)
    ensures
        prefs.remember_token ==> (res matches Store::Vault(v) && joined(v.path_spec(), paths.base_dir@, VAULT_FILE@)
            && v.passphrase_spec() == match prefs.vault_passphrase { Some(p) => Some(p@), None => None }),
        !prefs.remember_token ==> (res matches Store::Memory(m) && m.held() is None),
{
    let passphrase = match &prefs.vault_passphrase {
        Some(p) => Some(p.clone()),
        None => None,
    };
    store_for(paths.base_dir.as_str(), prefs.remember_token, passphrase)
}

/// The sign-in state the app shows.
#[derive(Debug, Clone)]
pub struct AuthStatus {
    pub signed_in: bool,
    pub login: Option<String>,
    pub name: Option<String>,
    pub method: Option<String>,
    pub scopes: Vec<String>,
    pub missing_scopes: Vec<String>,
    pub client_id: String,
    pub remember_token: bool,
    /// Set when a stored token existed but the vault could not be opened.
    pub vault_error: Option<String>,
}

/// The status for the current session (if any) and preferences.
pub fn status_from(session: Option<&Session>, prefs: &Prefs, vault_error: Option<String>) -> (res: AuthStatus)
    ensures
        res.client_id@ == prefs.client_id@,
        res.remember_token == prefs.remember_token,
        res.vault_error == vault_error,
        match session {
            Some(s) => {
                &&& res.signed_in
                &&& res.login matches Some(l) && l@ == s.account.login@
                &&& res.name == s.account.name
                &&& res.method matches Some(m) && m@ == method_label(s.method)
                &&& res.scopes@ == s.account.scopes@
                &&& (s.account.scopes@.len() == 0 ==> res.missing_scopes@.len() == 0)
                &&& (s.account.scopes@.len() > 0 ==> views(res.missing_scopes@) == absent(required_scopes(), views(s.account.scopes@)))
            },
            None => !res.signed_in && res.login is None && res.name is None && res.method is None
                && res.scopes@.len() == 0 && res.missing_scopes@.len() == 0,
        },
{
    match session {
        Some(s) => AuthStatus {
            signed_in: true,
            login: Some(s.account.login.clone()),
            name: s.account.name.clone(),
            method: Some(owned(s.method.label())),
            scopes: copy_strings(&s.account.scopes),
            missing_scopes: s.account.missing_scopes(),
            client_id: prefs.client_id.clone(),
            remember_token: prefs.remember_token,
            vault_error,
        },
        None => AuthStatus {
            signed_in: false,
            login: None,
            name: None,
            method: None,
            scopes: Vec::new(),
            missing_scopes: Vec::new(),
            client_id: prefs.client_id.clone(),
            remember_token: prefs.remember_token,
            vault_error,
        },
    }
}

/// A pasted token, trimmed; an empty one is refused.
pub fn pat_from_input(token: &str) -> (res: Result<String, String>)
    ensures
        trim(token@).len() > 0 ==> (res matches Ok(t) && t@ == trim(token@)),
        trim(token@).len() == 0 ==> (res matches Err(e) && e@ == "Enter a token first."@),
{
    let t = trim_str(token);
    if t.unicode_len() == 0 { Err(owned("Enter a token first.")) } else { Ok(t) }
}

/// The message when the device flow is started without a client id.
pub open spec fn no_client_id_text() -> Seq<char> {
    "No OAuth App client id is configured. Register an OAuth App with device flow enabled (see the README), then paste its client id here \u{2014} or use a personal access token instead."@
}

/// The device flow needs a client id.
pub fn device_flow_precheck(client_id: &str) -> (res: Result<(), String>)
    ensures
        res is Ok <==> trim(client_id@).len() > 0,
        res matches Err(e) ==> e@ == no_client_id_text(),
{
    let t = trim_str(client_id);
    if t.unicode_len() == 0 {
        Err(owned(
            "No OAuth App client id is configured. Register an OAuth App with device flow enabled (see the README), then paste its client id here \u{2014} or use a personal access token instead.",
        ))
    } else {
        Ok(())
    }
}

/// `prefix` followed by an error's text.
pub fn prefixed(prefix: &str, text: &str) -> (res: String)
    ensures
        res@ == prefix@ + text@,
{
    let mut out = owned(prefix);
    push_str(&mut out, text);
    out
}

/// One task as the preview table shows it.
#[derive(Debug, Clone)]
pub struct PreviewRow {
    pub id: String,
    pub priority: String,
    pub module: String,
    pub title: String,
    pub labels: Vec<String>,
    pub depends_on: Vec<String>,
    pub parent: Option<String>,
}

/// `row` shows `t`.
pub open spec fn shows(row: PreviewRow, t: Task) -> bool {
    &&& row.id == t.id
    &&& row.priority == t.priority
    &&& row.module == t.module
    &&& row.title == t.title
    &&& row.labels@ == t.labels@
    &&& row.depends_on@ == t.depends_on@
    &&& row.parent == t.parent
}

/// The preview rows of the parsed tasks, in order.
pub fn preview_rows(tasks: &[Task]) -> (res: Vec<PreviewRow>)
    ensures
        res@.len() == tasks@.len(),
        forall|i: int| 0 <= i < tasks@.len() ==> shows(#[trigger] res@[i], tasks@[i]),
{
    let mut out: Vec<PreviewRow> = Vec::new();
    let mut i: usize = 0;
    while i < tasks.len()
        invariant
            i <= tasks@.len(),
            out@.len() == i,
            forall|k: int| 0 <= k < i ==> shows(#[trigger] out@[k], tasks@[k]),
        decreases tasks.len() - i,
    {
        let t = &tasks[i];
        let parent = match &t.parent {
            Some(p) => Some(p.clone()),
            None => None,
        };
        out.push(PreviewRow {
            id: t.id.clone(),
            priority: t.priority.clone(),
            module: t.module.clone(),
            title: t.title.clone(),
            labels: copy_strings(&t.labels),
            depends_on: copy_strings(&t.depends_on),
            parent,
        });
        i = i + 1;
    }
    out
}

/// What the app shows of the workspace.
#[derive(Debug, Clone)]
pub struct Workspace {
    pub config: Option<Config>,
    pub config_error: Option<String>,
    pub tasks_source: Option<String>,
    pub tasks_error: Option<String>,
    pub task_count: usize,
    pub validation: Option<ValidationReport>,
    pub preview: Vec<PreviewRow>,
    pub settings: Settings,
    pub settings_banner: String,
}

/// App and workspace information.
#[derive(Debug, Clone)]
pub struct AppInfo {
    pub version: String,
    pub portable: bool,
    pub base_dir: String,
    pub config_path: String,
    pub tasks_path: String,
    pub state_path: String,
    pub state_exists: bool,
    pub builtin_client_id: Option<String>,
    pub gh_cli_available: bool,
}

/// What a run is asked to do.
#[derive(Debug, Clone)]
pub struct ImportRequest {
    pub dry_run: bool,
    pub skip_relationships: bool,
    pub skip_project: bool,
}

/// A dry run's totals and the CLI's closing lines for them.
#[derive(Debug, Clone)]
pub struct RunReport {
    pub summary: ImportSummary,
    pub cli_output: String,
}

/// How many tasks have a non-empty id.
pub open spec fn named_count(tasks: Seq<Task>) -> nat
    decreases tasks.len(),
{
    if tasks.len() == 0 {
        0
    } else {
        named_count(tasks.drop_last()) + if tasks.last().id@.len() > 0 { 1nat } else { 0nat }
    }
}

/// The dry-run preview: every task with an id counts as created, and the
/// report is the CLI's closing lines for that.
pub fn dry_run_preview(tasks: &[Task], skip_relationships: bool) -> (res: RunReport)
    ensures
        res.summary.dry_run,
        res.summary.created == named_count(tasks@),
        res.summary.skipped == 0 && res.summary.tracked_count == 0,
        res.summary.relationships_applied == 0 && res.summary.relationships_already == 0 && res.summary.relationships_failed == 0,
        res.summary.already_ids@.len() == 0 && res.summary.failed_ids@.len() == 0,
        res.cli_output@ == cli_summary(res.summary, skip_relationships),
{
    let mut out = ImportSummary::default();
    out.dry_run = true;
    let mut count: usize = 0;
    let mut i: usize = 0;
    while i < tasks.len()
        invariant
            i <= tasks@.len(),
            count == named_count(tasks@.subrange(0, i as int)),
            count <= i,
        decreases tasks.len() - i,
    {
        proof {
            let s = tasks@.subrange(0, i + 1);
            assert(s.drop_last() =~= tasks@.subrange(0, i as int));
            assert(s.last() == tasks@[i as int]);
        }
        if tasks[i].id.unicode_len() > 0 {
            count = count + 1;
        }
        i = i + 1;
    }
    assert(tasks@.subrange(0, tasks@.len() as int) =~= tasks@);
    out.created = count;
    let cli_output = out.to_cli_output(skip_relationships);
    RunReport { summary: out, cli_output }
}

/// The objects among the raw tasks, in order.
pub open spec fn object_tasks(raw: Seq<JsonValue>) -> Seq<JsonValue>
    decreases raw.len(),
{
    if raw.len() == 0 {
        Seq::empty()
    } else {
        let rest = object_tasks(raw.drop_last());
        if raw.last() is Object { rest.push(raw.last()) } else { rest }
    }
}

/// A loaded backlog: its validation report, and its tasks when it
/// validated (none otherwise).
pub fn load_backlog(raw: &[JsonValue]) -> (res: (ValidationReport, Vec<Task>))
    ensures
        views(res.0.errors@) == validation_errors(raw@),
        res.0.ok == (res.0.errors@.len() == 0),
        res.0.task_count == raw@.len(),
        !res.0.ok ==> res.1@.len() == 0,
        res.0.ok ==> res.1@.len() == object_tasks(raw@).len()
            && forall|i: int| 0 <= i < res.1@.len() ==> task_matches(#[trigger] res.1@[i], object_tasks(raw@)[i]),
{
    let report = validate(raw);
    let mut parsed: Vec<Task> = Vec::new();
    if !report.ok {
        return (report, parsed);
    }
    let mut i: usize = 0;
    while i < raw.len()
        invariant
            i <= raw@.len(),
            parsed@.len() == object_tasks(raw@.subrange(0, i as int)).len(),
            forall|k: int| 0 <= k < parsed@.len() ==> task_matches(#[trigger] parsed@[k], object_tasks(raw@.subrange(0, i as int))[k]),
        decreases raw.len() - i,
    {
        let ghost before = parsed@;
        proof {
            let s = raw@.subrange(0, i + 1);
            assert(s.drop_last() =~= raw@.subrange(0, i as int));
            assert(s.last() == raw@[i as int]);
        }
        match to_task(&raw[i]) {
            Some(t) => {
                parsed.push(t);
                proof {
                    let o = object_tasks(raw@.subrange(0, i + 1));
                    assert forall|k: int| 0 <= k < parsed@.len() implies task_matches(#[trigger] parsed@[k], o[k]) by {
                        if k < before.len() {
                            assert(parsed@[k] == before[k]);
                        }
                    }
                }
            },
            None => {},
        }
        i = i + 1;
    }
    assert(raw@.subrange(0, raw@.len() as int) =~= raw@);
    (report, parsed)
}

/// A run needs a backlog that validated; otherwise this is the message.
pub fn validation_failure(report: &ValidationReport) -> (res: Option<String>)
    ensures
        report.ok ==> res is None,
        !report.ok ==> (res matches Some(m) && m@ == "The backlog did not validate:\n"@
            + cli_report(views(report.errors@), report.task_count as nat)),
{
    if report.ok {
        None
    } else {
        let mut m = owned("The backlog did not validate:\n");
        let text = report.to_cli_output();
        push_str(&mut m, text.as_str());
        Some(m)
    }
}

/// Does the config name a project board to resolve?
pub fn project_wanted(config: &Config) -> (res: bool)
    ensures
        res == (trim(config.project@).len() > 0 && trim(config.project_owner@).len() > 0),
{
    let p = trim_str(config.project.as_str());
    let o = trim_str(config.project_owner.as_str());
    p.unicode_len() > 0 && o.unicode_len() > 0
}

/// The spellings of the task statuses, as the results table receives them.
pub fn task_statuses() -> (res: Vec<&'static str>)
    ensures
        res@.map_values(|s: &str| s@) == seq!["created"@, "skipped"@, "added"@, "already_set"@, "failed"@, "would_create"@, "would_add"@],
{
    let res = vec!["created", "skipped", "added", "already_set", "failed", "would_create", "would_add"];
    assert(res@.map_values(|s: &str| s@) =~= seq!["created"@, "skipped"@, "added"@, "already_set"@, "failed"@, "would_create"@, "would_add"@]);
    res
}

/// One row of the results table: a tracked task, its issue number, and
/// whether it is on the board.
#[derive(Debug, Clone)]
pub struct TaskStatusRow {
    pub id: String,
    pub number: u64,
    pub on_project: bool,
}

/// The results table: every task the state tracks, ids ascending.
pub fn import_statuses(state: &ImportState) -> (res: Vec<TaskStatusRow>)
    ensures
        res@.len() == state.issues@.dom().len(),
        forall|i: int, j: int| 0 <= i < j < res@.len() ==> crate::strmap::lex_lt(#[trigger] res@[i].id@, #[trigger] res@[j].id@),
        forall|i: int| 0 <= i < res@.len() ==> {
            let r = #[trigger] res@[i];
            &&& state.issues@.contains_key(r.id@)
            &&& state.issues@[r.id@] == r.number
            &&& r.on_project == state.project_items@.contains_key(r.id@)
        },
        forall|k: Seq<char>| #[trigger] state.issues@.contains_key(k) ==> exists|i: int| 0 <= i < res@.len() && res@[i].id@ == k,
{
    let entries = state.issues.entries();
    assert forall|k: int| 0 <= k < entries@.len() implies #[trigger] state.issues@.contains_key(entries@[k].0@)
        && state.issues@[entries@[k].0@] == entries@[k].1 by {
        assert(state.issues@.contains_key(entries@[k].0@));
    }
    let mut out: Vec<TaskStatusRow> = Vec::new();
    let mut i: usize = 0;
    while i < entries.len()
        invariant
            i <= entries@.len(),
            strictly_sorted(entries@),
            out@.len() == i,
            forall|k: int| 0 <= k < entries@.len() ==> #[trigger] state.issues@.contains_key(entries@[k].0@)
                && state.issues@[entries@[k].0@] == entries@[k].1,
            forall|k: int| 0 <= k < i ==> {
                let r = #[trigger] out@[k];
                &&& r.id@ == entries@[k].0@
                &&& r.number == entries@[k].1
                &&& r.on_project == state.project_items@.contains_key(entries@[k].0@)
            },
        decreases entries.len() - i,
    {
        let on_project = state.project_items.contains_key(entries[i].0.as_str());
        out.push(TaskStatusRow { id: entries[i].0.clone(), number: entries[i].1, on_project });
        i = i + 1;
    }
    proof {
        assert forall|a: int, b: int| 0 <= a < b < out@.len() implies crate::strmap::lex_lt(#[trigger] out@[a].id@, #[trigger] out@[b].id@) by {
            assert(out@[a].id@ == entries@[a].0@);
            assert(out@[b].id@ == entries@[b].0@);
        }
        assert forall|k: Seq<char>| #[trigger] state.issues@.contains_key(k) implies exists|i: int| 0 <= i < out@.len() && out@[i].id@ == k by {
            let j = choose|j: int| 0 <= j < entries@.len() && entries@[j].0@ == k;
            assert(out@[j].id@ == k);
        }
    }
    out
}

} // verus!
