//! Import orchestration: what each phase decides for each task, how outcomes
//! are tallied, and the closing report.
//!
//! The network calls happen between these functions; every decision is made
//! here. Two properties shape it: resumability (state is recorded after each
//! step, so a rerun reconciles rather than starts over) and idempotency (an
//! issue the state or GitHub already knows is skipped, never duplicated).

use vstd::prelude::*;
use crate::text::{has_prefix, has_infix, occurs_at, lemma_join_holds_each, views, decimal, join, push_str, push_decimal, push_joined, copy_strings, owned, contains_string, str_chars, string_from_range};
use crate::strmap::StrMap;
use crate::state::ImportState;
use crate::github::{GithubError, CreatedIssue, Issue, RepoRef, error_text, benign_text};
use crate::graphql::Project;
use crate::tasks::{title_id, task_id_from_title, Settings};
use crate::json::{JsonValue, field, as_str_spec};

verus! {

broadcast use vstd::seq_lib::group_seq_properties;

/// Which stage of the run is in progress.
#[derive(Debug, Clone, Copy, PartialEq, Eq, Structural)]
pub enum Phase {
    Preflight,
    Labels,
    Issues,
    Project,
    Relationships,
    Finished,
}

/// The label a phase is shown with.
pub open spec fn phase_label(p: Phase) -> Seq<char> {
    match p {
        Phase::Preflight => "Checking access"@,
        Phase::Labels => "Creating labels"@,
        Phase::Issues => "Creating issues"@,
        Phase::Project => "Adding to the project board"@,
        Phase::Relationships => "Applying relationships"@,
        Phase::Finished => "Finished"@,
    }
}

impl Phase {
    /// The human-readable label of the phase.
    pub fn label(&self) -> (res: &'static str)
        ensures
            res@ == phase_label(*self),
    {
        match self {
            Phase::Preflight => "Checking access",
            Phase::Labels => "Creating labels",
            Phase::Issues => "Creating issues",
            Phase::Project => "Adding to the project board",
            Phase::Relationships => "Applying relationships",
            Phase::Finished => "Finished",
        }
    }
}

/// The outcome of one task in one phase.
#[derive(Debug, Clone, Copy, PartialEq, Eq, Structural)]
pub enum TaskStatus {
    Created,
    /// Already existed on GitHub, so nothing was written.
    Skipped,
    Added,
    /// A relationship was already in place.
    AlreadySet,
    Failed,
    /// Counted only, for a dry run.
    WouldCreate,
    WouldAdd,
}

/// Running totals, mirroring the CLI's end-of-run report.
#[derive(Debug, Clone)]
pub struct ImportSummary {
    pub created: usize,
    pub skipped: usize,
    pub tracked_count: usize,
    pub labels_created: Vec<String>,
    pub project_items_added: usize,
    pub relationships_applied: usize,
    pub relationships_already: usize,
    pub relationships_failed: usize,
    pub already_ids: Vec<String>,
    pub failed_ids: Vec<String>,
    /// Non-fatal problems worth showing at the end.
    pub warnings: Vec<String>,
    pub dry_run: bool,
}

impl Default for ImportSummary {
    fn default() -> (res: Self)
        ensures
            res.created == 0 && res.skipped == 0 && res.tracked_count == 0,
            res.labels_created@ == Seq::<String>::empty(),
            res.project_items_added == 0,
            res.relationships_applied == 0 && res.relationships_already == 0 && res.relationships_failed == 0,
            res.already_ids@ == Seq::<String>::empty(),
            res.failed_ids@ == Seq::<String>::empty(),
            res.warnings@ == Seq::<String>::empty(),
            !res.dry_run,
    {
        ImportSummary {
            created: 0,
            skipped: 0,
            tracked_count: 0,
            labels_created: Vec::new(),
            project_items_added: 0,
            relationships_applied: 0,
            relationships_already: 0,
            relationships_failed: 0,
            already_ids: Vec::new(),
            failed_ids: Vec::new(),
            warnings: Vec::new(),
            dry_run: false,
        }
    }
}

/// Two summaries with the same totals and lists.
pub open spec fn same_summary(a: ImportSummary, b: ImportSummary) -> bool {
    &&& a.created == b.created
    &&& a.skipped == b.skipped
    &&& a.tracked_count == b.tracked_count
    &&& a.labels_created@ == b.labels_created@
    &&& a.project_items_added == b.project_items_added
    &&& a.relationships_applied == b.relationships_applied
    &&& a.relationships_already == b.relationships_already
    &&& a.relationships_failed == b.relationships_failed
    &&& a.already_ids@ == b.already_ids@
    &&& a.failed_ids@ == b.failed_ids@
    &&& a.warnings@ == b.warnings@
    &&& a.dry_run == b.dry_run
}

/// The CLI's closing lines for a summary.
pub open spec fn cli_summary(s: ImportSummary, skip_relationships: bool) -> Seq<char> {
    let relationships = if skip_relationships {
        "\nRelationships skipped (SKIP_RELATIONSHIPS=true).\n"@
    } else {
        "\nAlready set ("@ + decimal(s.relationships_already as nat) + "): "@
            + (if s.already_ids@.len() == 0 { "none"@ } else { join(views(s.already_ids@), ", "@) }) + "\n"@
            + (if s.failed_ids@.len() == 0 {
                Seq::empty()
            } else {
                "Failed ("@ + decimal(s.relationships_failed as nat) + "): "@ + join(views(s.failed_ids@), ", "@) + "\n"@
            })
            + "Relationships: "@ + decimal(s.relationships_applied as nat) + " applied, "@
            + decimal(s.relationships_already as nat) + " already set, "@ + decimal(s.relationships_failed as nat)
            + " failed.\n"@
    };
    relationships + "\nDone. Created "@ + decimal(s.created as nat) + "; tracked "@ + decimal(s.tracked_count as nat) + " tasks.\n"@
}

/// The already-set line lists every link found in place, in order and
/// separated by `, `: unless relationships were skipped, the closing report
/// begins with `\nAlready set (n): ` followed by that list, and every listed
/// link appears in the report.
pub proof fn lemma_already_set_line_lists_all(s: ImportSummary)
    requires
        s.already_ids@.len() > 0,
    ensures
        has_prefix(cli_summary(s, false), "\nAlready set ("@ + decimal(s.relationships_already as nat) + "): "@
            + join(views(s.already_ids@), ", "@) + "\n"@),
        forall|k: int| 0 <= k < s.already_ids@.len() ==> has_infix(cli_summary(s, false), #[trigger] s.already_ids@[k]@),
{
    let head = "\nAlready set ("@ + decimal(s.relationships_already as nat) + "): "@;
    let list = join(views(s.already_ids@), ", "@);
    let line = head + list + "\n"@;
    let out = cli_summary(s, false);
    let rest = out.subrange(line.len() as int, out.len() as int);
    assert(out =~= line + rest);
    assert(out.subrange(0, line.len() as int) =~= line);
    assert forall|k: int| 0 <= k < s.already_ids@.len() implies has_infix(out, #[trigger] s.already_ids@[k]@) by {
        let items = views(s.already_ids@);
        assert(items[k] == s.already_ids@[k]@);
        let p = lemma_join_holds_each(items, ", "@, k);
        let at = head.len() + p;
        assert(out.subrange(at, at + items[k].len()) =~= list.subrange(p, p + items[k].len()));
        assert(occurs_at(out, items[k], at));
    }
}

/// The already-set line of a report.
pub open spec fn already_line(s: ImportSummary) -> Seq<char> {
    "\nAlready set ("@ + decimal(s.relationships_already as nat) + "): "@
        + (if s.already_ids@.len() == 0 { "none"@ } else { join(views(s.already_ids@), ", "@) }) + "\n"@
}

/// The line of the three relationship totals.
pub open spec fn totals_line(s: ImportSummary) -> Seq<char> {
    "Relationships: "@ + decimal(s.relationships_applied as nat) + " applied, "@
        + decimal(s.relationships_already as nat) + " already set, "@ + decimal(s.relationships_failed as nat)
        + " failed.\n"@
}

/// The closing line of a report.
pub open spec fn done_line(s: ImportSummary) -> Seq<char> {
    "\nDone. Created "@ + decimal(s.created as nat) + "; tracked "@ + decimal(s.tracked_count as nat) + " tasks.\n"@
}

/// A report with no failed link: the already-set line, the totals, the
/// closing line, and no failed line.
pub proof fn lemma_report_without_failures(s: ImportSummary)
    requires
        s.failed_ids@.len() == 0,
    ensures
        cli_summary(s, false) == already_line(s) + totals_line(s) + done_line(s),
{
    assert(cli_summary(s, false) =~= already_line(s) + totals_line(s) + done_line(s));
}

/// The failed line lists every link that failed, in order and separated by
/// `, `, between the already-set line and the totals; every failed link
/// appears in the report.
pub proof fn lemma_failed_line_lists_all(s: ImportSummary)
    requires
        s.failed_ids@.len() > 0,
    ensures
        cli_summary(s, false) == already_line(s) + "Failed ("@ + decimal(s.relationships_failed as nat) + "): "@
            + join(views(s.failed_ids@), ", "@) + "\n"@ + totals_line(s) + done_line(s),
        forall|k: int| 0 <= k < s.failed_ids@.len() ==> has_infix(cli_summary(s, false), #[trigger] s.failed_ids@[k]@),
{
    let items = views(s.failed_ids@);
    let head = already_line(s) + "Failed ("@ + decimal(s.relationships_failed as nat) + "): "@;
    let list = join(items, ", "@);
    let tail = "\n"@ + totals_line(s) + done_line(s);
    let out = cli_summary(s, false);
    assert(out =~= head + list + "\n"@ + totals_line(s) + done_line(s));
    assert(out =~= head + list + tail);
    assert forall|k: int| 0 <= k < s.failed_ids@.len() implies has_infix(out, #[trigger] s.failed_ids@[k]@) by {
        assert(items[k] == s.failed_ids@[k]@);
        let p = lemma_join_holds_each(items, ", "@, k);
        let at = head.len() + p;
        assert((head + list + tail).subrange(at, at + items[k].len()) =~= list.subrange(p, p + items[k].len()));
        assert(occurs_at(out, items[k], at));
    }
}

impl ImportSummary {
    /// A copy with the same totals and lists.
    pub fn duplicate(&self) -> (res: ImportSummary)
        ensures
            same_summary(res, *self),
    {
        ImportSummary {
            created: self.created,
            skipped: self.skipped,
            tracked_count: self.tracked_count,
            labels_created: copy_strings(&self.labels_created),
            project_items_added: self.project_items_added,
            relationships_applied: self.relationships_applied,
            relationships_already: self.relationships_already,
            relationships_failed: self.relationships_failed,
            already_ids: copy_strings(&self.already_ids),
            failed_ids: copy_strings(&self.failed_ids),
            warnings: copy_strings(&self.warnings),
            dry_run: self.dry_run,
        }
    }

    /// The CLI's closing lines, so a dry run can be compared with the CLI.
    pub fn to_cli_output(&self, skip_relationships: bool) -> (res: String)
        ensures
            res@ == cli_summary(*self, skip_relationships),
    {
        let mut out = String::new();
        if skip_relationships {
            push_str(&mut out, "\nRelationships skipped (SKIP_RELATIONSHIPS=true).\n");
        } else {
            push_str(&mut out, "\nAlready set (");
            push_decimal(&mut out, self.relationships_already as u64);
            push_str(&mut out, "): ");
            if self.already_ids.len() == 0 {
                push_str(&mut out, "none");
            } else {
                push_joined(&mut out, self.already_ids.as_slice(), ", ");
            }
            push_str(&mut out, "\n");
            if self.failed_ids.len() > 0 {
                push_str(&mut out, "Failed (");
                push_decimal(&mut out, self.relationships_failed as u64);
                push_str(&mut out, "): ");
                push_joined(&mut out, self.failed_ids.as_slice(), ", ");
                push_str(&mut out, "\n");
            }
            push_str(&mut out, "Relationships: ");
            push_decimal(&mut out, self.relationships_applied as u64);
            push_str(&mut out, " applied, ");
            push_decimal(&mut out, self.relationships_already as u64);
            push_str(&mut out, " already set, ");
            push_decimal(&mut out, self.relationships_failed as u64);
            push_str(&mut out, " failed.\n");
        }
        push_str(&mut out, "\nDone. Created ");
        push_decimal(&mut out, self.created as u64);
        push_str(&mut out, "; tracked ");
        push_decimal(&mut out, self.tracked_count as u64);
        push_str(&mut out, " tasks.\n");
        out
    }
}

/// Progress emitted as the run proceeds.
#[derive(Debug, Clone)]
pub enum ImportEvent {
    Phase { phase: Phase, message: String },
    Task { phase: Phase, index: usize, total: usize, id: String, status: TaskStatus, detail: Option<String> },
    Log { message: String },
    Done { summary: Box<ImportSummary> },
    Failed { message: String },
}

/// `e` is the per-task event with these values.
pub open spec fn is_task_event(e: ImportEvent, phase: Phase, index: usize, total: usize, id: Seq<char>, status: TaskStatus, detail: Option<Seq<char>>) -> bool {
    &&& e matches ImportEvent::Task { phase: p, index: i, total: t, id: d, status: s, detail: dt }
        && p == phase && i == index && t == total && d@ == id && s == status
        && match (dt, detail) {
            (Some(x), Some(y)) => x@ == y,
            (None, None) => true,
            _ => false,
        }
}

/// Receives progress, so a run can be shown, collected, or discarded.
pub trait ProgressSink {
    fn emit(&mut self, event: ImportEvent);
}

/// Discards everything.
pub struct NullSink;

impl ProgressSink for NullSink {
    fn emit(&mut self, event: ImportEvent) {
    }
}

/// Collects events in memory.
pub struct VecSink(pub Vec<ImportEvent>);

impl Default for VecSink {
    fn default() -> (res: Self)
        ensures
            res.0@ == Seq::<ImportEvent>::empty(),
    {
        VecSink(Vec::new())
    }
}

impl ProgressSink for VecSink {
    fn emit(&mut self, event: ImportEvent)
        ensures
            final(self).0@ == old(self).0@.push(event),
    {
        self.0.push(event);
    }
}

/// The messages of the `Log` events, in order.
pub open spec fn log_messages(events: Seq<ImportEvent>) -> Seq<Seq<char>>
    decreases events.len(),
{
    if events.len() == 0 {
        Seq::empty()
    } else {
        let rest = log_messages(events.drop_last());
        match events.last() {
            ImportEvent::Log { message } => rest.push(message@),
            _ => rest,
        }
    }
}

/// The summary of the first `Done` event.
pub open spec fn first_summary(events: Seq<ImportEvent>) -> Option<ImportSummary>
    decreases events.len(),
{
    if events.len() == 0 {
        None
    } else {
        match events[0] {
            ImportEvent::Done { summary } => Some(*summary),
            _ => first_summary(events.drop_first()),
        }
    }
}

impl VecSink {
    /// The log lines collected, in order.
    pub fn logs(&self) -> (res: Vec<String>)
        ensures
            views(res@) == log_messages(self.0@),
    {
        let mut out: Vec<String> = Vec::new();
        let mut i: usize = 0;
        while i < self.0.len()
            invariant
                i <= self.0@.len(),
                views(out@) == log_messages(self.0@.subrange(0, i as int)),
            decreases self.0.len() - i,
        {
            let ghost before = out@;
            proof {
                let s = self.0@.subrange(0, i + 1);
                assert(s.drop_last() =~= self.0@.subrange(0, i as int));
                assert(s.last() == self.0@[i as int]);
            }
            match &self.0[i] {
                ImportEvent::Log { message } => {
                    out.push(message.clone());
                    assert(views(out@) =~= views(before).push(message@));
                },
                _ => {},
            }
            i = i + 1;
        }
        assert(self.0@.subrange(0, self.0@.len() as int) =~= self.0@);
        out
    }

    /// The summary of the first `Done` event, if there is one.
    pub fn summary(&self) -> (res: Option<ImportSummary>)
        ensures
            match first_summary(self.0@) {
                Some(s) => res matches Some(r) && same_summary(r, s),
                None => res is None,
            },
    {
        let mut i: usize = 0;
        assert(self.0@.subrange(0, self.0@.len() as int) =~= self.0@);
        while i < self.0.len()
            invariant
                i <= self.0@.len(),
                first_summary(self.0@) == first_summary(self.0@.subrange(i as int, self.0@.len() as int)),
            decreases self.0.len() - i,
        {
            let ghost rest = self.0@.subrange(i as int, self.0@.len() as int);
            assert(rest[0] == self.0@[i as int]);
            match &self.0[i] {
                ImportEvent::Done { summary } => return Some(summary.duplicate()),
                _ => {},
            }
            assert(rest.drop_first() =~= self.0@.subrange(i + 1, self.0@.len() as int));
            i = i + 1;
        }
        None
    }
}

/// What to do.
#[derive(Debug, Clone)]
pub struct ImportOptions {
    /// Resolve everything but write nothing.
    pub dry_run: bool,
    /// Skip the parent / blocked-by pass.
    pub skip_relationships: bool,
    /// Skip adding issues to the project board.
    pub skip_project: bool,
}

impl Default for ImportOptions {
    fn default() -> (res: Self)
        ensures
            !res.dry_run && !res.skip_relationships && !res.skip_project,
    {
        ImportOptions { dry_run: false, skip_relationships: false, skip_project: false }
    }
}

// ---------------------------------------------------------------------------
// Preflight and discovery
// ---------------------------------------------------------------------------

/// How the repository is named in the log: its `full_name`, else
/// `owner/name`.
pub open spec fn repo_display_name(repo_json: JsonValue, repo: RepoRef) -> Seq<char> {
    match as_str_spec(field(repo_json, "full_name"@)) {
        Some(n) => n,
        None => repo.owner@ + "/"@ + repo.name@,
    }
}

/// The preflight's repository line.
pub fn repository_log(repo_json: &JsonValue, repo: &RepoRef) -> (res: String)
    ensures
        res@ == "Repository: "@ + repo_display_name(*repo_json, *repo),
{
    let mut out = owned("Repository: ");
    match repo_json.get("full_name") {
        Some(JsonValue::Str(n)) => push_str(&mut out, n.as_str()),
        _ => {
            push_str(&mut out, repo.owner.as_str());
            push_str(&mut out, "/");
            push_str(&mut out, repo.name.as_str());
        },
    }
    out
}

/// The preflight's project line.
pub fn project_log(p: &Project) -> (res: String)
    ensures
        res@ == "Project: "@ + p.title@ + " ("@ + p.owner_kind@ + " owner, number "@ + decimal(p.number as nat) + ")"@,
{
    let mut out = owned("Project: ");
    push_str(&mut out, p.title.as_str());
    push_str(&mut out, " (");
    push_str(&mut out, p.owner_kind.as_str());
    push_str(&mut out, " owner, number ");
    push_decimal(&mut out, p.number);
    push_str(&mut out, ")");
    out
}

/// Task id → database id learned from a listing; a later issue with the
/// same id wins.
pub open spec fn cached_db_ids(m: Map<Seq<char>, u64>, issues: Seq<Issue>) -> Map<Seq<char>, u64>
    decreases issues.len(),
{
    if issues.len() == 0 {
        m
    } else {
        let rest = cached_db_ids(m, issues.drop_last());
        match title_id(issues.last().title@) {
            Some(id) => rest.insert(id, issues.last().id),
            None => rest,
        }
    }
}

/// Task id → node id learned from a listing, for issues that carry one.
pub open spec fn cached_node_ids(m: Map<Seq<char>, String>, issues: Seq<Issue>) -> Map<Seq<char>, String>
    decreases issues.len(),
{
    if issues.len() == 0 {
        m
    } else {
        let rest = cached_node_ids(m, issues.drop_last());
        match (title_id(issues.last().title@), issues.last().node_id) {
            (Some(id), Some(n)) => rest.insert(id, n),
            _ => rest,
        }
    }
}

/// Caches the ids of the managed issues just listed, so the later phases
/// need not fetch them one by one.
pub fn cache_issue_ids(state: &mut ImportState, issues: &[Issue])
    ensures
        final(state).issue_ids@ == cached_db_ids(old(state).issue_ids@, issues@),
        final(state).node_ids@ == cached_node_ids(old(state).node_ids@, issues@),
        final(state).issues@ == old(state).issues@,
        final(state).project_items@ == old(state).project_items@,
{
    let ghost db0 = state.issue_ids@;
    let ghost node0 = state.node_ids@;
    let mut i: usize = 0;
    while i < issues.len()
        invariant
            i <= issues@.len(),
            state.issue_ids@ == cached_db_ids(db0, issues@.subrange(0, i as int)),
            state.node_ids@ == cached_node_ids(node0, issues@.subrange(0, i as int)),
            state.issues@ == old(state).issues@,
            state.project_items@ == old(state).project_items@,
            db0 == old(state).issue_ids@,
            node0 == old(state).node_ids@,
        decreases issues.len() - i,
    {
        proof {
            let s = issues@.subrange(0, i + 1);
            assert(s.drop_last() =~= issues@.subrange(0, i as int));
            assert(s.last() == issues@[i as int]);
        }
        let issue = &issues[i];
        match task_id_from_title(issue.title.as_str()) {
            Some(id) => {
                state.issue_ids.insert(id.clone(), issue.id);
                match &issue.node_id {
                    Some(node) => state.node_ids.insert(id, node.clone()),
                    None => {},
                }
            },
            None => {},
        }
        i = i + 1;
    }
    assert(issues@.subrange(0, issues@.len() as int) =~= issues@);
}

// ---------------------------------------------------------------------------
// Labels
// ---------------------------------------------------------------------------

/// The labels of `needed` that `have` lacks, in order.
pub open spec fn missing_labels(needed: Seq<Seq<char>>, have: Seq<Seq<char>>) -> Seq<Seq<char>>
    decreases needed.len(),
{
    if needed.len() == 0 {
        Seq::empty()
    } else {
        let rest = missing_labels(needed.drop_last(), have);
        if have.contains(needed.last()) { rest } else { rest.push(needed.last()) }
    }
}

/// The labels still to create: those needed that the repository lacks.
pub fn labels_to_create(needed: &[String], have: &[String]) -> (res: Vec<String>)
    ensures
        views(res@) == missing_labels(views(needed@), views(have@)),
{
    let mut out: Vec<String> = Vec::new();
    let mut i: usize = 0;
    while i < needed.len()
        invariant
            i <= needed@.len(),
            views(out@) == missing_labels(views(needed@.subrange(0, i as int)), views(have@)),
        decreases needed.len() - i,
    {
        let ghost before = out@;
        proof {
            let s = views(needed@.subrange(0, i + 1));
            assert(s.drop_last() =~= views(needed@.subrange(0, i as int)));
            assert(s.last() == needed@[i as int]@);
        }
        if !contains_string(have, &needed[i]) {
            out.push(needed[i].clone());
            assert(views(out@) =~= views(before).push(needed@[i as int]@));
        }
        i = i + 1;
    }
    assert(needed@.subrange(0, needed@.len() as int) =~= needed@);
    out
}

/// The log line for a label that is created.
pub fn label_log(label: &str, dry_run: bool) -> (res: String)
    ensures
        res@ == "+ label "@ + label@ + (if dry_run { " (dry run)"@ } else { Seq::empty() }),
{
    let mut out = owned("+ label ");
    push_str(&mut out, label);
    if dry_run {
        push_str(&mut out, " (dry run)");
    }
    out
}

// ---------------------------------------------------------------------------
// Issues
// ---------------------------------------------------------------------------

/// What the issue phase does for one task.
#[derive(Debug, Clone, Copy, PartialEq, Eq, Structural)]
pub enum IssueAction {
    /// The issue exists already, with this number.
    Skip(u64),
    /// A dry run counts it.
    WouldCreate,
    /// Create it.
    Create,
}

/// The decision for a task: an issue the id map knows is skipped; otherwise
/// it is created, or counted in a dry run.
pub open spec fn issue_action_spec(imap: Map<Seq<char>, u64>, id: Seq<char>, dry_run: bool) -> IssueAction {
    if imap.contains_key(id) {
        IssueAction::Skip(imap[id])
    } else if dry_run {
        IssueAction::WouldCreate
    } else {
        IssueAction::Create
    }
}

/// Decides what the issue phase does for a task.
pub fn issue_action(imap: &StrMap<u64>, id: &str, dry_run: bool) -> (res: IssueAction)
    ensures
        res == issue_action_spec(imap@, id@, dry_run),
{
    match imap.get(id) {
        Some(n) => IssueAction::Skip(*n),
        None => if dry_run { IssueAction::WouldCreate } else { IssueAction::Create },
    }
}

/// A task is created at most once: once its issue is recorded in the id map
/// (as recording a created issue does), the issue phase skips it with the
/// recorded number, in a dry run or not, and every id known before stays
/// skipped.
pub proof fn lemma_created_at_most_once(imap: Map<Seq<char>, u64>, id: Seq<char>, number: u64, other: Seq<char>, dry_run: bool)
    ensures
        issue_action_spec(imap.insert(id, number), id, dry_run) == IssueAction::Skip(number),
        imap.contains_key(other) ==> issue_action_spec(imap.insert(id, number), other, dry_run) is Skip,
{
}

/// The log line of an issue decision.
pub open spec fn issue_log_text(id: Seq<char>, action: IssueAction) -> Seq<char> {
    match action {
        IssueAction::Skip(n) => "= "@ + id + " -> #"@ + decimal(n as nat),
        IssueAction::WouldCreate => "+ creating "@ + id + " (dry run)"@,
        IssueAction::Create => "+ creating "@ + id,
    }
}

/// The log line of an issue decision.
pub fn issue_log(id: &str, action: IssueAction) -> (res: String)
    ensures
        res@ == issue_log_text(id@, action),
{
    match action {
        IssueAction::Skip(n) => {
            let mut out = owned("= ");
            push_str(&mut out, id);
            push_str(&mut out, " -> #");
            push_decimal(&mut out, n);
            out
        },
        IssueAction::WouldCreate => {
            let mut out = owned("+ creating ");
            push_str(&mut out, id);
            push_str(&mut out, " (dry run)");
            out
        },
        IssueAction::Create => {
            let mut out = owned("+ creating ");
            push_str(&mut out, id);
            out
        },
    }
}

/// `#` and the issue number.
fn number_detail(n: u64) -> (res: String)
    ensures
        res@ == "#"@ + decimal(n as nat),
{
    let mut out = owned("#");
    push_decimal(&mut out, n);
    out
}

/// Tallies a task whose issue already exists.
pub fn skipped_issue(out: &mut ImportSummary, id: &str, number: u64, index: usize, total: usize) -> (res: ImportEvent)
    requires
        old(out).skipped < usize::MAX,
    ensures
        *final(out) == (ImportSummary { skipped: (old(out).skipped + 1) as usize, ..*old(out) }),
        is_task_event(res, Phase::Issues, index, total, id@, TaskStatus::Skipped, Some("#"@ + decimal(number as nat))),
{
    out.skipped = out.skipped + 1;
    ImportEvent::Task { phase: Phase::Issues, index, total, id: owned(id), status: TaskStatus::Skipped, detail: Some(number_detail(number)) }
}

/// Tallies a task a dry run would create.
pub fn would_create_issue(out: &mut ImportSummary, id: &str, index: usize, total: usize) -> (res: ImportEvent)
    requires
        old(out).created < usize::MAX,
    ensures
        *final(out) == (ImportSummary { created: (old(out).created + 1) as usize, ..*old(out) }),
        is_task_event(res, Phase::Issues, index, total, id@, TaskStatus::WouldCreate, None),
{
    out.created = out.created + 1;
    ImportEvent::Task { phase: Phase::Issues, index, total, id: owned(id), status: TaskStatus::WouldCreate, detail: None }
}

/// Records a newly created issue in the id map and the state, which the
/// caller then saves at once: the issue now exists on GitHub, and a crash
/// must not lose that fact.
pub fn record_created(
    state: &mut ImportState,
    imap: &mut StrMap<u64>,
    out: &mut ImportSummary,
    id: &str,
    created: &CreatedIssue,
    index: usize,
    total: usize,
) -> (res: ImportEvent)
    requires
        old(out).created < usize::MAX,
    ensures
        final(imap)@ == old(imap)@.insert(id@, created.number),
        final(state).issues@ == old(state).issues@.insert(id@, created.number),
        final(state).issue_ids@ == old(state).issue_ids@.insert(id@, created.id),
        final(state).node_ids@ == old(state).node_ids@.insert(id@, created.node_id),
        final(state).project_items@ == old(state).project_items@,
        *final(out) == (ImportSummary { created: (old(out).created + 1) as usize, ..*old(out) }),
        is_task_event(res, Phase::Issues, index, total, id@, TaskStatus::Created, Some("#"@ + decimal(created.number as nat))),
{
    imap.insert(owned(id), created.number);
    state.issues.insert(owned(id), created.number);
    state.issue_ids.insert(owned(id), created.id);
    state.node_ids.insert(owned(id), created.node_id.clone());
    out.created = out.created + 1;
    ImportEvent::Task {
        phase: Phase::Issues,
        index,
        total,
        id: owned(id),
        status: TaskStatus::Created,
        detail: Some(number_detail(created.number)),
    }
}

/// Once an issue is recorded, a rerun skips it: the reconciliation that
/// makes the import idempotent.
pub proof fn lemma_created_issue_is_skipped(imap: Map<Seq<char>, u64>, id: Seq<char>, number: u64, dry_run: bool)
    ensures
        issue_action_spec(imap.insert(id, number), id, dry_run) == IssueAction::Skip(number),
{
}

// ---------------------------------------------------------------------------
// Project board
// ---------------------------------------------------------------------------

/// What the project phase does for one task.
#[derive(Debug, Clone)]
pub enum ProjectAction {
    /// The state says it is on the board already.
    OnBoard,
    /// No issue exists for it yet (a dry run, or a cancelled earlier phase).
    NotTracked,
    /// Its node id must be fetched first; this is its issue number.
    NeedNodeId(u64),
    /// Ready to add, with this node id.
    Ready(String),
}

/// The project phase's decision for a task.
pub open spec fn project_action_spec(state: ImportState, imap: Map<Seq<char>, u64>, id: Seq<char>) -> ProjectAction {
    if state.project_items@.contains_key(id) {
        ProjectAction::OnBoard
    } else if !imap.contains_key(id) {
        ProjectAction::NotTracked
    } else if state.node_ids@.contains_key(id) {
        ProjectAction::Ready(state.node_ids@[id])
    } else {
        ProjectAction::NeedNodeId(imap[id])
    }
}

/// Decides what the project phase does for a task.
pub fn project_action(state: &ImportState, imap: &StrMap<u64>, id: &str) -> (res: ProjectAction)
    ensures
        res == project_action_spec(*state, imap@, id@),
{
    if state.project_items.contains_key(id) {
        return ProjectAction::OnBoard;
    }
    let number = match imap.get(id) {
        Some(n) => *n,
        None => return ProjectAction::NotTracked,
    };
    match state.node_ids.get(id) {
        Some(n) => ProjectAction::Ready(n.clone()),
        None => ProjectAction::NeedNodeId(number),
    }
}

/// Whether a phase runs, and the line logged when it is skipped.
#[derive(Debug)]
pub enum PhaseStart {
    Run,
    Skipped(Option<String>),
}

/// The project phase runs unless the options skip it, which is logged, or
/// there is no board to add to, which is not.
pub fn project_phase_start(options: &ImportOptions, has_project: bool) -> (res: PhaseStart)
    ensures
        options.skip_project ==> (res matches PhaseStart::Skipped(Some(l)) && l@ == "Project board step skipped."@),
        !options.skip_project && !has_project ==> (res matches PhaseStart::Skipped(None)),
        !options.skip_project && has_project ==> res is Run,
{
    if options.skip_project {
        PhaseStart::Skipped(Some(owned("Project board step skipped.")))
    } else if !has_project {
        PhaseStart::Skipped(None)
    } else {
        PhaseStart::Run
    }
}

/// In a dry run a task that could go on the board is only reported, as
/// `WouldAdd`; otherwise nothing is reported before the call is made.
pub fn project_dry_run(dry_run: bool, id: &str, index: usize, total: usize) -> (res: Option<ImportEvent>)
    ensures
        res is Some <==> dry_run,
        res matches Some(e) ==> is_task_event(e, Phase::Project, index, total, id@, TaskStatus::WouldAdd, None),
{
    if dry_run {
        Some(ImportEvent::Task { phase: Phase::Project, index, total, id: owned(id), status: TaskStatus::WouldAdd, detail: None })
    } else {
        None
    }
}

/// Records what fetching an issue for its node id learned: its database id
/// always, its node id when it has one.
pub fn record_node_lookup(state: &mut ImportState, id: &str, issue: &Issue) -> (res: Result<String, GithubError>)
    ensures
        final(state).issue_ids@ == old(state).issue_ids@.insert(id@, issue.id),
        final(state).issues@ == old(state).issues@,
        final(state).project_items@ == old(state).project_items@,
        match issue.node_id {
            Some(n) => res == Ok::<String, GithubError>(n) && final(state).node_ids@ == old(state).node_ids@.insert(id@, n),
            None => res matches Err(e) && e is Other && e->Other_0@ == "issue has no node_id"@
                && final(state).node_ids@ == old(state).node_ids@,
        },
{
    state.issue_ids.insert(owned(id), issue.id);
    match &issue.node_id {
        Some(n) => {
            state.node_ids.insert(owned(id), n.clone());
            Ok(n.clone())
        },
        None => Err(GithubError::Other(owned("issue has no node_id"))),
    }
}

/// Records what fetching an issue for its database id learned, and returns
/// that id.
pub fn record_db_lookup(state: &mut ImportState, id: &str, issue: &Issue) -> (res: u64)
    ensures
        res == issue.id,
        final(state).issue_ids@ == old(state).issue_ids@.insert(id@, issue.id),
        final(state).issues@ == old(state).issues@,
        final(state).project_items@ == old(state).project_items@,
        match issue.node_id {
            Some(n) => final(state).node_ids@ == old(state).node_ids@.insert(id@, n),
            None => final(state).node_ids@ == old(state).node_ids@,
        },
{
    state.issue_ids.insert(owned(id), issue.id);
    match &issue.node_id {
        Some(n) => state.node_ids.insert(owned(id), n.clone()),
        None => {},
    }
    issue.id
}

/// `{id}: ` followed by the error's text.
pub fn id_warning(id: &str, what: &str, e: &GithubError) -> (res: String)
    ensures
        res@ == id@ + ": "@ + what@ + error_text(*e),
{
    let mut out = owned(id);
    push_str(&mut out, ": ");
    push_str(&mut out, what);
    let m = e.message();
    push_str(&mut out, m.as_str());
    out
}

/// Records an issue added to the board; the caller saves the state at once,
/// as this is the window where a partial failure is possible.
pub fn record_project_item(state: &mut ImportState, out: &mut ImportSummary, id: &str, item_id: String, index: usize, total: usize) -> (res: ImportEvent)
    requires
        old(out).project_items_added < usize::MAX,
    ensures
        final(state).project_items@ == old(state).project_items@.insert(id@, item_id),
        final(state).issues@ == old(state).issues@,
        final(state).issue_ids@ == old(state).issue_ids@,
        final(state).node_ids@ == old(state).node_ids@,
        *final(out) == (ImportSummary { project_items_added: (old(out).project_items_added + 1) as usize, ..*old(out) }),
        is_task_event(res, Phase::Project, index, total, id@, TaskStatus::Added, None),
{
    state.project_items.insert(owned(id), item_id);
    out.project_items_added = out.project_items_added + 1;
    ImportEvent::Task { phase: Phase::Project, index, total, id: owned(id), status: TaskStatus::Added, detail: None }
}

/// Records a failure to add an issue to the board: a warning, not an abort.
pub fn project_failure(out: &mut ImportSummary, id: &str, e: &GithubError, index: usize, total: usize) -> (res: ImportEvent)
    ensures
        views(final(out).warnings@) == views(old(out).warnings@).push(id@ + ": "@ + "could not add to the project: "@ + error_text(*e)),
        *final(out) == (ImportSummary { warnings: final(out).warnings, ..*old(out) }),
        is_task_event(res, Phase::Project, index, total, id@, TaskStatus::Failed, Some(error_text(*e))),
{
    let w = id_warning(id, "could not add to the project: ", e);
    let ghost before = out.warnings@;
    out.warnings.push(w);
    assert(views(out.warnings@) =~= views(before).push(id@ + ": "@ + "could not add to the project: "@ + error_text(*e)));
    ImportEvent::Task { phase: Phase::Project, index, total, id: owned(id), status: TaskStatus::Failed, detail: Some(e.message()) }
}

/// Once an item is recorded, a rerun leaves the task alone.
pub proof fn lemma_added_item_is_not_added_again(state: ImportState, imap: Map<Seq<char>, u64>, id: Seq<char>, item: String, after: ImportState)
    requires
        after.project_items@ == state.project_items@.insert(id, item),
    ensures
        project_action_spec(after, imap, id) == ProjectAction::OnBoard,
{
}

// ---------------------------------------------------------------------------
// Relationships
// ---------------------------------------------------------------------------

/// The two kinds of link.
#[derive(Debug, Clone, Copy, PartialEq, Eq, Structural)]
pub enum LinkKind {
    /// A sub-issue link to the parent.
    Parent,
    /// A blocked-by dependency.
    BlockedBy,
}

/// How a link is named in reports.
pub open spec fn link_what(k: LinkKind) -> Seq<char> {
    match k {
        LinkKind::Parent => "parent"@,
        LinkKind::BlockedBy => "blocked-by"@,
    }
}

impl LinkKind {
    /// How the link is named in reports.
    pub fn what(&self) -> (res: &'static str)
        ensures
            res@ == link_what(*self),
    {
        match self {
            LinkKind::Parent => "parent",
            LinkKind::BlockedBy => "blocked-by",
        }
    }
}

/// One link to apply: whose database id goes in the body (`subject`, with
/// its issue number), and which issue's number goes in the path.
#[derive(Debug, Clone)]
pub struct LinkPlan {
    pub kind: LinkKind,
    pub subject: String,
    pub subject_number: u64,
    pub target_number: u64,
}

/// The links of a task as plain values.
pub open spec fn plan_views(plans: Seq<LinkPlan>) -> Seq<(LinkKind, Seq<char>, u64, u64)> {
    plans.map_values(|p: LinkPlan| (p.kind, p.subject@, p.subject_number, p.target_number))
}

/// The blocked-by links for the dependencies that have issues, in order.
pub open spec fn dependency_links(number: u64, deps: Seq<Seq<char>>, imap: Map<Seq<char>, u64>) -> Seq<(LinkKind, Seq<char>, u64, u64)>
    decreases deps.len(),
{
    if deps.len() == 0 {
        Seq::empty()
    } else {
        let rest = dependency_links(number, deps.drop_last(), imap);
        if imap.contains_key(deps.last()) {
            rest.push((LinkKind::BlockedBy, deps.last(), imap[deps.last()], number))
        } else {
            rest
        }
    }
}

/// The links of a task with issue `number`: the parent link first when the
/// parent has an issue (the child's database id in the body, the parent's
/// number in the path), then one blocked-by link per dependency that has
/// one (the dependency's database id in the body).
pub open spec fn link_plans(id: Seq<char>, number: u64, parent: Option<Seq<char>>, deps: Seq<Seq<char>>, imap: Map<Seq<char>, u64>) -> Seq<(LinkKind, Seq<char>, u64, u64)> {
    let first = match parent {
        Some(p) => if imap.contains_key(p) { seq![(LinkKind::Parent, id, number, imap[p])] } else { Seq::empty() },
        None => Seq::empty(),
    };
    first + dependency_links(number, deps, imap)
}

/// Plans the links of a task whose issue is `number`.
pub fn relationship_links(id: &str, number: u64, parent: Option<&String>, depends_on: &[String], imap: &StrMap<u64>) -> (res: Vec<LinkPlan>)
    ensures
        plan_views(res@) == link_plans(id@, number, match parent { Some(p) => Some(p@), None => None }, views(depends_on@), imap@),
{
    let mut out: Vec<LinkPlan> = Vec::new();
    match parent {
        Some(p) => match imap.get(p.as_str()) {
            Some(pn) => out.push(LinkPlan { kind: LinkKind::Parent, subject: owned(id), subject_number: number, target_number: *pn }),
            None => {},
        },
        None => {},
    }
    let ghost first = plan_views(out@);
    assert(first =~= link_plans(id@, number, match parent { Some(p) => Some(p@), None => None }, Seq::empty(), imap@));
    let mut i: usize = 0;
    while i < depends_on.len()
        invariant
            i <= depends_on@.len(),
            plan_views(out@) == first + dependency_links(number, views(depends_on@.subrange(0, i as int)), imap@),
        decreases depends_on.len() - i,
    {
        let ghost before = out@;
        proof {
            let s = views(depends_on@.subrange(0, i + 1));
            assert(s.drop_last() =~= views(depends_on@.subrange(0, i as int)));
            assert(s.last() == depends_on@[i as int]@);
        }
        match imap.get(depends_on[i].as_str()) {
            Some(dn) => {
                out.push(LinkPlan { kind: LinkKind::BlockedBy, subject: depends_on[i].clone(), subject_number: *dn, target_number: number });
                assert(plan_views(out@) =~= plan_views(before).push((LinkKind::BlockedBy, depends_on@[i as int]@, *dn, number)));
            },
            None => {},
        }
        i = i + 1;
    }
    assert(depends_on@.subrange(0, depends_on@.len() as int) =~= depends_on@);
    out
}

/// Does a task declare any link? A dry run reports those.
pub fn has_links(parent: Option<&String>, depends_on: &[String]) -> (res: bool)
    ensures
        res == (parent is Some || depends_on@.len() > 0),
{
    parent.is_some() || depends_on.len() > 0
}

/// The relationship phase runs unless the settings skip it, which is logged.
pub fn relationship_phase_start(settings: &Settings) -> (res: PhaseStart)
    ensures
        settings.skip_relationships ==> (res matches PhaseStart::Skipped(Some(l))
            && l@ == "\nRelationships skipped (SKIP_RELATIONSHIPS=true)."@),
        !settings.skip_relationships ==> res is Run,
{
    if settings.skip_relationships {
        PhaseStart::Skipped(Some(owned("\nRelationships skipped (SKIP_RELATIONSHIPS=true).")))
    } else {
        PhaseStart::Run
    }
}

/// What the relationship phase does for one task.
#[derive(Debug)]
pub enum RelationshipStep {
    /// The task has no issue yet.
    NotTracked,
    /// A dry run: the event reported, when the task declares links.
    Report(Option<ImportEvent>),
    /// The links to apply, in order.
    Apply(Vec<LinkPlan>),
}

/// The relationship phase's decision for a task: nothing for a task with no
/// issue; in a dry run a `WouldAdd` report for a task that declares links;
/// otherwise its planned links.
pub fn relationship_step(
    imap: &StrMap<u64>,
    id: &str,
    parent: Option<&String>,
    depends_on: &[String],
    dry_run: bool,
    index: usize,
    total: usize,
) -> (res: RelationshipStep)
    ensures
        !imap@.contains_key(id@) ==> res is NotTracked,
        imap@.contains_key(id@) && dry_run ==> (res matches RelationshipStep::Report(r)
            && (r is Some <==> (parent is Some || depends_on@.len() > 0))
            && (r matches Some(e) ==> is_task_event(e, Phase::Relationships, index, total, id@, TaskStatus::WouldAdd, None))),
        imap@.contains_key(id@) && !dry_run ==> (res matches RelationshipStep::Apply(plan)
            && plan_views(plan@) == link_plans(id@, imap@[id@], match parent { Some(p) => Some(p@), None => None }, views(depends_on@), imap@)),
{
    let number = match imap.get(id) {
        Some(n) => *n,
        None => return RelationshipStep::NotTracked,
    };
    if dry_run {
        if has_links(parent, depends_on) {
            RelationshipStep::Report(Some(ImportEvent::Task {
                phase: Phase::Relationships,
                index,
                total,
                id: owned(id),
                status: TaskStatus::WouldAdd,
                detail: None,
            }))
        } else {
            RelationshipStep::Report(None)
        }
    } else {
        RelationshipStep::Apply(relationship_links(id, number, parent, depends_on, imap))
    }
}

/// The outcome of one link attempt.
#[derive(Debug)]
pub enum LinkResult {
    Applied,
    /// GitHub reports the link as existing already, in these words.
    Already(String),
    Failed(String),
}

/// Reads a link call's outcome: an error saying the link exists already
/// is told apart from other failures.
pub fn link_result(result: Result<(), GithubError>) -> (res: LinkResult)
    ensures
        match result {
            Ok(()) => res is Applied,
            Err(e) => if benign_text(error_text(e)) {
                res matches LinkResult::Already(m) && m@ == error_text(e)
            } else {
                res matches LinkResult::Failed(m) && m@ == error_text(e)
            },
        },
{
    match result {
        Ok(()) => LinkResult::Applied,
        Err(e) => {
            if e.is_already_set() {
                LinkResult::Already(e.message())
            } else {
                LinkResult::Failed(e.message())
            }
        },
    }
}

/// The failure when the database id a link needs could not be resolved.
pub fn unresolved_link(kind: LinkKind) -> (res: LinkResult)
    ensures
        res matches LinkResult::Failed(m) && m@ == match kind {
            LinkKind::Parent => "could not resolve the child's database id"@,
            LinkKind::BlockedBy => "could not resolve the blocker's database id"@,
        },
{
    match kind {
        LinkKind::Parent => LinkResult::Failed(owned("could not resolve the child's database id")),
        LinkKind::BlockedBy => LinkResult::Failed(owned("could not resolve the blocker's database id")),
    }
}

/// The first line of a message, as `str::lines` gives it: up to the first
/// `\n`, a `\r` before it dropped.
pub open spec fn first_line(s: Seq<char>) -> Seq<char> {
    if exists|i: int| 0 <= i < s.len() && s[i] == '\n' {
        let p = choose|i: int| 0 <= i < s.len() && s[i] == '\n' && forall|j: int| 0 <= j < i ==> s[j] != '\n';
        let line = s.subrange(0, p);
        if line.len() > 0 && line.last() == '\r' { line.drop_last() } else { line }
    } else {
        s
    }
}

/// The first line of a message.
pub fn first_line_of(s: &str) -> (res: String)
    ensures
        res@ == first_line(s@),
{
    let cs = str_chars(s);
    let mut i: usize = 0;
    while i < cs.len()
        invariant
            i <= cs@.len(),
            cs@ == s@,
            forall|j: int| 0 <= j < i ==> cs@[j] != '\n',
        decreases cs.len() - i,
    {
        if cs[i] == '\n' {
            proof {
                let p = choose|k: int| 0 <= k < s@.len() && s@[k] == '\n' && forall|j: int| 0 <= j < k ==> s@[j] != '\n';
                assert(s@[i as int] == '\n');
                if p < i { assert(s@[p] == '\n'); }
                if p > i { assert(s@[i as int] != '\n'); }
                assert(p == i);
            }
            let end: usize = if i > 0 && cs[i - 1] == '\r' { i - 1 } else { i };
            assert(cs@.subrange(0, i as int).len() > 0 ==> cs@.subrange(0, i as int).last() == cs@[i - 1]);
            assert(i > 0 && cs[i - 1] == '\r' ==> cs@.subrange(0, i as int).drop_last() =~= cs@.subrange(0, end as int));
            return string_from_range(cs.as_slice(), 0, end);
        }
        i = i + 1;
    }
    owned(s)
}

/// `{id} ({what})`: how a link is listed in the summary.
pub open spec fn link_entry(id: Seq<char>, what: Seq<char>) -> Seq<char> {
    id + " ("@ + what + ")"@
}

/// `{id} {what} failed: {first line}`.
pub open spec fn link_failure_text(id: Seq<char>, what: Seq<char>, message: Seq<char>) -> Seq<char> {
    id + " "@ + what + " failed: "@ + first_line(message)
}

/// What a recorded link attempt reports: a log line when it failed, and its
/// progress event.
#[derive(Debug)]
pub struct LinkRecord {
    pub log: Option<String>,
    pub event: ImportEvent,
}

/// Tallies one link attempt. In strict mode any failure, a link GitHub
/// reports as already taken included, ends the run with the error it
/// returns, as the CLI exits on the first relationship failure; the summary
/// is then left as it was. Only ignore mode counts an existing link as
/// already set and goes on.
pub fn record_link(
    out: &mut ImportSummary,
    id: &str,
    kind: LinkKind,
    result: LinkResult,
    strict: bool,
    index: usize,
    total: usize,
) -> (res: Result<LinkRecord, GithubError>)
    requires
        old(out).relationships_applied < usize::MAX,
        old(out).relationships_already < usize::MAX,
        old(out).relationships_failed < usize::MAX,
    ensures
        match result {
            LinkResult::Applied => {
                &&& *final(out) == (ImportSummary { relationships_applied: (old(out).relationships_applied + 1) as usize, ..*old(out) })
                &&& res matches Ok(r) && r.log is None
                    && is_task_event(r.event, Phase::Relationships, index, total, id@, TaskStatus::Added, Some(link_what(kind)))
            },
            LinkResult::Already(m) => if strict {
                &&& *final(out) == *old(out)
                &&& res matches Err(e) && e is Other && e->Other_0@ == link_failure_text(id@, link_what(kind), m@)
            } else {
                &&& *final(out) == (ImportSummary {
                    relationships_already: (old(out).relationships_already + 1) as usize,
                    already_ids: final(out).already_ids,
                    ..*old(out)
                })
                &&& views(final(out).already_ids@) == views(old(out).already_ids@).push(link_entry(id@, link_what(kind)))
                &&& res matches Ok(r) && r.log is None
                    && is_task_event(r.event, Phase::Relationships, index, total, id@, TaskStatus::AlreadySet, Some(link_what(kind)))
            },
            LinkResult::Failed(m) => if strict {
                &&& *final(out) == *old(out)
                &&& res matches Err(e) && e is Other && e->Other_0@ == link_failure_text(id@, link_what(kind), m@)
            } else {
                &&& *final(out) == (ImportSummary {
                    relationships_failed: (old(out).relationships_failed + 1) as usize,
                    failed_ids: final(out).failed_ids,
                    ..*old(out)
                })
                &&& views(final(out).failed_ids@) == views(old(out).failed_ids@).push(link_entry(id@, link_what(kind)))
                &&& res matches Ok(r) && r.log matches Some(l) && l@ == "! "@ + link_failure_text(id@, link_what(kind), m@)
                    && is_task_event(r.event, Phase::Relationships, index, total, id@, TaskStatus::Failed, Some(link_what(kind)))
            },
        },
{
    let what = kind.what();
    match result {
        LinkResult::Applied => {
            out.relationships_applied = out.relationships_applied + 1;
            Ok(LinkRecord {
                log: None,
                event: ImportEvent::Task { phase: Phase::Relationships, index, total, id: owned(id), status: TaskStatus::Added, detail: Some(owned(what)) },
            })
        },
        LinkResult::Already(message) => {
            if strict {
                let mut text = owned(id);
                push_str(&mut text, " ");
                push_str(&mut text, what);
                push_str(&mut text, " failed: ");
                let line = first_line_of(message.as_str());
                push_str(&mut text, line.as_str());
                return Err(GithubError::Other(text));
            }
            let mut entry = owned(id);
            push_str(&mut entry, " (");
            push_str(&mut entry, what);
            push_str(&mut entry, ")");
            let ghost before = out.already_ids@;
            out.relationships_already = out.relationships_already + 1;
            out.already_ids.push(entry);
            assert(views(out.already_ids@) =~= views(before).push(link_entry(id@, link_what(kind))));
            Ok(LinkRecord {
                log: None,
                event: ImportEvent::Task { phase: Phase::Relationships, index, total, id: owned(id), status: TaskStatus::AlreadySet, detail: Some(owned(what)) },
            })
        },
        LinkResult::Failed(message) => {
            let mut text = owned(id);
            push_str(&mut text, " ");
            push_str(&mut text, what);
            push_str(&mut text, " failed: ");
            let line = first_line_of(message.as_str());
            push_str(&mut text, line.as_str());
            if strict {
                return Err(GithubError::Other(text));
            }
            let mut entry = owned(id);
            push_str(&mut entry, " (");
            push_str(&mut entry, what);
            push_str(&mut entry, ")");
            let ghost before = out.failed_ids@;
            out.relationships_failed = out.relationships_failed + 1;
            out.failed_ids.push(entry);
            assert(views(out.failed_ids@) =~= views(before).push(link_entry(id@, link_what(kind))));
            let mut log = owned("! ");
            push_str(&mut log, text.as_str());
            Ok(LinkRecord {
                log: Some(log),
                event: ImportEvent::Task { phase: Phase::Relationships, index, total, id: owned(id), status: TaskStatus::Failed, detail: Some(owned(what)) },
            })
        },
    }
}

} // verus!

verus! {

/// The labels created are exactly the needed ones the repository lacks.
pub proof fn lemma_missing_labels_exact(needed: Seq<Seq<char>>, have: Seq<Seq<char>>)
    ensures
        forall|x: Seq<char>| #[trigger] missing_labels(needed, have).contains(x) <==> (needed.contains(x) && !have.contains(x)),
    decreases needed.len(),
{
    if needed.len() > 0 {
        let rest = needed.drop_last();
        lemma_missing_labels_exact(rest, have);
        let r = missing_labels(needed, have);
        let b = missing_labels(rest, have);
        assert forall|x: Seq<char>| #[trigger] r.contains(x) <==> (needed.contains(x) && !have.contains(x)) by {
            if r.contains(x) {
                let k = choose|k: int| 0 <= k < r.len() && r[k] == x;
                if k < b.len() {
                    assert(b[k] == x);
                    assert(b.contains(x));
                    let j = choose|j: int| 0 <= j < rest.len() && rest[j] == x;
                    assert(needed[j] == x);
                } else {
                    assert(needed[needed.len() - 1] == x);
                }
            }
            if needed.contains(x) && !have.contains(x) {
                let j = choose|j: int| 0 <= j < needed.len() && needed[j] == x;
                if j < needed.len() - 1 {
                    assert(rest[j] == x);
                    assert(b.contains(x));
                    let k = choose|k: int| 0 <= k < b.len() && b[k] == x;
                    assert(r[k] == x);
                } else {
                    assert(r[r.len() - 1] == x);
                }
            }
        }
    }
}

} // verus!

verus! {

/// A dry run never asks for an issue to be created: each task is either
/// skipped or only counted.
pub proof fn lemma_dry_run_creates_nothing(imap: Map<Seq<char>, u64>, id: Seq<char>)
    ensures
        issue_action_spec(imap, id, true) != IssueAction::Create,
        !imap.contains_key(id) ==> issue_action_spec(imap, id, true) == IssueAction::WouldCreate,
{
}

} // verus!
