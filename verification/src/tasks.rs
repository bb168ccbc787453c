//! The task model, backlog validation, and the exact text the importer writes
//! to GitHub and to its console.

use vstd::prelude::*;
use crate::json::{JsonValue, JsonNumber, field, member, py_str, py_truthy, push_py_str, truthy};
use crate::strmap::StrMap;
use crate::text::is_sorted;
use crate::text::{
    views, decimal, push_str, push_decimal, str_chars, str_eq, contains_string, owned,
    string_from_chars, string_from_range, push_char, sorted_text, sort_strings, pad_right, push_padded,
    join, trim, trim_bounds, chars_range, str_contains, has_infix, split_on, first_pos, lemma_split_nonempty, find_char, lowercase, to_lowercase, trim_str,
};

verus! {

broadcast use vstd::seq_lib::group_seq_properties;

/// A task as it appears in `tasks.json`.
#[derive(Debug, Clone, PartialEq, Eq)]
pub struct Task {
    pub id: String,
    pub module: String,
    pub title: String,
    pub priority: String,
    pub labels: Vec<String>,
    pub body: String,
    pub depends_on: Vec<String>,
    pub parent: Option<String>,
}

/// What [`validate`] found.
#[derive(Debug, Clone)]
pub struct ValidationReport {
    pub ok: bool,
    pub errors: Vec<String>,
    pub task_count: usize,
}

// ---------------------------------------------------------------------------
// The rules of validation
// ---------------------------------------------------------------------------

/// How a task names itself in "missing" messages: its `id` rendered, or `?`
/// when the key is absent.
pub open spec fn id_label(t: JsonValue) -> Seq<char> {
    match field(t, "id"@) {
        Some(v) => py_str(v),
        None => "?"@,
    }
}

/// The task id used everywhere else: its `id` rendered, or `None` when the key
/// is absent.
pub open spec fn task_tid(t: JsonValue) -> Seq<char> {
    match field(t, "id"@) {
        Some(v) => py_str(v),
        None => "None"@,
    }
}

/// The ids of a list of raw tasks, in order.
pub open spec fn tids(tasks: Seq<JsonValue>) -> Seq<Seq<char>> {
    tasks.map_values(|t: JsonValue| task_tid(t))
}

/// The error for a required key the task lacks.
pub open spec fn missing_error(t: JsonValue, key: Seq<char>) -> Seq<Seq<char>> {
    if field(t, key) is Some {
        Seq::empty()
    } else {
        seq![id_label(t) + ": missing "@ + key]
    }
}

/// The missing-key errors, in the order the keys are checked.
pub open spec fn missing_errors(t: JsonValue) -> Seq<Seq<char>> {
    missing_error(t, "id"@) + missing_error(t, "module"@) + missing_error(t, "title"@)
        + missing_error(t, "priority"@) + missing_error(t, "labels"@) + missing_error(t, "body"@)
        + missing_error(t, "depends_on"@) + missing_error(t, "parent"@)
}

/// Is the task's priority one of `P0`..`P3`?
pub open spec fn priority_ok(t: JsonValue) -> bool {
    match field(t, "priority"@) {
        Some(JsonValue::Str(p)) => p@ == "P0"@ || p@ == "P1"@ || p@ == "P2"@ || p@ == "P3"@,
        _ => false,
    }
}

/// The first pass's findings for task `i`, which sees the ids before it.
pub open spec fn pass1_task(tasks: Seq<JsonValue>, i: int) -> Seq<Seq<char>> {
    let t = tasks[i];
    let tid = task_tid(t);
    missing_errors(t)
        + (if tids(tasks.subrange(0, i)).contains(tid) { seq![tid + ": duplicate ID"@] } else { Seq::empty() })
        + (if priority_ok(t) { Seq::empty() } else { seq![tid + ": invalid priority"@] })
}

/// The first pass's findings for the first `n` tasks.
pub open spec fn pass1(tasks: Seq<JsonValue>, n: int) -> Seq<Seq<char>>
    decreases n,
{
    if n <= 0 {
        Seq::empty()
    } else {
        pass1(tasks, n - 1) + pass1_task(tasks, n - 1)
    }
}

/// The ids the task depends on: an array's items rendered, a string's
/// characters one by one (Python iterates a string), nothing otherwise.
pub open spec fn deps_of(t: JsonValue) -> Seq<Seq<char>> {
    match field(t, "depends_on"@) {
        Some(JsonValue::Array(a)) => a@.map_values(|d: JsonValue| py_str(d)),
        Some(JsonValue::Str(s)) => s@.map_values(|c: char| seq![c]),
        _ => Seq::empty(),
    }
}

/// The findings for the dependencies `deps` of the task `tid`.
pub open spec fn dep_errors(tid: Seq<char>, deps: Seq<Seq<char>>, ids: Seq<Seq<char>>) -> Seq<Seq<char>>
    decreases deps.len(),
{
    if deps.len() == 0 {
        Seq::empty()
    } else {
        let d = deps.last();
        dep_errors(tid, deps.drop_last(), ids)
            + (if ids.contains(d) { Seq::empty() } else { seq![tid + ": unknown dependency "@ + d] })
            + (if d == tid { seq![tid + ": self dependency"@] } else { Seq::empty() })
    }
}

/// The finding for the parent of the task `tid`: only a truthy parent is
/// checked.
pub open spec fn parent_errors(t: JsonValue, tid: Seq<char>, ids: Seq<Seq<char>>) -> Seq<Seq<char>> {
    match field(t, "parent"@) {
        Some(p) => if py_truthy(p) && !ids.contains(py_str(p)) {
            seq![tid + ": unknown parent "@ + py_str(p)]
        } else {
            Seq::empty()
        },
        None => Seq::empty(),
    }
}

/// The second pass's findings for one task. A task without an `id` key (or
/// that is not an object) is skipped.
pub open spec fn pass2_task(t: JsonValue, ids: Seq<Seq<char>>) -> Seq<Seq<char>> {
    match field(t, "id"@) {
        Some(v) => dep_errors(py_str(v), deps_of(t), ids) + parent_errors(t, py_str(v), ids),
        None => Seq::empty(),
    }
}

/// The second pass's findings for the first `n` tasks.
pub open spec fn pass2(tasks: Seq<JsonValue>, n: int, ids: Seq<Seq<char>>) -> Seq<Seq<char>>
    decreases n,
{
    if n <= 0 {
        Seq::empty()
    } else {
        pass2(tasks, n - 1, ids) + pass2_task(tasks[n - 1], ids)
    }
}

/// Every finding, first pass before second, each pass in task order.
pub open spec fn validation_errors(tasks: Seq<JsonValue>) -> Seq<Seq<char>> {
    pass1(tasks, tasks.len() as int) + pass2(tasks, tasks.len() as int, tids(tasks))
}

/// The lines of the CLI's report.
pub open spec fn error_lines(errors: Seq<Seq<char>>) -> Seq<char>
    decreases errors.len(),
{
    if errors.len() == 0 {
        Seq::empty()
    } else {
        error_lines(errors.drop_last()) + "- "@ + errors.last() + "\n"@
    }
}

/// The CLI's stdout for a validation result.
pub open spec fn cli_report(errors: Seq<Seq<char>>, count: nat) -> Seq<char> {
    if errors.len() == 0 {
        "OK: "@ + decimal(count) + " tasks validated.\n"@
    } else {
        "Validation failed:\n"@ + error_lines(errors)
    }
}

impl ValidationReport {
    /// The console report for this result.
    pub fn to_cli_output(&self) -> (res: String)
        ensures
            res@ == cli_report(views(self.errors@), self.task_count as nat),
    {
        let mut out = String::new();
        if self.errors.len() == 0 {
            push_str(&mut out, "OK: ");
            push_decimal(&mut out, self.task_count as u64);
            push_str(&mut out, " tasks validated.\n");
        } else {
            push_str(&mut out, "Validation failed:\n");
            let ghost start = out@;
            let mut i: usize = 0;
            while i < self.errors.len()
                invariant
                    i <= self.errors@.len(),
                    out@ == start + error_lines(views(self.errors@.subrange(0, i as int))),
                decreases self.errors.len() - i,
            {
                push_str(&mut out, "- ");
                push_str(&mut out, self.errors[i].as_str());
                push_str(&mut out, "\n");
                proof {
                    let s = views(self.errors@.subrange(0, i + 1));
                    assert(s.drop_last() =~= views(self.errors@.subrange(0, i as int)));
                }
                i = i + 1;
            }
            assert(self.errors@.subrange(0, self.errors@.len() as int) =~= self.errors@);
        }
        out
    }
}

// ---------------------------------------------------------------------------
// Validation
// ---------------------------------------------------------------------------

/// `prefix` followed by `rest`.
fn message(prefix: &String, rest: &str) -> (res: String)
    ensures
        res@ == prefix@ + rest@,
{
    let mut m = prefix.clone();
    push_str(&mut m, rest);
    m
}

/// Appends the missing-key error for `key`, if the task lacks it.
fn check_key(errors: &mut Vec<String>, t: &JsonValue, key: &str, label: &String)
    requires
        label@ == id_label(*t),
    ensures
        views(final(errors)@) == views(old(errors)@) + missing_error(*t, key@),
{
    if t.get(key).is_none() {
        let m = message(&message(label, ": missing "), key);
        errors.push(m);
        assert(views(errors@) =~= views(old(errors)@) + missing_error(*t, key@));
    } else {
        assert(views(errors@) =~= views(old(errors)@) + missing_error(*t, key@));
    }
}

/// Renders the task's `id`, or `fallback` when the key is absent.
fn id_text(t: &JsonValue, fallback: &str) -> (res: String)
    ensures
        res@ == match field(*t, "id"@) {
            Some(v) => py_str(v),
            None => fallback@,
        },
{
    match t.get("id") {
        Some(v) => {
            let mut s = String::new();
            push_py_str(&mut s, v);
            s
        },
        None => owned(fallback),
    }
}

/// Is the task's priority one of `P0`..`P3`?
fn check_priority(t: &JsonValue) -> (res: bool)
    ensures
        res == priority_ok(*t),
{
    match t.get("priority") {
        Some(JsonValue::Str(p)) => {
            str_eq(p.as_str(), "P0") || str_eq(p.as_str(), "P1") || str_eq(p.as_str(), "P2")
                || str_eq(p.as_str(), "P3")
        },
        _ => false,
    }
}

/// The dependency ids of a raw task.
fn deps_list(t: &JsonValue) -> (res: Vec<String>)
    ensures
        views(res@) == deps_of(*t),
{
    let mut out: Vec<String> = Vec::new();
    match t.get("depends_on") {
        Some(JsonValue::Array(a)) => {
            let mut i: usize = 0;
            while i < a.len()
                invariant
                    i <= a@.len(),
                    views(out@) == a@.subrange(0, i as int).map_values(|d: JsonValue| py_str(d)),
                decreases a.len() - i,
            {
                let mut s = String::new();
                push_py_str(&mut s, &a[i]);
                let ghost prev = out@;
                out.push(s);
                assert(views(out@) =~= views(prev).push(py_str(a@[i as int])));
                assert(a@.subrange(0, i + 1) =~= a@.subrange(0, i as int).push(a@[i as int]));
                assert(views(out@) =~= a@.subrange(0, i + 1).map_values(|d: JsonValue| py_str(d)));
                i = i + 1;
            }
            assert(a@.subrange(0, a@.len() as int) =~= a@);
        },
        Some(JsonValue::Str(s)) => {
            let cs = str_chars(s.as_str());
            let mut i: usize = 0;
            while i < cs.len()
                invariant
                    i <= cs@.len(),
                    cs@ == s@,
                    views(out@) == s@.subrange(0, i as int).map_values(|c: char| seq![c]),
                decreases cs.len() - i,
            {
                let one = [cs[i]];
                let c = string_from_chars(&one);
                assert(one@ =~= seq![cs@[i as int]]);
                let ghost prev = out@;
                out.push(c);
                assert(views(out@) =~= views(prev).push(seq![s@[i as int]]));
                assert(s@.subrange(0, i + 1) =~= s@.subrange(0, i as int).push(s@[i as int]));
                assert(views(out@) =~= s@.subrange(0, i + 1).map_values(|c: char| seq![c]));
                i = i + 1;
            }
            assert(s@.subrange(0, s@.len() as int) =~= s@);
        },
        _ => {
            assert(views(out@) =~= deps_of(*t));
        },
    }
    out
}

/// Appends the missing-key errors of a task.
#[verifier::rlimit(30)]
fn check_required_keys(errors: &mut Vec<String>, t: &JsonValue)
    ensures
        views(final(errors)@) == views(old(errors)@) + missing_errors(*t),
{
    let label = id_text(t, "?");
    let ghost e0 = views(errors@);
    check_key(errors, t, "id", &label);
    let ghost e1 = views(errors@);
    check_key(errors, t, "module", &label);
    let ghost e2 = views(errors@);
    check_key(errors, t, "title", &label);
    let ghost e3 = views(errors@);
    check_key(errors, t, "priority", &label);
    let ghost e4 = views(errors@);
    check_key(errors, t, "labels", &label);
    let ghost e5 = views(errors@);
    check_key(errors, t, "body", &label);
    let ghost e6 = views(errors@);
    check_key(errors, t, "depends_on", &label);
    let ghost e7 = views(errors@);
    check_key(errors, t, "parent", &label);
    let ghost e8 = views(errors@);
    proof {
        let m0 = missing_error(*t, "id"@);
        let m1 = missing_error(*t, "module"@);
        let m2 = missing_error(*t, "title"@);
        let m3 = missing_error(*t, "priority"@);
        let m4 = missing_error(*t, "labels"@);
        let m5 = missing_error(*t, "body"@);
        let m6 = missing_error(*t, "depends_on"@);
        let m7 = missing_error(*t, "parent"@);
        assert(e8 =~= e0 + (m0 + m1 + m2 + m3 + m4 + m5 + m6 + m7));
    }
}

/// The first pass over task `i`: appends its findings, returns its id.
fn check_task(errors: &mut Vec<String>, ids: &Vec<String>, tasks: &[JsonValue], i: usize) -> (tid: String)
    requires
        i < tasks@.len(),
        views(ids@) == tids(tasks@.subrange(0, i as int)),
    ensures
        views(final(errors)@) == views(old(errors)@) + pass1_task(tasks@, i as int),
        tid@ == task_tid(tasks@[i as int]),
{
    let t = &tasks[i];
    let ghost before = views(errors@);
    check_required_keys(errors, t);
    let tid = id_text(t, "None");
    let ghost mid = views(errors@);
    let dup = contains_string(ids.as_slice(), &tid);
    if dup {
        errors.push(message(&tid, ": duplicate ID"));
    }
    let ghost mid2 = views(errors@);
    assert(mid2 =~= mid + (if dup { seq![tid@ + ": duplicate ID"@] } else { Seq::empty() }));
    let pri = check_priority(t);
    if !pri {
        errors.push(message(&tid, ": invalid priority"));
    }
    assert(views(errors@) =~= mid2 + (if pri { Seq::empty() } else { seq![tid@ + ": invalid priority"@] }));
    assert(tasks@[i as int] == *t);
    assert(views(errors@) =~= before + pass1_task(tasks@, i as int));
    tid
}

/// Validates a raw backlog: every finding, in the order the command-line
/// importer reports them.
pub fn validate(tasks: &[JsonValue]) -> (res: ValidationReport)
    ensures
        views(res.errors@) == validation_errors(tasks@),
        res.ok == (res.errors@.len() == 0),
        res.task_count == tasks@.len(),
{
    let mut errors: Vec<String> = Vec::new();
    let mut ids: Vec<String> = Vec::new();

    // Pass 1: per-task structural checks.
    let mut i: usize = 0;
    while i < tasks.len()
        invariant
            i <= tasks@.len(),
            views(errors@) == pass1(tasks@, i as int),
            views(ids@) == tids(tasks@.subrange(0, i as int)),
        decreases tasks.len() - i,
    {
        let tid = check_task(&mut errors, &ids, tasks, i);
        proof {
            assert(tasks@.subrange(0, i + 1) =~= tasks@.subrange(0, i as int).push(tasks@[i as int]));
        }
        let ghost prev_ids = ids@;
        ids.push(tid);
        proof {
            assert(views(ids@) =~= views(prev_ids).push(task_tid(tasks@[i as int])));
            assert(tids(tasks@.subrange(0, i + 1)) =~= tids(tasks@.subrange(0, i as int)).push(task_tid(tasks@[i as int])));
        }
        i = i + 1;
    }
    assert(tasks@.subrange(0, tasks@.len() as int) =~= tasks@);
    let ghost all_ids = tids(tasks@);
    let ghost first = views(errors@);

    // Pass 2: relationships, against every id.
    let mut i: usize = 0;
    while i < tasks.len()
        invariant
            i <= tasks@.len(),
            views(ids@) == all_ids,
            all_ids == tids(tasks@),
            views(errors@) == first + pass2(tasks@, i as int, all_ids),
        decreases tasks.len() - i,
    {
        let t = &tasks[i];
        let ghost before = views(errors@);
        match t.get("id") {
            None => {
                assert(views(errors@) =~= before + pass2_task(*t, all_ids));
            },
            Some(raw_id) => {
                let mut tid = String::new();
                push_py_str(&mut tid, raw_id);
                let deps = deps_list(t);
                let mut j: usize = 0;
                while j < deps.len()
                    invariant
                        j <= deps@.len(),
                        views(ids@) == all_ids,
                        views(errors@) == before + dep_errors(tid@, views(deps@).subrange(0, j as int), all_ids),
                    decreases deps.len() - j,
                {
                    let d = &deps[j];
                    let ghost b2 = views(errors@);
                    let known = contains_string(ids.as_slice(), d);
                    if !known {
                        errors.push(message(&message(&tid, ": unknown dependency "), d.as_str()));
                    }
                    let ghost b4 = views(errors@);
                    assert(b4 =~= b2 + (if known { Seq::empty() } else { seq![tid@ + ": unknown dependency "@ + d@] }));
                    let same = *d == tid;
                    if same {
                        errors.push(message(&tid, ": self dependency"));
                    }
                    assert(views(errors@) =~= b4 + (if same { seq![tid@ + ": self dependency"@] } else { Seq::empty() }));
                    proof {
                        let s = views(deps@).subrange(0, j + 1);
                        assert(s.drop_last() =~= views(deps@).subrange(0, j as int));
                        assert(s.last() == d@);
                        assert(views(errors@) =~= before + dep_errors(tid@, s, all_ids));
                    }
                    j = j + 1;
                }
                assert(views(deps@).subrange(0, deps@.len() as int) =~= views(deps@));
                let ghost b3 = views(errors@);
                match t.get("parent") {
                    Some(parent) => {
                        if truthy(parent) {
                            let mut p = String::new();
                            push_py_str(&mut p, parent);
                            if !contains_string(ids.as_slice(), &p) {
                                errors.push(message(&message(&tid, ": unknown parent "), p.as_str()));
                            }
                        }
                    },
                    None => {},
                }
                assert(views(errors@) =~= b3 + parent_errors(*t, tid@, all_ids));
                assert(views(errors@) =~= before + pass2_task(*t, all_ids));
            },
        }
        assert(tasks@[i as int] == *t);
        i = i + 1;
    }
    let n = tasks.len();
    let ok = errors.len() == 0;
    ValidationReport { ok, errors, task_count: n }
}

} // verus!

verus! {

// ---------------------------------------------------------------------------
// Converting a validated raw task
// ---------------------------------------------------------------------------

/// A field rendered by `str()`, or empty when absent.
pub open spec fn text_field(t: JsonValue, key: Seq<char>) -> Seq<char> {
    match field(t, key) {
        Some(v) => py_str(v),
        None => Seq::empty(),
    }
}

/// An array field's items rendered by `str()`, or empty when absent or not
/// an array.
pub open spec fn list_field(t: JsonValue, key: Seq<char>) -> Seq<Seq<char>> {
    match field(t, key) {
        Some(JsonValue::Array(a)) => a@.map_values(|d: JsonValue| py_str(d)),
        _ => Seq::empty(),
    }
}

/// The parent: absent, `null` and the empty rendering all mean none.
pub open spec fn parent_field(t: JsonValue) -> Option<Seq<char>> {
    match field(t, "parent"@) {
        Some(JsonValue::Null) => None,
        Some(v) => if py_str(v).len() > 0 { Some(py_str(v)) } else { None },
        None => None,
    }
}

/// The task a raw value converts to.
pub open spec fn task_matches(task: Task, t: JsonValue) -> bool {
    &&& task.id@ == text_field(t, "id"@)
    &&& task.module@ == text_field(t, "module"@)
    &&& task.title@ == text_field(t, "title"@)
    &&& task.priority@ == text_field(t, "priority"@)
    &&& views(task.labels@) == list_field(t, "labels"@)
    &&& task.body@ == text_field(t, "body"@)
    &&& views(task.depends_on@) == list_field(t, "depends_on"@)
    &&& match task.parent {
        Some(p) => parent_field(t) == Some(p@),
        None => parent_field(t) is None,
    }
}

fn text_of(t: &JsonValue, key: &str) -> (res: String)
    ensures
        res@ == text_field(*t, key@),
{
    let mut s = String::new();
    match t.get(key) {
        Some(v) => push_py_str(&mut s, v),
        None => {},
    }
    s
}

fn list_of(t: &JsonValue, key: &str) -> (res: Vec<String>)
    ensures
        views(res@) == list_field(*t, key@),
{
    let mut out: Vec<String> = Vec::new();
    match t.get(key) {
        Some(JsonValue::Array(a)) => {
            let mut i: usize = 0;
            while i < a.len()
                invariant
                    i <= a@.len(),
                    views(out@) == a@.subrange(0, i as int).map_values(|d: JsonValue| py_str(d)),
                decreases a.len() - i,
            {
                let mut s = String::new();
                push_py_str(&mut s, &a[i]);
                let ghost prev = out@;
                out.push(s);
                assert(views(out@) =~= views(prev).push(py_str(a@[i as int])));
                assert(a@.subrange(0, i + 1) =~= a@.subrange(0, i as int).push(a@[i as int]));
                assert(views(out@) =~= a@.subrange(0, i + 1).map_values(|d: JsonValue| py_str(d)));
                i = i + 1;
            }
            assert(a@.subrange(0, a@.len() as int) =~= a@);
        },
        _ => {
            assert(views(out@) =~= list_field(*t, key@));
        },
    }
    out
}

/// The raw tasks of a parsed `tasks.json`: it must be an array.
pub fn tasks_from_document(doc: JsonValue) -> (res: Result<Vec<JsonValue>, String>)
    ensures
        match doc {
            JsonValue::Array(a) => res matches Ok(v) && v@ == a@,
            _ => res matches Err(e) && e@ == "expected a JSON array of tasks"@,
        },
{
    match doc {
        JsonValue::Array(a) => Ok(a),
        _ => Err(owned("expected a JSON array of tasks")),
    }
}

/// Converts an already-validated raw task. Missing or wrongly-typed fields
/// are coerced rather than reported; `None` for a value that is not an object.
pub fn to_task(v: &JsonValue) -> (res: Option<Task>)
    ensures
        match res {
            Some(task) => (*v is Object) && task_matches(task, *v),
            None => !(*v is Object),
        },
{
    match v {
        JsonValue::Object(_) => {
            let parent = match v.get("parent") {
                Some(JsonValue::Null) => None,
                Some(p) => {
                    let mut s = String::new();
                    push_py_str(&mut s, p);
                    if s.unicode_len() > 0 { Some(s) } else { None }
                },
                None => None,
            };
            Some(Task {
                id: text_of(v, "id"),
                module: text_of(v, "module"),
                title: text_of(v, "title"),
                priority: text_of(v, "priority"),
                labels: list_of(v, "labels"),
                body: text_of(v, "body"),
                depends_on: list_of(v, "depends_on"),
                parent,
            })
        },
        _ => None,
    }
}

// ---------------------------------------------------------------------------
// Recognising managed issues
// ---------------------------------------------------------------------------

/// The pattern a managed issue's title starts with; its first group is the
/// task id. Frozen: the CLI matches titles with exactly this.
pub const MANAGED_TITLE_PATTERN: &'static str = r"^\[([A-Z0-9]+(?:-[A-Z0-9]+)*-\d{3})\]\s";

/// What the `regex` crate's first capture group of `pattern` is on `text`
/// (`None` when there is no match).
pub uninterp spec fn regex_group1(pattern: Seq<char>, text: Seq<char>) -> Option<Seq<char>>;

/// `Regex::new(pattern)`, then `captures(text)`, then group 1.
#[verifier::external_body]
fn regex_first_group(pattern: &str, text: &str) -> (res: Option<String>)
    ensures
        match res {
            Some(s) => regex_group1(pattern@, text@) == Some(s@),
            None => regex_group1(pattern@, text@) is None,
        },
{
    let re = regex::Regex::new(pattern).ok()?;
    re.captures(text).and_then(|c| c.get(1)).map(|m| m.as_str().to_string())
}

/// The task id a title carries, by the frozen pattern.
pub open spec fn title_id(title: Seq<char>) -> Option<Seq<char>> {
    regex_group1(MANAGED_TITLE_PATTERN@, title)
}

/// Extracts the managed task id from an issue title, if it carries one.
pub fn task_id_from_title(title: &str) -> (res: Option<String>)
    ensures
        match res {
            Some(s) => title_id(title@) == Some(s@),
            None => title_id(title@) is None,
        },
{
    regex_first_group(MANAGED_TITLE_PATTERN, title)
}

/// Task id → issue number for the managed issues among `issues`; a later
/// issue with the same id wins.
pub open spec fn managed_map(issues: Seq<(u64, &str)>) -> Map<Seq<char>, u64>
    decreases issues.len(),
{
    if issues.len() == 0 {
        Map::empty()
    } else {
        let rest = managed_map(issues.drop_last());
        match title_id(issues.last().1@) {
            Some(id) => rest.insert(id, issues.last().0),
            None => rest,
        }
    }
}

/// Task id → issue number for every managed issue among a listing.
/// The caller excludes pull requests.
pub fn existing_from_issues(issues: &[(u64, &str)]) -> (res: StrMap<u64>)
    ensures
        res@ == managed_map(issues@),
{
    let mut found: StrMap<u64> = StrMap::new();
    let mut i: usize = 0;
    while i < issues.len()
        invariant
            i <= issues@.len(),
            found@ == managed_map(issues@.subrange(0, i as int)),
        decreases issues.len() - i,
    {
        let (number, title) = issues[i];
        proof {
            let s = issues@.subrange(0, i + 1);
            assert(s.drop_last() =~= issues@.subrange(0, i as int));
            assert(s.last() == issues@[i as int]);
        }
        match task_id_from_title(title) {
            Some(id) => found.insert(id, number),
            None => {},
        }
        i = i + 1;
    }
    assert(issues@.subrange(0, issues@.len() as int) =~= issues@);
    found
}

// ---------------------------------------------------------------------------
// Issue text
// ---------------------------------------------------------------------------

/// The issue title the CLI writes: `[{id}] {title}`.
pub open spec fn title_text(t: Task) -> Seq<char> {
    "["@ + t.id@ + "] "@ + t.title@
}

/// The body marker for a task id.
pub open spec fn marker_text(id: Seq<char>) -> Seq<char> {
    "<!-- github-task:"@ + id + " -->"@
}

/// The issue body the CLI writes.
pub open spec fn body_text(t: Task) -> Seq<char> {
    marker_text(t.id@) + "\n\n**Module:** `"@ + t.module@ + "`  \n**Priority:** `"@ + t.priority@
        + "`\n\n"@ + t.body@ + "\n\n## Acceptance Criteria\n\n- [ ] Implementation completed\n- [ ] Appropriate tests added\n- [ ] API/documentation updated where applicable\n"@
}

/// The issue title the CLI writes: `[{id}] {title}`.
pub fn issue_title(t: &Task) -> (res: String)
    ensures
        res@ == title_text(*t),
{
    let mut out = owned("[");
    push_str(&mut out, t.id.as_str());
    push_str(&mut out, "] ");
    push_str(&mut out, t.title.as_str());
    out
}

/// The body marker alone, used to recognise managed issues by body.
pub fn body_marker(id: &str) -> (res: String)
    ensures
        res@ == marker_text(id@),
{
    let mut out = owned("<!-- github-task:");
    push_str(&mut out, id);
    push_str(&mut out, " -->");
    out
}

/// The issue body the CLI writes, byte for byte.
pub fn issue_body(t: &Task) -> (res: String)
    ensures
        res@ == body_text(*t),
{
    let mut out = body_marker(t.id.as_str());
    push_str(&mut out, "\n\n**Module:** `");
    push_str(&mut out, t.module.as_str());
    push_str(&mut out, "`  \n**Priority:** `");
    push_str(&mut out, t.priority.as_str());
    push_str(&mut out, "`\n\n");
    push_str(&mut out, t.body.as_str());
    push_str(&mut out, "\n\n## Acceptance Criteria\n\n- [ ] Implementation completed\n- [ ] Appropriate tests added\n- [ ] API/documentation updated where applicable\n");
    out
}

// ---------------------------------------------------------------------------
// Labels
// ---------------------------------------------------------------------------

/// `acc` extended by each of `items` that is not already there (and, when
/// `skip_empty`, is not empty), in order.
pub open spec fn add_unique(acc: Seq<Seq<char>>, items: Seq<Seq<char>>, skip_empty: bool) -> Seq<Seq<char>>
    decreases items.len(),
{
    if items.len() == 0 {
        acc
    } else {
        let before = add_unique(acc, items.drop_last(), skip_empty);
        let l = items.last();
        if (skip_empty && l.len() == 0) || before.contains(l) {
            before
        } else {
            before.push(l)
        }
    }
}

/// The labels an issue is created with: `backend`, the module and the
/// priority, then the task's own labels, without repeats, first occurrence
/// kept.
pub open spec fn labels_for(t: Task) -> Seq<Seq<char>> {
    add_unique(add_unique(Seq::empty(), seq!["backend"@, t.module@, t.priority@], true), views(t.labels@), false)
}

/// Appends `l` to `out` unless it is there already (or empty, when
/// `skip_empty`).
fn push_unique(out: &mut Vec<String>, l: &String, skip_empty: bool)
    ensures
        views(final(out)@) == if (skip_empty && l@.len() == 0) || views(old(out)@).contains(l@) {
            views(old(out)@)
        } else {
            views(old(out)@).push(l@)
        },
{
    if (skip_empty && l.unicode_len() == 0) || contains_string(out.as_slice(), l) {
        return;
    }
    out.push(l.clone());
    assert(views(out@) =~= views(old(out)@).push(l@));
}

/// Extends `out` by `items` as [`add_unique`] does.
fn extend_unique(out: &mut Vec<String>, items: &[String], skip_empty: bool)
    ensures
        views(final(out)@) == add_unique(views(old(out)@), views(items@), skip_empty),
{
    let ghost start = views(out@);
    let mut i: usize = 0;
    while i < items.len()
        invariant
            i <= items@.len(),
            views(out@) == add_unique(start, views(items@.subrange(0, i as int)), skip_empty),
        decreases items.len() - i,
    {
        push_unique(out, &items[i], skip_empty);
        proof {
            let s = views(items@.subrange(0, i + 1));
            assert(s.drop_last() =~= views(items@.subrange(0, i as int)));
            assert(s.last() == items@[i as int]@);
        }
        i = i + 1;
    }
    assert(items@.subrange(0, items@.len() as int) =~= items@);
}

/// The labels an issue is created with.
pub fn issue_labels(t: &Task) -> (res: Vec<String>)
    ensures
        views(res@) == labels_for(*t),
{
    let mut out: Vec<String> = Vec::new();
    let fixed = vec![owned("backend"), t.module.clone(), t.priority.clone()];
    assert(views(fixed@) =~= seq!["backend"@, t.module@, t.priority@]);
    assert(views(out@) =~= Seq::<Seq<char>>::empty());
    extend_unique(&mut out, fixed.as_slice(), true);
    extend_unique(&mut out, t.labels.as_slice(), false);
    out
}

} // verus!

verus! {

/// The labels every run needs: `P0`..`P3` and `backend`, then each task's
/// module and labels, non-empty and without repeats.
pub open spec fn labels_of_tasks(acc: Seq<Seq<char>>, tasks: Seq<Task>) -> Seq<Seq<char>>
    decreases tasks.len(),
{
    if tasks.len() == 0 {
        acc
    } else {
        let before = labels_of_tasks(acc, tasks.drop_last());
        let t = tasks.last();
        add_unique(add_unique(before, seq![t.module@], true), views(t.labels@), true)
    }
}

/// The fixed labels every run starts from.
pub open spec fn base_labels() -> Seq<Seq<char>> {
    seq!["P0"@, "P1"@, "P2"@, "P3"@, "backend"@]
}

/// Every label the tasks need, sorted.
pub fn needed_labels(tasks: &[Task]) -> (res: Vec<String>)
    ensures
        views(res@) == sorted_text(labels_of_tasks(base_labels(), tasks@)),
{
    let mut set: Vec<String> = vec![owned("P0"), owned("P1"), owned("P2"), owned("P3"), owned("backend")];
    assert(views(set@) =~= base_labels());
    let mut i: usize = 0;
    while i < tasks.len()
        invariant
            i <= tasks@.len(),
            views(set@) == labels_of_tasks(base_labels(), tasks@.subrange(0, i as int)),
        decreases tasks.len() - i,
    {
        let t = &tasks[i];
        let m = vec![t.module.clone()];
        assert(views(m@) =~= seq![t.module@]);
        extend_unique(&mut set, m.as_slice(), true);
        extend_unique(&mut set, t.labels.as_slice(), true);
        proof {
            let s = tasks@.subrange(0, i + 1);
            assert(s.drop_last() =~= tasks@.subrange(0, i as int));
            assert(s.last() == tasks@[i as int]);
        }
        i = i + 1;
    }
    assert(tasks@.subrange(0, tasks@.len() as int) =~= tasks@);
    sort_strings(set)
}

/// What [`add_unique`] keeps: everything of `acc`, every item it may keep,
/// nothing else, and no repeats when `acc` has none.
pub proof fn lemma_add_unique(acc: Seq<Seq<char>>, items: Seq<Seq<char>>, skip_empty: bool)
    ensures
        acc.no_duplicates() ==> add_unique(acc, items, skip_empty).no_duplicates(),
        forall|i: int| 0 <= i < items.len() && !(skip_empty && items[i].len() == 0)
            ==> #[trigger] add_unique(acc, items, skip_empty).contains(items[i]),
        forall|x: Seq<char>| acc.contains(x) ==> #[trigger] add_unique(acc, items, skip_empty).contains(x),
        forall|x: Seq<char>| #[trigger] add_unique(acc, items, skip_empty).contains(x) ==> acc.contains(x) || items.contains(x),
    decreases items.len(),
{
    if items.len() > 0 {
        let rest = items.drop_last();
        lemma_add_unique(acc, rest, skip_empty);
        let before = add_unique(acc, rest, skip_empty);
        let l = items.last();
        let r = add_unique(acc, items, skip_empty);
        assert forall|i: int| 0 <= i < items.len() && !(skip_empty && items[i].len() == 0) implies #[trigger] r.contains(items[i]) by {
            if i < items.len() - 1 {
                assert(rest[i] == items[i]);
                assert(before.contains(rest[i]));
                if !((skip_empty && l.len() == 0) || before.contains(l)) {
                    let k = choose|k: int| 0 <= k < before.len() && before[k] == items[i];
                    assert(r[k] == items[i]);
                }
            } else {
                if !((skip_empty && l.len() == 0) || before.contains(l)) {
                    assert(r[before.len() as int] == l);
                }
            }
        }
        assert forall|x: Seq<char>| acc.contains(x) implies #[trigger] r.contains(x) by {
            assert(before.contains(x));
            if !((skip_empty && l.len() == 0) || before.contains(l)) {
                let k = choose|k: int| 0 <= k < before.len() && before[k] == x;
                assert(r[k] == x);
            }
        }
        assert forall|x: Seq<char>| #[trigger] r.contains(x) implies acc.contains(x) || items.contains(x) by {
            let k = choose|k: int| 0 <= k < r.len() && r[k] == x;
            if k < before.len() {
                assert(before[k] == x);
                assert(before.contains(x));
                if rest.contains(x) {
                    let j = choose|j: int| 0 <= j < rest.len() && rest[j] == x;
                    assert(items[j] == x);
                }
            } else {
                assert(items[items.len() - 1] == x);
            }
        }
    }
}

/// The labels an issue is created with hold no repeats, start with
/// `backend`, and include the module, the priority (when non-empty) and
/// every label of the task.
pub proof fn lemma_issue_labels(t: Task)
    ensures
        labels_for(t).no_duplicates(),
        labels_for(t).len() > 0 && labels_for(t)[0] == "backend"@,
        t.module@.len() > 0 ==> labels_for(t).contains(t.module@),
        t.priority@.len() > 0 ==> labels_for(t).contains(t.priority@),
        forall|i: int| 0 <= i < t.labels@.len() ==> #[trigger] labels_for(t).contains(t.labels@[i]@),
{
    let fixed = seq!["backend"@, t.module@, t.priority@];
    let first = add_unique(Seq::empty(), fixed, true);
    lemma_add_unique(Seq::empty(), fixed, true);
    lemma_add_unique(first, views(t.labels@), false);
    reveal_strlit("backend");
    assert(fixed[0] == "backend"@);
    assert(fixed[0].len() > 0);
    lemma_add_unique_first(fixed, true);
    assert(labels_for(t)[0] == first[0]) by {
        lemma_add_unique_prefix(first, views(t.labels@), false);
    }
    if t.module@.len() > 0 {
        assert(fixed[1] == t.module@);
        assert(first.contains(fixed[1]));
    }
    if t.priority@.len() > 0 {
        assert(fixed[2] == t.priority@);
        assert(first.contains(fixed[2]));
    }
    assert forall|i: int| 0 <= i < t.labels@.len() implies #[trigger] labels_for(t).contains(t.labels@[i]@) by {
        assert(views(t.labels@)[i] == t.labels@[i]@);
    }
}

/// Started empty, [`add_unique`] keeps the first item first.
proof fn lemma_add_unique_first(items: Seq<Seq<char>>, skip_empty: bool)
    requires
        items.len() > 0,
        !(skip_empty && items[0].len() == 0),
    ensures
        add_unique(Seq::empty(), items, skip_empty).len() > 0,
        add_unique(Seq::empty(), items, skip_empty)[0] == items[0],
    decreases items.len(),
{
    if items.len() == 1 {
        assert(items.drop_last() =~= Seq::<Seq<char>>::empty());
    } else {
        let rest = items.drop_last();
        assert(rest[0] == items[0]);
        lemma_add_unique_first(rest, skip_empty);
    }
}

/// [`add_unique`] only appends: `acc` stays a prefix.
pub proof fn lemma_add_unique_prefix(acc: Seq<Seq<char>>, items: Seq<Seq<char>>, skip_empty: bool)
    ensures
        add_unique(acc, items, skip_empty).len() >= acc.len(),
        forall|i: int| 0 <= i < acc.len() ==> #[trigger] add_unique(acc, items, skip_empty)[i] == acc[i],
    decreases items.len(),
{
    if items.len() > 0 {
        lemma_add_unique_prefix(acc, items.drop_last(), skip_empty);
    }
}

/// Every label a run needs, sorted: in code point order, without repeats,
/// holding `P0`..`P3`, `backend`, and each task's non-empty module and
/// labels.
pub proof fn lemma_needed_labels(tasks: Seq<Task>)
    ensures
        is_sorted(sorted_text(labels_of_tasks(base_labels(), tasks))),
        sorted_text(labels_of_tasks(base_labels(), tasks)).no_duplicates(),
        forall|i: int| 0 <= i < base_labels().len() ==> #[trigger] sorted_text(labels_of_tasks(base_labels(), tasks)).contains(base_labels()[i]),
        forall|k: int| 0 <= k < tasks.len() && tasks[k].module@.len() > 0
            ==> #[trigger] sorted_text(labels_of_tasks(base_labels(), tasks)).contains(tasks[k].module@),
        forall|k: int, j: int| 0 <= k < tasks.len() && 0 <= j < tasks[k].labels@.len() && tasks[k].labels@[j]@.len() > 0
            ==> #[trigger] sorted_text(labels_of_tasks(base_labels(), tasks)).contains(tasks[k].labels@[j]@),
{
    let acc = base_labels();
    reveal_strlit("P0");
    reveal_strlit("P1");
    reveal_strlit("P2");
    reveal_strlit("P3");
    reveal_strlit("backend");
    assert(acc.len() == 5);
    assert(acc[0] == "P0"@ && acc[1] == "P1"@ && acc[2] == "P2"@ && acc[3] == "P3"@ && acc[4] == "backend"@);
    assert("P0"@[1] != "P1"@[1] && "P0"@[1] != "P2"@[1] && "P0"@[1] != "P3"@[1]);
    assert("P1"@[1] != "P2"@[1] && "P1"@[1] != "P3"@[1] && "P2"@[1] != "P3"@[1]);
    assert("P0"@.len() != "backend"@.len());
    assert forall|i: int, j: int| 0 <= i < acc.len() && 0 <= j < acc.len() && i != j implies acc[i] != acc[j] by {
        assert(i == 0 || i == 1 || i == 2 || i == 3 || i == 4);
        assert(j == 0 || j == 1 || j == 2 || j == 3 || j == 4);
    }
    assert(acc.no_duplicates());
    lemma_labels_of_tasks(acc, tasks);
    let u = labels_of_tasks(acc, tasks);
    let r = sorted_text(u);
    crate::text::lemma_lex_total_ordering();
    u.lemma_sort_by_ensures(crate::text::lex_order());
    assert(is_sorted(r)) by {
        assert forall|i: int, j: int| 0 <= i < j < r.len() implies crate::text::lex_le(#[trigger] r[i], #[trigger] r[j]) by {
            assert((crate::text::lex_order())(r[i], r[j]));
        }
    }
    broadcast use vstd::seq_lib::group_to_multiset_ensures;
    u.lemma_multiset_has_no_duplicates();
    assert forall|x: Seq<char>| r.to_multiset().contains(x) implies r.to_multiset().count(x) == 1 by {
        assert(u.to_multiset().contains(x));
    }
    r.lemma_multiset_has_no_duplicates_conv();
    assert forall|x: Seq<char>| u.contains(x) implies r.contains(x) by {
        assert(u.to_multiset().count(x) > 0);
        assert(r.to_multiset().count(x) > 0);
    }
    assert forall|i: int| 0 <= i < acc.len() implies #[trigger] r.contains(acc[i]) by {
        assert(acc.contains(acc[i]));
    }
    assert forall|k: int| 0 <= k < tasks.len() && tasks[k].module@.len() > 0 implies #[trigger] r.contains(tasks[k].module@) by {
        assert(u.contains(tasks[k].module@));
    }
    assert forall|k: int, j: int| 0 <= k < tasks.len() && 0 <= j < tasks[k].labels@.len() && tasks[k].labels@[j]@.len() > 0
        implies #[trigger] r.contains(tasks[k].labels@[j]@) by {
        assert(u.contains(tasks[k].labels@[j]@));
    }
}

/// What [`labels_of_tasks`] gathers: `acc`, each task's non-empty module and
/// labels, and no repeats when `acc` has none.
proof fn lemma_labels_of_tasks(acc: Seq<Seq<char>>, tasks: Seq<Task>)
    ensures
        acc.no_duplicates() ==> labels_of_tasks(acc, tasks).no_duplicates(),
        forall|x: Seq<char>| acc.contains(x) ==> #[trigger] labels_of_tasks(acc, tasks).contains(x),
        forall|k: int| 0 <= k < tasks.len() && tasks[k].module@.len() > 0
            ==> #[trigger] labels_of_tasks(acc, tasks).contains(tasks[k].module@),
        forall|k: int, j: int| 0 <= k < tasks.len() && 0 <= j < tasks[k].labels@.len() && tasks[k].labels@[j]@.len() > 0
            ==> #[trigger] labels_of_tasks(acc, tasks).contains(tasks[k].labels@[j]@),
    decreases tasks.len(),
{
    if tasks.len() > 0 {
        let rest = tasks.drop_last();
        lemma_labels_of_tasks(acc, rest);
        let before = labels_of_tasks(acc, rest);
        let t = tasks.last();
        let mid = add_unique(before, seq![t.module@], true);
        lemma_add_unique(before, seq![t.module@], true);
        lemma_add_unique(mid, views(t.labels@), true);
        let r = labels_of_tasks(acc, tasks);
        assert forall|k: int| 0 <= k < tasks.len() && tasks[k].module@.len() > 0 implies #[trigger] r.contains(tasks[k].module@) by {
            if k < tasks.len() - 1 {
                assert(rest[k] == tasks[k]);
                assert(before.contains(rest[k].module@));
            } else {
                assert(seq![t.module@][0] == t.module@);
            }
        }
        assert forall|k: int, j: int| 0 <= k < tasks.len() && 0 <= j < tasks[k].labels@.len() && tasks[k].labels@[j]@.len() > 0
            implies #[trigger] r.contains(tasks[k].labels@[j]@) by {
            if k < tasks.len() - 1 {
                assert(rest[k] == tasks[k]);
                assert(before.contains(rest[k].labels@[j]@));
            } else {
                assert(views(t.labels@)[j] == t.labels@[j]@);
            }
        }
    }
}

/// A preview row: `{id:<15} {priority} {module:<18} {title}`.
pub open spec fn preview_text(t: Task) -> Seq<char> {
    pad_right(t.id@, 15) + " "@ + t.priority@ + " "@ + pad_right(t.module@, 18) + " "@ + t.title@
}

/// A preview row for a task.
pub fn preview_line(t: &Task) -> (res: String)
    ensures
        res@ == preview_text(*t),
{
    let mut out = String::new();
    push_padded(&mut out, t.id.as_str(), 15);
    push_str(&mut out, " ");
    push_str(&mut out, t.priority.as_str());
    push_str(&mut out, " ");
    push_padded(&mut out, t.module.as_str(), 18);
    push_str(&mut out, " ");
    push_str(&mut out, t.title.as_str());
    out
}

/// Each title in single quotes, joined by `", "`.
pub open spec fn quoted_list(titles: Seq<Seq<char>>) -> Seq<char>
    decreases titles.len(),
{
    if titles.len() == 0 {
        Seq::empty()
    } else if titles.len() == 1 {
        "'"@ + titles[0] + "'"@
    } else {
        quoted_list(titles.drop_last()) + ", "@ + "'"@ + titles.last() + "'"@
    }
}

/// The message when no board has the configured title; the available titles sorted.
pub open spec fn not_found_text(owner: Seq<char>, name: Seq<char>, available: Seq<Seq<char>>) -> Seq<char> {
    "Project '"@ + name + "' not found for owner '"@ + owner + "'. Available projects: ["@
        + quoted_list(sorted_text(available)) + "]"@
}

/// The message when no board has the configured title.
pub fn project_not_found_message(owner: &str, name: &str, available: &[String]) -> (res: String)
    ensures
        res@ == not_found_text(owner@, name@, views(available@)),
{
    let mut copy: Vec<String> = Vec::new();
    let mut i: usize = 0;
    while i < available.len()
        invariant
            i <= available@.len(),
            views(copy@) == views(available@.subrange(0, i as int)),
        decreases available.len() - i,
    {
        let ghost prev = copy@;
        copy.push(available[i].clone());
        assert(views(copy@) =~= views(prev).push(available@[i as int]@));
        assert(available@.subrange(0, i + 1) =~= available@.subrange(0, i as int).push(available@[i as int]));
        assert(views(copy@) =~= views(available@.subrange(0, i + 1)));
        i = i + 1;
    }
    assert(available@.subrange(0, available@.len() as int) =~= available@);
    let titles = sort_strings(copy);
    let mut out = owned("Project '");
    push_str(&mut out, name);
    push_str(&mut out, "' not found for owner '");
    push_str(&mut out, owner);
    push_str(&mut out, "'. Available projects: [");
    let ghost start = out@;
    let mut j: usize = 0;
    while j < titles.len()
        invariant
            j <= titles@.len(),
            out@ == start + quoted_list(views(titles@.subrange(0, j as int))),
        decreases titles.len() - j,
    {
        if j > 0 {
            push_str(&mut out, ", ");
        }
        push_str(&mut out, "'");
        push_str(&mut out, titles[j].as_str());
        push_str(&mut out, "'");
        proof {
            let s = views(titles@.subrange(0, j + 1));
            assert(s.drop_last() =~= views(titles@.subrange(0, j as int)));
            assert(s.last() == titles@[j as int]@);
            if j == 0 {
                assert(views(titles@.subrange(0, 0)) =~= Seq::<Seq<char>>::empty());
                assert(s[0] == titles@[0]@);
            }
        }
        j = j + 1;
    }
    assert(titles@.subrange(0, titles@.len() as int) =~= titles@);
    push_str(&mut out, "]");
    out
}

// ---------------------------------------------------------------------------
// .env and settings
// ---------------------------------------------------------------------------

/// `v` without one pair of matching surrounding quotes.
pub open spec fn unquote(v: Seq<char>) -> Seq<char> {
    if v.len() >= 2 && v[0] == v.last() && (v[0] == '"' || v[0] == '\'') {
        v.subrange(1, v.len() - 1)
    } else {
        v
    }
}

/// The key and value a `.env` line sets, if it sets one: blank lines,
/// comments and lines without `=` set nothing, nor does an empty key.
pub open spec fn dotenv_entry(line: Seq<char>) -> Option<(Seq<char>, Seq<char>)> {
    let l = trim(line);
    if l.len() == 0 || l[0] == '#' || !l.contains('=') {
        None
    } else {
        let i = first_pos(l, '=');
        let k = trim(l.subrange(0, i));
        let v = unquote(trim(l.subrange(i + 1, l.len() as int)));
        if k.len() == 0 { None } else { Some((k, v)) }
    }
}

/// The entries a sequence of lines sets, in order.
pub open spec fn dotenv_entries(lines: Seq<Seq<char>>) -> Seq<(Seq<char>, Seq<char>)>
    decreases lines.len(),
{
    if lines.len() == 0 {
        Seq::empty()
    } else {
        dotenv_entries(lines.drop_last()) + match dotenv_entry(lines.last()) {
            Some(e) => seq![e],
            None => Seq::empty(),
        }
    }
}

/// The characters of each pair.
pub open spec fn pair_views(v: Seq<(String, String)>) -> Seq<(Seq<char>, Seq<char>)> {
    v.map_values(|p: (String, String)| (p.0@, p.1@))
}

/// What one `.env` line sets.
fn parse_dotenv_line(line: &[char]) -> (res: Option<(String, String)>)
    ensures
        match res {
            Some(p) => dotenv_entry(line@) == Some((p.0@, p.1@)),
            None => dotenv_entry(line@) is None,
        },
{
    let (a, b) = trim_bounds(line);
    let l = chars_range(line, a, b);
    if l.len() == 0 || l[0] == '#' {
        return None;
    }
    match find_char(l.as_slice(), '=') {
        None => None,
        Some(i) => {
            let ghost ls = l@;
            assert(ls.contains('=')) by { assert(ls[i as int] == '='); }
            assert(first_pos(ls, '=') == i) by {
                let f = first_pos(ls, '=');
                if f < i as int { assert(ls[f] == '='); }
                if f > i as int { assert(ls[i as int] == '='); }
            }
            let kpart = chars_range(l.as_slice(), 0, i);
            let (ka, kb) = trim_bounds(kpart.as_slice());
            let vpart = chars_range(l.as_slice(), i + 1, l.len());
            let (va, vb) = trim_bounds(vpart.as_slice());
            if ka == kb {
                return None;
            }
            let key = string_from_range(kpart.as_slice(), ka, kb);
            let n = vb - va;
            let value = if n >= 2 && vpart[va] == vpart[vb - 1] && (vpart[va] == '"' || vpart[va] == '\'') {
                string_from_range(vpart.as_slice(), va + 1, vb - 1)
            } else {
                string_from_range(vpart.as_slice(), va, vb)
            };
            proof {
                let t = vpart@.subrange(va as int, vb as int);
                if vb - va >= 2 {
                    assert(t.subrange(1, t.len() - 1) =~= vpart@.subrange(va + 1, vb - 1));
                }
            }
            Some((key, value))
        },
    }
}

/// Reads a `.env` file into key/value pairs, as `load_dotenv()` does.
#[verifier::rlimit(40)]
pub fn parse_dotenv(text: &str) -> (res: Vec<(String, String)>)
    ensures
        pair_views(res@) == dotenv_entries(split_on(text@, '\n')),
{
    let cs = str_chars(text);
    let mut out: Vec<(String, String)> = Vec::new();
    let mut cur: Vec<char> = Vec::new();
    let mut i: usize = 0;
    proof { lemma_split_nonempty(Seq::<char>::empty(), '\n'); }
    while i < cs.len()
        invariant
            i <= cs@.len(),
            cs@ == text@,
            split_on(cs@.subrange(0, i as int), '\n').len() >= 1,
            split_on(cs@.subrange(0, i as int), '\n').last() == cur@,
            pair_views(out@) == dotenv_entries(split_on(cs@.subrange(0, i as int), '\n').drop_last()),
        decreases cs.len() - i,
    {
        let ghost pre = cs@.subrange(0, i as int);
        let ghost post = cs@.subrange(0, i + 1);
        assert(post.drop_last() =~= pre);
        assert(post.last() == cs@[i as int]);
        let c = cs[i];
        if c == '\n' {
            let ghost prev_out = out@;
            match parse_dotenv_line(cur.as_slice()) {
                Some(p) => { out.push(p); },
                None => {},
            }
            proof {
                let parts = split_on(pre, '\n');
                assert(split_on(post, '\n') == parts.push(Seq::empty()));
                assert(split_on(post, '\n').drop_last() =~= parts);
                assert(parts.drop_last().push(parts.last()) =~= parts);
                assert(pair_views(out@) =~= dotenv_entries(parts.drop_last()) + match dotenv_entry(cur@) {
                    Some(e) => seq![e],
                    None => Seq::empty(),
                });
            }
            cur = Vec::new();
        } else {
            cur.push(c);
            proof {
                let parts = split_on(pre, '\n');
                let np = split_on(post, '\n');
                assert(np == parts.update(parts.len() - 1, parts.last().push(c)));
                assert(np.drop_last() =~= parts.drop_last());
            }
        }
        i = i + 1;
    }
    assert(cs@.subrange(0, cs@.len() as int) =~= text@);
    let ghost parts = split_on(text@, '\n');
    let ghost prev_out = out@;
    match parse_dotenv_line(cur.as_slice()) {
        Some(p) => { out.push(p); },
        None => {},
    }
    proof {
        assert(parts.drop_last().push(parts.last()) =~= parts);
        assert(pair_views(out@) =~= dotenv_entries(parts.drop_last()) + match dotenv_entry(cur@) {
            Some(e) => seq![e],
            None => Seq::empty(),
        });
    }
    out
}

} // verus!

verus! {

/// How relationship failures are treated.
#[derive(Debug, Clone, Copy, PartialEq, Eq, Structural)]
pub enum RelationshipErrors {
    Strict,
    Ignore,
}

impl RelationshipErrors {
    /// The setting's spelling.
    pub open spec fn text(self) -> Seq<char> {
        match self {
            RelationshipErrors::Strict => "strict"@,
            RelationshipErrors::Ignore => "ignore"@,
        }
    }

    /// The setting's spelling.
    pub fn as_str(&self) -> (res: &'static str)
        ensures
            res@ == self.text(),
    {
        match self {
            RelationshipErrors::Strict => "strict",
            RelationshipErrors::Ignore => "ignore",
        }
    }
}

/// Effective settings, and where each value came from.
#[derive(Debug, Clone)]
pub struct Settings {
    pub relationship_errors: RelationshipErrors,
    pub relationship_errors_source: String,
    pub skip_relationships: bool,
    pub skip_relationships_source: String,
    /// One line per setting whose value was rejected.
    pub warnings: Vec<String>,
}

impl Default for Settings {
    fn default() -> (res: Self)
        ensures
            res.relationship_errors == RelationshipErrors::Strict,
            res.relationship_errors_source@ == "default"@,
            res.skip_relationships == false,
            res.skip_relationships_source@ == "default"@,
            res.warnings@.len() == 0,
    {
        Settings {
            relationship_errors: RelationshipErrors::Strict,
            relationship_errors_source: owned("default"),
            skip_relationships: false,
            skip_relationships_source: owned("default"),
            warnings: Vec::new(),
        }
    }
}

/// Each line followed by a newline.
pub open spec fn lines_text(lines: Seq<Seq<char>>) -> Seq<char>
    decreases lines.len(),
{
    if lines.len() == 0 {
        Seq::empty()
    } else {
        lines_text(lines.drop_last()) + lines.last() + "\n"@
    }
}

impl Settings {
    /// The warning lines, each newline-terminated.
    pub fn warnings_text(&self) -> (res: String)
        ensures
            res@ == lines_text(views(self.warnings@)),
    {
        let mut out = String::new();
        let mut i: usize = 0;
        while i < self.warnings.len()
            invariant
                i <= self.warnings@.len(),
                out@ == lines_text(views(self.warnings@.subrange(0, i as int))),
            decreases self.warnings.len() - i,
        {
            push_str(&mut out, self.warnings[i].as_str());
            push_str(&mut out, "\n");
            proof {
                let s = views(self.warnings@.subrange(0, i + 1));
                assert(s.drop_last() =~= views(self.warnings@.subrange(0, i as int)));
            }
            i = i + 1;
        }
        assert(self.warnings@.subrange(0, self.warnings@.len() as int) =~= self.warnings@);
        out
    }
}

/// The value of the first pair named `key`.
pub open spec fn lookup(pairs: Seq<(Seq<char>, Seq<char>)>, key: Seq<char>) -> Option<Seq<char>>
    decreases pairs.len(),
{
    if pairs.len() == 0 {
        None
    } else if pairs[0].0 == key {
        Some(pairs[0].1)
    } else {
        lookup(pairs.drop_first(), key)
    }
}

/// A setting's raw value and its origin: the environment first, then
/// `.env`, then the default (empty).
pub open spec fn setting_source(env: Seq<(Seq<char>, Seq<char>)>, dotenv: Seq<(Seq<char>, Seq<char>)>, key: Seq<char>) -> (Seq<char>, Seq<char>) {
    match lookup(env, key) {
        Some(v) => (v, "environment"@),
        None => match lookup(dotenv, key) {
            Some(v) => (v, ".env"@),
            None => (Seq::empty(), "default"@),
        },
    }
}

/// `s` with each `'` escaped as `\'`.
pub open spec fn escape_quotes(s: Seq<char>) -> Seq<char>
    decreases s.len(),
{
    if s.len() == 0 {
        Seq::empty()
    } else {
        escape_quotes(s.drop_last()) + if s.last() == '\'' { seq!['\\', '\''] } else { seq![s.last()] }
    }
}

/// Python's `repr()` of a string, for the two cases a setting warning can
/// meet: single quotes normally, double quotes when the value holds a single
/// quote and no double quote.
pub open spec fn py_repr_text(s: Seq<char>) -> Seq<char> {
    if s.contains('\'') && !s.contains('"') {
        "\""@ + s + "\""@
    } else {
        "'"@ + escape_quotes(s) + "'"@
    }
}

/// The warning for a rejected value.
pub open spec fn invalid_warning(key: Seq<char>, raw: Seq<char>, origin: Seq<char>, fallback: Seq<char>) -> Seq<char> {
    "! "@ + key + "="@ + py_repr_text(raw) + " invalid ("@ + origin + "); falling back to "@ + fallback + "."@
}

/// `RELATIONSHIP_ERRORS` resolved: its value, source, and warning if any.
pub open spec fn relationship_setting(raw: Seq<char>, origin: Seq<char>) -> (RelationshipErrors, Seq<char>, Seq<Seq<char>>) {
    if raw.len() == 0 {
        (RelationshipErrors::Strict, origin, Seq::empty())
    } else if lowercase(trim(raw)) == "strict"@ {
        (RelationshipErrors::Strict, origin, Seq::empty())
    } else if lowercase(trim(raw)) == "ignore"@ {
        (RelationshipErrors::Ignore, origin, Seq::empty())
    } else {
        (RelationshipErrors::Strict, origin + " (invalid)"@,
            seq![invalid_warning("RELATIONSHIP_ERRORS"@, raw, origin, "strict"@)])
    }
}

/// `SKIP_RELATIONSHIPS` resolved: its value, source, and warning if any.
pub open spec fn skip_setting(raw: Seq<char>, origin: Seq<char>) -> (bool, Seq<char>, Seq<Seq<char>>) {
    if raw.len() == 0 {
        (false, origin, Seq::empty())
    } else if lowercase(trim(raw)) == "true"@ {
        (true, origin, Seq::empty())
    } else if lowercase(trim(raw)) == "false"@ {
        (false, origin, Seq::empty())
    } else {
        (false, origin + " (invalid)"@,
            seq![invalid_warning("SKIP_RELATIONSHIPS"@, raw, origin, "false"@)])
    }
}

/// The settings `load_settings` resolves from the environment and `.env`.
pub open spec fn settings_match(s: Settings, env: Seq<(Seq<char>, Seq<char>)>, dotenv: Seq<(Seq<char>, Seq<char>)>) -> bool {
    let (raw1, origin1) = setting_source(env, dotenv, "RELATIONSHIP_ERRORS"@);
    let (raw2, origin2) = setting_source(env, dotenv, "SKIP_RELATIONSHIPS"@);
    let r = relationship_setting(raw1, origin1);
    let k = skip_setting(raw2, origin2);
    &&& s.relationship_errors == r.0
    &&& s.relationship_errors_source@ == r.1
    &&& s.skip_relationships == k.0
    &&& s.skip_relationships_source@ == k.1
    &&& views(s.warnings@) == r.2 + k.2
}

/// The value of the first pair named `key`.
fn lookup_pair(pairs: &[(String, String)], key: &str) -> (res: Option<String>)
    ensures
        match res {
            Some(v) => lookup(pair_views(pairs@), key@) == Some(v@),
            None => lookup(pair_views(pairs@), key@) is None,
        },
{
    let mut i: usize = 0;
    assert(pair_views(pairs@).subrange(0, pairs@.len() as int) =~= pair_views(pairs@));
    while i < pairs.len()
        invariant
            i <= pairs@.len(),
            lookup(pair_views(pairs@), key@) == lookup(pair_views(pairs@).subrange(i as int, pairs@.len() as int), key@),
        decreases pairs.len() - i,
    {
        let ghost rest = pair_views(pairs@).subrange(i as int, pairs@.len() as int);
        assert(rest[0] == (pairs@[i as int].0@, pairs@[i as int].1@));
        if str_eq(pairs[i].0.as_str(), key) {
            return Some(pairs[i].1.clone());
        }
        assert(rest.drop_first() =~= pair_views(pairs@).subrange(i + 1, pairs@.len() as int));
        i = i + 1;
    }
    None
}

/// A setting's raw value and origin.
fn source_of(env: &[(String, String)], dotenv: &[(String, String)], key: &str) -> (res: (String, String))
    ensures
        (res.0@, res.1@) == setting_source(pair_views(env@), pair_views(dotenv@), key@),
{
    match lookup_pair(env, key) {
        Some(v) => (v, owned("environment")),
        None => match lookup_pair(dotenv, key) {
            Some(v) => (v, owned(".env")),
            None => (String::new(), owned("default")),
        },
    }
}

/// Python's `repr()` of a string, for the two cases a setting warning meets.
pub fn py_repr(s: &str) -> (res: String)
    ensures
        res@ == py_repr_text(s@),
{
    let cs = str_chars(s);
    let has_single = find_char(cs.as_slice(), '\'').is_some();
    let has_double = find_char(cs.as_slice(), '"').is_some();
    if has_single && !has_double {
        let mut out = owned("\"");
        push_str(&mut out, s);
        push_str(&mut out, "\"");
        out
    } else {
        let mut out = owned("'");
        let ghost start = out@;
        let mut i: usize = 0;
        while i < cs.len()
            invariant
                i <= cs@.len(),
                cs@ == s@,
                out@ == start + escape_quotes(s@.subrange(0, i as int)),
            decreases cs.len() - i,
        {
            if cs[i] == '\'' {
                push_char(&mut out, '\\');
                push_char(&mut out, '\'');
            } else {
                push_char(&mut out, cs[i]);
            }
            proof {
                let p = s@.subrange(0, i + 1);
                assert(p.drop_last() =~= s@.subrange(0, i as int));
                assert(p.last() == cs@[i as int]);
                assert(out@ =~= start + escape_quotes(p));
            }
            i = i + 1;
        }
        assert(s@.subrange(0, s@.len() as int) =~= s@);
        push_str(&mut out, "'");
        out
    }
}

/// The warning for a rejected value.
fn warning(key: &str, raw: &str, origin: &str, fallback: &str) -> (res: String)
    ensures
        res@ == invalid_warning(key@, raw@, origin@, fallback@),
{
    let mut w = owned("! ");
    push_str(&mut w, key);
    push_str(&mut w, "=");
    let r = py_repr(raw);
    push_str(&mut w, r.as_str());
    push_str(&mut w, " invalid (");
    push_str(&mut w, origin);
    push_str(&mut w, "); falling back to ");
    push_str(&mut w, fallback);
    push_str(&mut w, ".");
    w
}

/// `lowercase(trim(raw))` compared with `word`.
fn normalised_is(raw: &str, word: &str) -> (res: bool)
    ensures
        res == (lowercase(trim(raw@)) == word@),
{
    let t = trim_str(raw);
    let l = to_lowercase(t.as_str());
    str_eq(l.as_str(), word)
}

/// Resolves the two settings: the environment first, then `.env`, then the
/// default. An invalid value falls back to the default, with its source
/// marked `(invalid)` and a warning recorded.
pub fn load_settings(dotenv: &[(String, String)], env: &[(String, String)]) -> (res: Settings)
    ensures
        settings_match(res, pair_views(env@), pair_views(dotenv@)),
{
    let mut warnings: Vec<String> = Vec::new();
    let (raw, origin) = source_of(env, dotenv, "RELATIONSHIP_ERRORS");
    let (relationship_errors, relationship_errors_source) = if raw.unicode_len() == 0 {
        (RelationshipErrors::Strict, origin)
    } else if normalised_is(raw.as_str(), "strict") {
        (RelationshipErrors::Strict, origin)
    } else if normalised_is(raw.as_str(), "ignore") {
        (RelationshipErrors::Ignore, origin)
    } else {
        warnings.push(warning("RELATIONSHIP_ERRORS", raw.as_str(), origin.as_str(), "strict"));
        let mut src = origin.clone();
        push_str(&mut src, " (invalid)");
        (RelationshipErrors::Strict, src)
    };
    let ghost w1 = views(warnings@);
    let (raw2, origin2) = source_of(env, dotenv, "SKIP_RELATIONSHIPS");
    let (skip_relationships, skip_relationships_source) = if raw2.unicode_len() == 0 {
        (false, origin2)
    } else if normalised_is(raw2.as_str(), "true") {
        (true, origin2)
    } else if normalised_is(raw2.as_str(), "false") {
        (false, origin2)
    } else {
        warnings.push(warning("SKIP_RELATIONSHIPS", raw2.as_str(), origin2.as_str(), "false"));
        let mut src = origin2.clone();
        push_str(&mut src, " (invalid)");
        (false, src)
    };
    proof {
        let r = relationship_setting(raw@, origin@);
        let k = skip_setting(raw2@, origin2@);
        assert(w1 =~= r.2);
        assert(views(warnings@) =~= r.2 + k.2);
    }
    Settings {
        relationship_errors,
        relationship_errors_source,
        skip_relationships,
        skip_relationships_source,
        warnings,
    }
}

/// The CLI's startup banner.
pub open spec fn banner_text(s: Settings) -> Seq<char> {
    "Settings:\n  RELATIONSHIP_ERRORS="@ + s.relationship_errors.text() + " ("@ + s.relationship_errors_source@
        + ")\n  SKIP_RELATIONSHIPS="@ + (if s.skip_relationships { "true"@ } else { "false"@ }) + " ("@
        + s.skip_relationships_source@ + ")\n"@
}

/// Reproduces the CLI's startup settings banner.
pub fn settings_banner(s: &Settings) -> (res: String)
    ensures
        res@ == banner_text(*s),
{
    let mut out = owned("Settings:\n  RELATIONSHIP_ERRORS=");
    push_str(&mut out, s.relationship_errors.as_str());
    push_str(&mut out, " (");
    push_str(&mut out, s.relationship_errors_source.as_str());
    push_str(&mut out, ")\n  SKIP_RELATIONSHIPS=");
    if s.skip_relationships {
        push_str(&mut out, "true");
    } else {
        push_str(&mut out, "false");
    }
    push_str(&mut out, " (");
    push_str(&mut out, s.skip_relationships_source.as_str());
    push_str(&mut out, ")\n");
    out
}

// ---------------------------------------------------------------------------
// The CLI's state file
// ---------------------------------------------------------------------------

/// Task id → number from an `issues` object, later members winning; members
/// whose value is not a non-negative integer are skipped.
pub open spec fn number_members(members: Seq<(String, JsonValue)>) -> Map<Seq<char>, u64>
    decreases members.len(),
{
    if members.len() == 0 {
        Map::empty()
    } else {
        let rest = number_members(members.drop_last());
        match members.last().1 {
            JsonValue::Number(n) => match n.as_u64 {
                Some(x) => rest.insert(members.last().0@, x),
                None => rest,
            },
            _ => rest,
        }
    }
}

/// The id → number map a `.import-state.json` payload seeds.
pub open spec fn state_issues(v: JsonValue) -> Map<Seq<char>, u64> {
    match field(v, "issues"@) {
        Some(JsonValue::Object(o)) => number_members(o@),
        _ => Map::empty(),
    }
}

/// Seeds the id → number map from a `.import-state.json` payload.
pub fn issues_from_state(v: &JsonValue) -> (res: StrMap<u64>)
    ensures
        res@ == state_issues(*v),
{
    let mut out: StrMap<u64> = StrMap::new();
    match v.get("issues") {
        Some(JsonValue::Object(o)) => {
            let mut i: usize = 0;
            while i < o.len()
                invariant
                    i <= o@.len(),
                    out@ == number_members(o@.subrange(0, i as int)),
                decreases o.len() - i,
            {
                proof {
                    let s = o@.subrange(0, i + 1);
                    assert(s.drop_last() =~= o@.subrange(0, i as int));
                    assert(s.last() == o@[i as int]);
                }
                match o[i].1.as_u64() {
                    Some(n) => out.insert(o[i].0.clone(), n),
                    None => {},
                }
                i = i + 1;
            }
            assert(o@.subrange(0, o@.len() as int) =~= o@);
        },
        _ => {},
    }
    out
}

/// A JSON number holding `n`.
pub fn number_value(n: u64) -> (res: JsonValue)
    ensures
        res == JsonValue::Number(JsonNumber { text: res->Number_0.text, as_u64: Some(n), is_zero: n == 0 }),
        res->Number_0.text@ == decimal(n as nat),
{
    let mut text = String::new();
    push_decimal(&mut text, n);
    JsonValue::Number(JsonNumber { text, as_u64: Some(n), is_zero: n == 0 })
}

/// Renders an id → number map as the CLI writes `.import-state.json`:
/// `{"issues": {id: number, ...}}`, ids ascending.
pub fn state_to_json(issues: &StrMap<u64>) -> (res: JsonValue)
    ensures
        res is Object,
        res->Object_0@.len() == 1,
        res->Object_0@[0].0@ == "issues"@,
        res->Object_0@[0].1 is Object,
        res->Object_0@[0].1->Object_0@.len() == issues.ordered().len(),
        forall|i: int| 0 <= i < issues.ordered().len() ==> {
            let m = #[trigger] res->Object_0@[0].1->Object_0@[i];
            &&& m.0@ == issues.ordered()[i].0@
            &&& m.1 is Number
            &&& m.1->Number_0.as_u64 == Some(issues.ordered()[i].1)
            &&& m.1->Number_0.text@ == decimal(issues.ordered()[i].1 as nat)
        },
{
    let entries = issues.entries();
    let mut members: Vec<(String, JsonValue)> = Vec::new();
    let mut i: usize = 0;
    while i < entries.len()
        invariant
            i <= entries@.len(),
            entries@ == issues.ordered(),
            members@.len() == i,
            forall|k: int| 0 <= k < i ==> {
                let m = #[trigger] members@[k];
                &&& m.0@ == entries@[k].0@
                &&& m.1 is Number
                &&& m.1->Number_0.as_u64 == Some(entries@[k].1)
                &&& m.1->Number_0.text@ == decimal(entries@[k].1 as nat)
            },
        decreases entries.len() - i,
    {
        let v = number_value(entries[i].1);
        members.push((entries[i].0.clone(), v));
        i = i + 1;
    }
    let root = vec![(owned("issues"), JsonValue::Object(members))];
    JsonValue::Object(root)
}

} // verus!

verus! {

/// Settings precedence: a value in the environment wins over `.env`, which
/// wins over the default; the source says which one was used.
pub proof fn lemma_settings_precedence(env: Seq<(Seq<char>, Seq<char>)>, dotenv: Seq<(Seq<char>, Seq<char>)>, key: Seq<char>)
    ensures
        lookup(env, key) matches Some(v) ==> setting_source(env, dotenv, key) == (v, "environment"@),
        lookup(env, key) is None ==> (lookup(dotenv, key) matches Some(v) ==> setting_source(env, dotenv, key) == (v, ".env"@)),
        lookup(env, key) is None && lookup(dotenv, key) is None ==> setting_source(env, dotenv, key) == (Seq::<char>::empty(), "default"@),
{
}


// ---------------------------------------------------------------------------
// Laws of validation and of `.env` lines
// ---------------------------------------------------------------------------

/// Every string of `s` is non-empty and does not end with `c`.
pub open spec fn none_ends_with(s: Seq<Seq<char>>, c: char) -> bool {
    forall|k: int| 0 <= k < s.len() ==> (#[trigger] s[k]).len() > 0 && s[k].last() != c
}

proof fn lemma_none_ends_concat(a: Seq<Seq<char>>, b: Seq<Seq<char>>, c: char)
    requires
        none_ends_with(a, c),
        none_ends_with(b, c),
    ensures
        none_ends_with(a + b, c),
{
    assert forall|k: int| 0 <= k < (a + b).len() implies (#[trigger] (a + b)[k]).len() > 0 && (a + b)[k].last() != c by {
        if k < a.len() {
            assert((a + b)[k] == a[k]);
        } else {
            assert((a + b)[k] == b[k - a.len()]);
        }
    }
}

/// The missing-key error for `key` ends with the key's last character.
proof fn lemma_missing_error_ends(t: JsonValue, key: Seq<char>, c: char)
    requires
        key.len() > 0,
        key.last() != c,
    ensures
        none_ends_with(missing_error(t, key), c),
{
    if field(t, key) is None {
        let x = id_label(t) + ": missing "@ + key;
        assert(x[x.len() - 1] == key[key.len() - 1]);
    }
}

/// No missing-key error ends with `c`, when no checked key does.
proof fn lemma_missing_errors_end(t: JsonValue, c: char)
    requires
        c != 'd' && c != 'e' && c != 'y' && c != 's' && c != 'n' && c != 't',
    ensures
        none_ends_with(missing_errors(t), c),
{
    reveal_strlit("id");
    reveal_strlit("module");
    reveal_strlit("title");
    reveal_strlit("priority");
    reveal_strlit("labels");
    reveal_strlit("body");
    reveal_strlit("depends_on");
    reveal_strlit("parent");
    lemma_missing_error_ends(t, "id"@, c);
    lemma_missing_error_ends(t, "module"@, c);
    lemma_missing_error_ends(t, "title"@, c);
    lemma_missing_error_ends(t, "priority"@, c);
    lemma_missing_error_ends(t, "labels"@, c);
    lemma_missing_error_ends(t, "body"@, c);
    lemma_missing_error_ends(t, "depends_on"@, c);
    lemma_missing_error_ends(t, "parent"@, c);
    let m1 = missing_error(t, "id"@) + missing_error(t, "module"@);
    lemma_none_ends_concat(missing_error(t, "id"@), missing_error(t, "module"@), c);
    let m2 = m1 + missing_error(t, "title"@);
    lemma_none_ends_concat(m1, missing_error(t, "title"@), c);
    let m3 = m2 + missing_error(t, "priority"@);
    lemma_none_ends_concat(m2, missing_error(t, "priority"@), c);
    let m4 = m3 + missing_error(t, "labels"@);
    lemma_none_ends_concat(m3, missing_error(t, "labels"@), c);
    let m5 = m4 + missing_error(t, "body"@);
    lemma_none_ends_concat(m4, missing_error(t, "body"@), c);
    let m6 = m5 + missing_error(t, "depends_on"@);
    lemma_none_ends_concat(m5, missing_error(t, "depends_on"@), c);
    lemma_none_ends_concat(m6, missing_error(t, "parent"@), c);
}

/// Two strings whose tails of the same length differ are different.
proof fn lemma_tails_differ(a: Seq<char>, s: Seq<char>, b: Seq<char>, u: Seq<char>)
    requires
        s.len() <= u.len(),
        s != u.subrange(u.len() - s.len(), u.len() as int),
    ensures
        a + s != b + u,
{
    if a + s == b + u {
        let x = a + s;
        assert(x.subrange(a.len() as int, x.len() as int) =~= s);
        assert((b + u).subrange((b + u).len() - s.len(), (b + u).len() as int) =~= u.subrange(u.len() - s.len(), u.len() as int));
    }
}

/// Duplicate ids: the first pass reports task `i` as a duplicate exactly when
/// its id is the id of some earlier task, however far before it.
pub proof fn lemma_duplicate_reported_iff_seen_before(tasks: Seq<JsonValue>, i: int)
    requires
        0 <= i < tasks.len(),
    ensures
        pass1_task(tasks, i).contains(task_tid(tasks[i]) + ": duplicate ID"@)
            <==> exists|j: int| 0 <= j < i && task_tid(tasks[j]) == task_tid(tasks[i]),
{
    let t = tasks[i];
    let tid = task_tid(t);
    let e = tid + ": duplicate ID"@;
    reveal_strlit(": duplicate ID");
    reveal_strlit(": invalid priority");
    assert(e.last() == 'D');
    let prior = tids(tasks.subrange(0, i));
    assert(prior.contains(tid) <==> exists|j: int| 0 <= j < i && task_tid(tasks[j]) == tid) by {
        if prior.contains(tid) {
            let k = choose|k: int| 0 <= k < prior.len() && prior[k] == tid;
            assert(task_tid(tasks[k]) == tid);
        }
        if exists|j: int| 0 <= j < i && task_tid(tasks[j]) == tid {
            let j = choose|j: int| 0 <= j < i && task_tid(tasks[j]) == tid;
            assert(prior[j] == tid);
        }
    }
    let m = missing_errors(t);
    let d = if prior.contains(tid) { seq![e] } else { Seq::<Seq<char>>::empty() };
    let p = if priority_ok(t) { Seq::<Seq<char>>::empty() } else { seq![tid + ": invalid priority"@] };
    assert(pass1_task(tasks, i) == m + d + p);
    lemma_missing_errors_end(t, 'D');
    let pe = tid + ": invalid priority"@;
    assert(pe[pe.len() - 1] == 'y');
    assert(none_ends_with(p, 'D'));
    if prior.contains(tid) {
        assert((m + d + p)[m.len() as int] == e);
    } else {
        assert(m + d + p =~= m + p);
        lemma_none_ends_concat(m, p, 'D');
        if (m + p).contains(e) {
            let k = choose|k: int| 0 <= k < (m + p).len() && (m + p)[k] == e;
            assert((m + p)[k].last() != 'D');
        }
    }
}

/// Dependencies: every dependency that is no task's id is reported as
/// unknown, every dependency on the task itself as a self dependency, and a
/// task whose dependencies are all other known tasks gets no finding.
pub proof fn lemma_dependency_findings(tid: Seq<char>, deps: Seq<Seq<char>>, ids: Seq<Seq<char>>)
    ensures
        forall|k: int| 0 <= k < deps.len() && !ids.contains(#[trigger] deps[k])
            ==> dep_errors(tid, deps, ids).contains(tid + ": unknown dependency "@ + deps[k]),
        forall|k: int| 0 <= k < deps.len() && #[trigger] deps[k] == tid
            ==> dep_errors(tid, deps, ids).contains(tid + ": self dependency"@),
        (forall|k: int| 0 <= k < deps.len() ==> ids.contains(#[trigger] deps[k]) && deps[k] != tid)
            ==> dep_errors(tid, deps, ids).len() == 0,
    decreases deps.len(),
{
    if deps.len() > 0 {
        let front = deps.drop_last();
        let d = deps.last();
        lemma_dependency_findings(tid, front, ids);
        let before = dep_errors(tid, front, ids);
        let a = if ids.contains(d) { Seq::<Seq<char>>::empty() } else { seq![tid + ": unknown dependency "@ + d] };
        let b = if d == tid { seq![tid + ": self dependency"@] } else { Seq::<Seq<char>>::empty() };
        let all = dep_errors(tid, deps, ids);
        assert(all == before + a + b);
        assert forall|k: int| 0 <= k < deps.len() && !ids.contains(#[trigger] deps[k])
            implies all.contains(tid + ": unknown dependency "@ + deps[k]) by {
            if k < deps.len() - 1 {
                assert(front[k] == deps[k]);
                let j = choose|j: int| 0 <= j < before.len() && before[j] == tid + ": unknown dependency "@ + front[k];
                assert(all[j] == before[j]);
            } else {
                assert(all[before.len() as int] == a[0]);
            }
        }
        assert forall|k: int| 0 <= k < deps.len() && #[trigger] deps[k] == tid
            implies all.contains(tid + ": self dependency"@) by {
            if k < deps.len() - 1 {
                assert(front[k] == deps[k]);
                let j = choose|j: int| 0 <= j < before.len() && before[j] == tid + ": self dependency"@;
                assert(all[j] == before[j]);
            } else {
                assert(all[(before.len() + a.len()) as int] == b[0]);
            }
        }
        if forall|k: int| 0 <= k < deps.len() ==> ids.contains(#[trigger] deps[k]) && deps[k] != tid {
            assert forall|k: int| 0 <= k < front.len() implies ids.contains(#[trigger] front[k]) && front[k] != tid by {
                assert(front[k] == deps[k]);
            }
            assert(ids.contains(deps[deps.len() - 1]) && deps[deps.len() - 1] != tid);
        }
    }
}

/// Required keys: a task lacking one of the eight keys is reported as
/// missing it, and a task with all of them gets no missing-key finding.
pub proof fn lemma_missing_key_findings(t: JsonValue, key: Seq<char>)
    ensures
        (key == "id"@ || key == "module"@ || key == "title"@ || key == "priority"@ || key == "labels"@
            || key == "body"@ || key == "depends_on"@ || key == "parent"@) && field(t, key) is None
            ==> missing_errors(t).contains(id_label(t) + ": missing "@ + key),
        (field(t, "id"@) is Some && field(t, "module"@) is Some && field(t, "title"@) is Some
            && field(t, "priority"@) is Some && field(t, "labels"@) is Some && field(t, "body"@) is Some
            && field(t, "depends_on"@) is Some && field(t, "parent"@) is Some) ==> missing_errors(t).len() == 0,
{
    let e = id_label(t) + ": missing "@ + key;
    let m0 = missing_error(t, "id"@);
    let m1 = m0 + missing_error(t, "module"@);
    let m2 = m1 + missing_error(t, "title"@);
    let m3 = m2 + missing_error(t, "priority"@);
    let m4 = m3 + missing_error(t, "labels"@);
    let m5 = m4 + missing_error(t, "body"@);
    let m6 = m5 + missing_error(t, "depends_on"@);
    let m7 = m6 + missing_error(t, "parent"@);
    assert(m7 == missing_errors(t));
    if field(t, key) is None {
        if key == "id"@ {
            assert(m7[0] == e);
        } else if key == "module"@ {
            assert(m7[m0.len() as int] == e);
        } else if key == "title"@ {
            assert(m7[m1.len() as int] == e);
        } else if key == "priority"@ {
            assert(m7[m2.len() as int] == e);
        } else if key == "labels"@ {
            assert(m7[m3.len() as int] == e);
        } else if key == "body"@ {
            assert(m7[m4.len() as int] == e);
        } else if key == "depends_on"@ {
            assert(m7[m5.len() as int] == e);
        } else if key == "parent"@ {
            assert(m7[m6.len() as int] == e);
        }
    }
}

/// The priorities a task may have: exactly `P0`, `P1`, `P2` and `P3`.
pub open spec fn accepted_priority(p: Seq<char>) -> bool {
    p == "P0"@ || p == "P1"@ || p == "P2"@ || p == "P3"@
}

/// Every accepted priority is one of the base labels every run creates.
pub proof fn lemma_accepted_priorities_are_base_labels(p: Seq<char>)
    ensures
        accepted_priority(p) <==> base_labels().subrange(0, 4).contains(p),
        accepted_priority(p) ==> base_labels().contains(p),
{
    let b = base_labels();
    if base_labels().subrange(0, 4).contains(p) {
        let k = choose|k: int| 0 <= k < 4 && b.subrange(0, 4)[k] == p;
        assert(b.subrange(0, 4)[k] == b[k]);
    }
    if accepted_priority(p) {
        if p == "P0"@ { assert(b.subrange(0, 4)[0] == p); assert(b[0] == p); }
        if p == "P1"@ { assert(b.subrange(0, 4)[1] == p); assert(b[1] == p); }
        if p == "P2"@ { assert(b.subrange(0, 4)[2] == p); assert(b[2] == p); }
        if p == "P3"@ { assert(b.subrange(0, 4)[3] == p); assert(b[3] == p); }
    }
}

proof fn lemma_not_in_concat(a: Seq<Seq<char>>, b: Seq<Seq<char>>, e: Seq<char>)
    requires
        !a.contains(e),
        !b.contains(e),
    ensures
        !(a + b).contains(e),
{
    if (a + b).contains(e) {
        let k = choose|k: int| 0 <= k < (a + b).len() && (a + b)[k] == e;
        if k < a.len() {
            assert(a[k] == e);
        } else {
            assert(b[k - a.len()] == e);
        }
    }
}

/// A missing-key error is not `e` when its key ends otherwise than `e`.
proof fn lemma_missing_not_by_last(t: JsonValue, key: Seq<char>, e: Seq<char>)
    requires
        key.len() > 0,
        e.len() > 0,
        key.last() != e.last(),
    ensures
        !missing_error(t, key).contains(e),
{
    lemma_missing_error_ends(t, key, e.last());
    if missing_error(t, key).contains(e) {
        let k = choose|k: int| 0 <= k < missing_error(t, key).len() && missing_error(t, key)[k] == e;
        assert(missing_error(t, key)[k].last() != e.last());
    }
}

/// A missing-key error is not `b + u` when `": missing " + key` is not the
/// tail of `u`.
proof fn lemma_missing_not_by_tail(t: JsonValue, key: Seq<char>, b: Seq<char>, u: Seq<char>)
    requires
        (": missing "@ + key).len() <= u.len(),
        ": missing "@ + key != u.subrange(u.len() - (": missing "@ + key).len(), u.len() as int),
    ensures
        !missing_error(t, key).contains(b + u),
{
    let s1 = ": missing "@ + key;
    lemma_tails_differ(id_label(t), s1, b, u);
    assert(id_label(t) + ": missing "@ + key =~= id_label(t) + s1);
    if missing_error(t, key).contains(b + u) {
        assert(missing_error(t, key)[0] == b + u);
    }
}

/// Priorities: the first pass reports task `i`'s priority as invalid
/// exactly when it is not the string `P0`, `P1`, `P2` or `P3`.
pub proof fn lemma_invalid_priority_reported_iff_not_accepted(tasks: Seq<JsonValue>, i: int)
    requires
        0 <= i < tasks.len(),
    ensures
        pass1_task(tasks, i).contains(task_tid(tasks[i]) + ": invalid priority"@)
            <==> !(field(tasks[i], "priority"@) matches Some(JsonValue::Str(p)) && accepted_priority(p@)),
{
    let t = tasks[i];
    let tid = task_tid(t);
    reveal_strlit(": invalid priority");
    let u = ": invalid priority"@;
    let e = tid + u;
    let prior = tids(tasks.subrange(0, i));
    let d = if prior.contains(tid) { seq![tid + ": duplicate ID"@] } else { Seq::<Seq<char>>::empty() };
    let p = if priority_ok(t) { Seq::<Seq<char>>::empty() } else { seq![e] };
    assert(e[e.len() - 1] == 'y');
    reveal_strlit("id");
    reveal_strlit("module");
    reveal_strlit("title");
    reveal_strlit("labels");
    reveal_strlit("depends_on");
    reveal_strlit("parent");
    reveal_strlit("priority");
    reveal_strlit("body");
    reveal_strlit(": missing ");
    lemma_missing_not_by_last(t, "id"@, e);
    lemma_missing_not_by_last(t, "module"@, e);
    lemma_missing_not_by_last(t, "title"@, e);
    lemma_missing_not_by_last(t, "labels"@, e);
    lemma_missing_not_by_last(t, "depends_on"@, e);
    lemma_missing_not_by_last(t, "parent"@, e);
    assert(": missing "@ + "priority"@ != u.subrange(u.len() - (": missing "@ + "priority"@).len(), u.len() as int)) by {
        let s1 = ": missing "@ + "priority"@;
        assert(s1[2] == 'm');
        assert(u.subrange(0, 18)[2] == 'i');
        assert(u.subrange(u.len() - s1.len(), u.len() as int) =~= u.subrange(0, 18));
    }
    lemma_missing_not_by_tail(t, "priority"@, tid, u);
    assert(": missing "@ + "body"@ != u.subrange(u.len() - (": missing "@ + "body"@).len(), u.len() as int)) by {
        let s2 = ": missing "@ + "body"@;
        assert(s2[0] == ':');
        assert(u.subrange(4, 18)[0] == 'v');
    }
    lemma_missing_not_by_tail(t, "body"@, tid, u);
    assert(!d.contains(e)) by {
        reveal_strlit(": duplicate ID");
        let de = tid + ": duplicate ID"@;
        assert(de[de.len() - 1] == 'D');
        if d.contains(e) {
            assert(d[0] == e);
        }
    }
    let m1 = missing_error(t, "id"@) + missing_error(t, "module"@);
    lemma_not_in_concat(missing_error(t, "id"@), missing_error(t, "module"@), e);
    let m2 = m1 + missing_error(t, "title"@);
    lemma_not_in_concat(m1, missing_error(t, "title"@), e);
    let m3 = m2 + missing_error(t, "priority"@);
    lemma_not_in_concat(m2, missing_error(t, "priority"@), e);
    let m4 = m3 + missing_error(t, "labels"@);
    lemma_not_in_concat(m3, missing_error(t, "labels"@), e);
    let m5 = m4 + missing_error(t, "body"@);
    lemma_not_in_concat(m4, missing_error(t, "body"@), e);
    let m6 = m5 + missing_error(t, "depends_on"@);
    lemma_not_in_concat(m5, missing_error(t, "depends_on"@), e);
    let m7 = m6 + missing_error(t, "parent"@);
    lemma_not_in_concat(m6, missing_error(t, "parent"@), e);
    assert(m7 == missing_errors(t));
    lemma_not_in_concat(m7, d, e);
    let all = m7 + d;
    assert(pass1_task(tasks, i) == all + p);
    if priority_ok(t) {
        assert(all + p =~= all);
    } else {
        assert((all + p)[all.len() as int] == e);
    }
}

/// A value wrapped in one pair of matching quotes, either `'` or `"`, is
/// returned without them; any other value is returned as it is.
pub proof fn lemma_unquote(v: Seq<char>, q: char)
    ensures
        (q == '"' || q == '\'') ==> unquote(seq![q] + v + seq![q]) == v,
        !(v.len() >= 2 && v[0] == v.last() && (v[0] == '"' || v[0] == '\'')) ==> unquote(v) == v,
{
    let w = seq![q] + v + seq![q];
    assert(w[0] == q && w[w.len() - 1] == q);
    assert(w.subrange(1, w.len() - 1) =~= v);
}

/// A string that neither starts nor ends with whitespace trims to itself.
proof fn lemma_trim_stable(s: Seq<char>)
    requires
        s.len() > 0,
        !crate::text::is_ws(s[0]),
        !crate::text::is_ws(s.last()),
    ensures
        trim(s) == s,
{
    assert(crate::text::trim_start(s) == s);
    assert(crate::text::trim_end(s) == s);
}

/// The first `=` of `key + "=" + rest`, for a key without one, is right
/// after the key.
proof fn lemma_first_equals(key: Seq<char>, rest: Seq<char>)
    requires
        !key.contains('='),
    ensures
        (key + "="@ + rest).contains('='),
        first_pos(key + "="@ + rest, '=') == key.len(),
{
    reveal_strlit("=");
    let line = key + "="@ + rest;
    let n = key.len() as int;
    assert(line[n] == '=');
    assert forall|j: int| 0 <= j < n implies line[j] != '=' by {
        assert(line[j] == key[j]);
        if key[j] == '=' {
            assert(key.contains('='));
        }
    }
    assert(line.contains('='));
    let i = first_pos(line, '=');
    assert(0 <= n < line.len() && line[n] == '=' && forall|j: int| 0 <= j < n ==> line[j] != '=');
    if i < n {
        assert(line[i] != '=');
    }
    if i > n {
        assert(line[n] != '=');
    }
}

/// What a `.env` line sets, from the pieces `dotenv_entry` reads.
proof fn lemma_dotenv_entry_from_parts(line: Seq<char>, i: int, key: Seq<char>, val: Seq<char>)
    requires
        trim(line) == line,
        line.len() > 0,
        line[0] != '#',
        line.contains('='),
        first_pos(line, '=') == i,
        trim(line.subrange(0, i)) == key,
        key.len() > 0,
        unquote(trim(line.subrange(i + 1, line.len() as int))) == val,
    ensures
        dotenv_entry(line) == Some((key, val)),
{
}

proof fn lemma_quote_not_ws(q: char)
    requires
        q == '"' || q == '\'',
    ensures
        !crate::text::is_ws(q),
{
}

/// A value wrapped in a quote on each side trims and unquotes to itself
/// without them.
proof fn lemma_wrapped(v: Seq<char>, q: char)
    requires
        q == '"' || q == '\'',
    ensures
        (seq![q] + v + seq![q]).len() > 0,
        !crate::text::is_ws((seq![q] + v + seq![q]).last()),
        unquote(trim(seq![q] + v + seq![q])) == v,
{
    let w = seq![q] + v + seq![q];
    lemma_quote_not_ws(q);
    assert(w[0] == q && w[w.len() - 1] == q);
    lemma_trim_stable(w);
    lemma_unquote(v, q);
}

/// How `dotenv_entry` splits `key + "=" + w`.
proof fn lemma_line_parts(key: Seq<char>, w: Seq<char>)
    requires
        key.len() > 0,
        !crate::text::is_ws(key[0]),
        !crate::text::is_ws(key.last()),
        !key.contains('='),
        w.len() > 0,
        !crate::text::is_ws(w.last()),
    ensures
        trim(key + "="@ + w) == key + "="@ + w,
        (key + "="@ + w).len() > 0,
        (key + "="@ + w)[0] == key[0],
        (key + "="@ + w).contains('='),
        first_pos(key + "="@ + w, '=') == key.len(),
        trim((key + "="@ + w).subrange(0, key.len() as int)) == key,
        (key + "="@ + w).subrange(key.len() as int + 1, (key + "="@ + w).len() as int) == w,
{
    reveal_strlit("=");
    let line = key + "="@ + w;
    assert(line[0] == key[0]);
    assert(line[line.len() - 1] == w[w.len() - 1]);
    lemma_trim_stable(line);
    lemma_first_equals(key, w);
    assert(line.subrange(0, key.len() as int) =~= key);
    lemma_trim_stable(key);
    assert(line.subrange(key.len() as int + 1, line.len() as int) =~= w);
}

/// A `.env` line `KEY="value"` or `KEY='value'` sets `KEY` to `value`, the
/// quotes stripped, for a key with no `=`, not starting with `#` and without
/// surrounding whitespace.
pub proof fn lemma_quoted_dotenv_line(key: Seq<char>, v: Seq<char>, q: char)
    requires
        q == '"' || q == '\'',
        key.len() > 0,
        key[0] != '#',
        !crate::text::is_ws(key[0]),
        !crate::text::is_ws(key.last()),
        !key.contains('='),
    ensures
        dotenv_entry(key + "="@ + seq![q] + v + seq![q]) == Some((key, v)),
{
    let w = seq![q] + v + seq![q];
    let line = key + "="@ + w;
    assert(key + "="@ + seq![q] + v + seq![q] == line) by {
        assert(key + "="@ + seq![q] + v + seq![q] =~= line);
    }
    assert(dotenv_entry(line) == Some((key, v))) by {
        lemma_wrapped(v, q);
        lemma_line_parts(key, w);
        lemma_dotenv_entry_from_parts(line, key.len() as int, key, v);
    }
}

} // verus!
