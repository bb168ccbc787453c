//! Where the app keeps its files, and the resumable import state.
//!
//! The state is only a cache: what already exists is re-derived from GitHub on
//! every run, so a missing or stale state costs time but never correctness.

use vstd::prelude::*;
use crate::json::{JsonValue, JsonNumber, member, field, as_u64_spec};
use crate::strmap::{StrMap, lex_lt, strictly_sorted};
use crate::text::lex_le;
use crate::text::{owned, push_str, push_char, decimal};
use crate::tasks::number_value;

verus! {

broadcast use vstd::seq_lib::group_seq_properties;

/// Marker file that switches the app into portable mode.
pub const PORTABLE_MARKER: &'static str = "portable.txt";

/// Accepted alternative spelling of the marker.
pub const PORTABLE_MARKER_ALT: &'static str = ".portable";

/// `config.json`.
#[derive(Debug, Clone)]
pub struct Config {
    pub repo: String,
    pub project: String,
    pub project_owner: String,
}

// ---------------------------------------------------------------------------
// Paths
// ---------------------------------------------------------------------------

/// Is `c` a path separator on a platform whose main separator is `sep`?
pub open spec fn is_separator(c: char, sep: char) -> bool {
    c == '/' || c == sep
}

/// `name` appended to `base` as `Path::join` appends a relative name.
pub open spec fn join_path(base: Seq<char>, name: Seq<char>, sep: char) -> Seq<char> {
    if base.len() == 0 {
        name
    } else if is_separator(base.last(), sep) {
        base + name
    } else {
        base.push(sep) + name
    }
}

/// `res` is `name` joined to `base` with the platform's separator.
pub open spec fn joined(res: Seq<char>, base: Seq<char>, name: Seq<char>) -> bool {
    exists|sep: char| (sep == '/' || sep == '\\') && res == #[trigger] join_path(base, name, sep)
}

/// The platform's main path separator, `std::path::MAIN_SEPARATOR`.
#[verifier::external_body]
fn main_separator() -> (res: char)
    ensures
        res == '/' || res == '\\',
{
    std::path::MAIN_SEPARATOR
}

/// Joins a relative file name to a directory.
pub fn join_name(base: &str, name: &str) -> (res: String)
    ensures
        joined(res@, base@, name@),
{
    let sep = main_separator();
    let n = base.unicode_len();
    let mut out = owned(base);
    if n > 0 {
        let last = base.get_char(n - 1);
        if !(last == '/' || last == sep) {
            push_char(&mut out, sep);
        }
    }
    push_str(&mut out, name);
    assert(out@ == join_path(base@, name@, sep));
    out
}

/// A resolved set of file locations.
#[derive(Debug, Clone)]
pub struct AppPaths {
    /// True when a portable marker was found beside the executable.
    pub portable: bool,
    /// Directory holding `config.json`, `tasks.json`, and the state file.
    pub base_dir: String,
}

impl AppPaths {
    /// Resolves the workspace: a portable marker beside the executable wins;
    /// then, in a debug build, the repository root found above the working
    /// directory; otherwise the OS app-config directory.
    pub fn resolve(exe_dir: &str, marker_found: bool, repo_root: Option<&str>, app_config_dir: &str, is_debug: bool) -> (res: AppPaths)
        ensures
            res.portable == marker_found,
            marker_found ==> res.base_dir@ == exe_dir@,
            !marker_found && is_debug && repo_root is Some ==> res.base_dir@ == repo_root->0@,
            !marker_found && !(is_debug && repo_root is Some) ==> res.base_dir@ == app_config_dir@,
    {
        if marker_found {
            return AppPaths { portable: true, base_dir: owned(exe_dir) };
        }
        if is_debug {
            match repo_root {
                Some(dir) => return AppPaths { portable: false, base_dir: owned(dir) },
                None => {},
            }
        }
        AppPaths { portable: false, base_dir: owned(app_config_dir) }
    }

    /// `config.json` in the workspace.
    pub fn config(&self) -> (res: String)
        ensures
            joined(res@, self.base_dir@, "config.json"@),
    {
        join_name(self.base_dir.as_str(), "config.json")
    }

    /// `tasks.json` in the workspace.
    pub fn tasks(&self) -> (res: String)
        ensures
            joined(res@, self.base_dir@, "tasks.json"@),
    {
        join_name(self.base_dir.as_str(), "tasks.json")
    }

    /// The resume state file.
    pub fn state(&self) -> (res: String)
        ensures
            joined(res@, self.base_dir@, ".import-state.json"@),
    {
        join_name(self.base_dir.as_str(), ".import-state.json")
    }

    /// The `.env` file.
    pub fn dotenv(&self) -> (res: String)
        ensures
            joined(res@, self.base_dir@, ".env"@),
    {
        join_name(self.base_dir.as_str(), ".env")
    }

    /// Where a portable release expects to find `portable.txt`.
    pub fn portable_marker_path(&self) -> (res: String)
        ensures
            joined(res@, self.base_dir@, PORTABLE_MARKER@),
    {
        join_name(self.base_dir.as_str(), PORTABLE_MARKER)
    }
}

// ---------------------------------------------------------------------------
// The import state
// ---------------------------------------------------------------------------

/// Persisted import progress. Every field is a resume optimisation; `issues`
/// keeps the exact shape the CLI writes.
pub struct ImportState {
    /// Task id → issue number.
    pub issues: StrMap<u64>,
    /// Task id → issue database id.
    pub issue_ids: StrMap<u64>,
    /// Task id → issue GraphQL node id.
    pub node_ids: StrMap<String>,
    /// Task id → the project item id the board returned.
    pub project_items: StrMap<String>,
}

impl Default for ImportState {
    fn default() -> (res: Self)
        ensures
            res.issues@ == Map::<Seq<char>, u64>::empty(),
            res.issue_ids@ == Map::<Seq<char>, u64>::empty(),
            res.node_ids@ == Map::<Seq<char>, String>::empty(),
            res.project_items@ == Map::<Seq<char>, String>::empty(),
    {
        ImportState { issues: StrMap::new(), issue_ids: StrMap::new(), node_ids: StrMap::new(), project_items: StrMap::new() }
    }
}

/// The four maps of a state, as plain values.
pub open spec fn state_view(s: ImportState) -> (Map<Seq<char>, u64>, Map<Seq<char>, u64>, Map<Seq<char>, String>, Map<Seq<char>, String>) {
    (s.issues@, s.issue_ids@, s.node_ids@, s.project_items@)
}

/// Object members read as id → `u64`; `None` when a value is anything else.
/// Later members win.
pub open spec fn number_entries(members: Seq<(String, JsonValue)>) -> Option<Map<Seq<char>, u64>>
    decreases members.len(),
{
    if members.len() == 0 {
        Some(Map::empty())
    } else {
        match number_entries(members.drop_last()) {
            Some(m) => match members.last().1 {
                JsonValue::Number(n) => match n.as_u64 {
                    Some(x) => Some(m.insert(members.last().0@, x)),
                    None => None,
                },
                _ => None,
            },
            None => None,
        }
    }
}

/// Object members read as id → string; `None` when a value is anything else.
pub open spec fn text_entries(members: Seq<(String, JsonValue)>) -> Option<Map<Seq<char>, String>>
    decreases members.len(),
{
    if members.len() == 0 {
        Some(Map::empty())
    } else {
        match text_entries(members.drop_last()) {
            Some(m) => match members.last().1 {
                JsonValue::Str(s) => Some(m.insert(members.last().0@, s)),
                _ => None,
            },
            None => None,
        }
    }
}

/// A state field holding id → number: absent reads as empty, an object is
/// read member by member, anything else is an error.
pub open spec fn number_map(v: Option<JsonValue>) -> Option<Map<Seq<char>, u64>> {
    match v {
        None => Some(Map::empty()),
        Some(JsonValue::Object(o)) => number_entries(o@),
        Some(_) => None,
    }
}

/// A state field holding id → string.
pub open spec fn text_map(v: Option<JsonValue>) -> Option<Map<Seq<char>, String>> {
    match v {
        None => Some(Map::empty()),
        Some(JsonValue::Object(o)) => text_entries(o@),
        Some(_) => None,
    }
}

/// A field of a state payload: by name in an object, by position in an
/// array (serde reads a struct from either).
pub open spec fn state_part(v: JsonValue, key: Seq<char>, pos: int) -> Option<JsonValue> {
    match v {
        JsonValue::Object(o) => member(o@, key),
        JsonValue::Array(a) => if pos < a@.len() { Some(a@[pos]) } else { None },
        _ => None,
    }
}

/// The four maps a state payload holds, or `None` when it does not read as
/// a state at all.
pub open spec fn state_maps(v: JsonValue) -> Option<(Map<Seq<char>, u64>, Map<Seq<char>, u64>, Map<Seq<char>, String>, Map<Seq<char>, String>)> {
    let shape_ok = v is Object || (v is Array && v->Array_0@.len() <= 4);
    if !shape_ok {
        None
    } else {
        match (
            number_map(state_part(v, "issues"@, 0)),
            number_map(state_part(v, "issue_ids"@, 1)),
            text_map(state_part(v, "node_ids"@, 2)),
            text_map(state_part(v, "project_items"@, 3)),
        ) {
            (Some(a), Some(b), Some(c), Some(d)) => Some((a, b, c, d)),
            _ => None,
        }
    }
}

proof fn lemma_number_entries_none(s: Seq<(String, JsonValue)>, i: int)
    requires
        0 <= i <= s.len(),
        number_entries(s.subrange(0, i)) is None,
    ensures
        number_entries(s) is None,
    decreases s.len() - i,
{
    if i < s.len() {
        assert(s.subrange(0, i + 1).drop_last() =~= s.subrange(0, i));
        lemma_number_entries_none(s, i + 1);
    } else {
        assert(s.subrange(0, i) =~= s);
    }
}

proof fn lemma_text_entries_none(s: Seq<(String, JsonValue)>, i: int)
    requires
        0 <= i <= s.len(),
        text_entries(s.subrange(0, i)) is None,
    ensures
        text_entries(s) is None,
    decreases s.len() - i,
{
    if i < s.len() {
        assert(s.subrange(0, i + 1).drop_last() =~= s.subrange(0, i));
        lemma_text_entries_none(s, i + 1);
    } else {
        assert(s.subrange(0, i) =~= s);
    }
}

/// Reads an id → number field.
fn read_numbers(v: Option<&JsonValue>) -> (res: Option<StrMap<u64>>)
    ensures
        match number_map(match v { Some(x) => Some(*x), None => None }) {
            Some(m) => res is Some && res->0@ == m,
            None => res is None,
        },
{
    match v {
        None => Some(StrMap::new()),
        Some(JsonValue::Object(o)) => {
            let mut out: StrMap<u64> = StrMap::new();
            let mut i: usize = 0;
            while i < o.len()
                invariant
                    i <= o@.len(),
                    number_entries(o@.subrange(0, i as int)) == Some(out@),
                    number_map(match v { Some(x) => Some(*x), None => None }) == number_entries(o@),
                decreases o.len() - i,
            {
                let ghost s = o@.subrange(0, i + 1);
                assert(s.drop_last() =~= o@.subrange(0, i as int));
                assert(s.last() == o@[i as int]);
                match o[i].1.as_u64() {
                    Some(n) => out.insert(o[i].0.clone(), n),
                    None => {
                        proof {
                            assert(as_u64_spec(Some(o@[i as int].1)) is None);
                            assert(number_entries(s) is None);
                            lemma_number_entries_none(o@, i + 1);
                        }
                        return None;
                    },
                }
                i = i + 1;
            }
            assert(o@.subrange(0, o@.len() as int) =~= o@);
            Some(out)
        },
        Some(_) => None,
    }
}

/// Reads an id → string field.
fn read_texts(v: Option<&JsonValue>) -> (res: Option<StrMap<String>>)
    ensures
        match text_map(match v { Some(x) => Some(*x), None => None }) {
            Some(m) => res is Some && res->0@ == m,
            None => res is None,
        },
{
    match v {
        None => Some(StrMap::new()),
        Some(JsonValue::Object(o)) => {
            let mut out: StrMap<String> = StrMap::new();
            let mut i: usize = 0;
            while i < o.len()
                invariant
                    i <= o@.len(),
                    text_entries(o@.subrange(0, i as int)) == Some(out@),
                    text_map(match v { Some(x) => Some(*x), None => None }) == text_entries(o@),
                decreases o.len() - i,
            {
                let ghost s = o@.subrange(0, i + 1);
                assert(s.drop_last() =~= o@.subrange(0, i as int));
                assert(s.last() == o@[i as int]);
                match &o[i].1 {
                    JsonValue::Str(t) => out.insert(o[i].0.clone(), t.clone()),
                    _ => {
                        proof { lemma_text_entries_none(o@, i + 1); }
                        return None;
                    },
                }
                i = i + 1;
            }
            assert(o@.subrange(0, o@.len() as int) =~= o@);
            Some(out)
        },
        Some(_) => None,
    }
}

/// The field of a state payload at `key` or position `pos`.
fn part_of<'a>(v: &'a JsonValue, key: &str, pos: usize) -> (res: Option<&'a JsonValue>)
    ensures
        match res {
            Some(r) => state_part(*v, key@, pos as int) == Some(*r),
            None => state_part(*v, key@, pos as int) is None,
        },
{
    match v {
        JsonValue::Object(_) => v.get(key),
        JsonValue::Array(a) => if pos < a.len() { Some(&a[pos]) } else { None },
        _ => None,
    }
}

/// The members rendering an id → number map, ids ascending.
fn numbers_json(m: &StrMap<u64>) -> (res: JsonValue)
    ensures
        res is Object,
        number_entries(res->Object_0@) == Some(m@),
        strictly_sorted(res->Object_0@),
{
    let entries = m.entries();
    let mut members: Vec<(String, JsonValue)> = Vec::new();
    let mut i: usize = 0;
    while i < entries.len()
        invariant
            i <= entries@.len(),
            strictly_sorted(entries@),
            members@.len() == i,
            forall|k: int| 0 <= k < i ==> (#[trigger] members@[k]).0@ == entries@[k].0@,
            ({
                let r = number_entries(members@);
                &&& r is Some
                &&& forall|key: Seq<char>| r->0.contains_key(key) <==> exists|j: int| 0 <= j < i && #[trigger] entries@[j].0@ == key
                &&& forall|j: int| 0 <= j < i ==> r->0[#[trigger] entries@[j].0@] == entries@[j].1
            }),
        decreases entries.len() - i,
    {
        let ghost before = members@;
        let v = number_value(entries[i].1);
        members.push((entries[i].0.clone(), v));
        proof {
            assert(members@.drop_last() =~= before);
            let r = number_entries(members@);
            assert forall|j: int| 0 <= j < i implies r->0[#[trigger] entries@[j].0@] == entries@[j].1 by {
                assert(lex_lt(entries@[j].0@, entries@[i as int].0@));
            }
            assert forall|key: Seq<char>| r->0.contains_key(key) implies exists|j: int| 0 <= j < i + 1 && #[trigger] entries@[j].0@ == key by {
                if key == entries@[i as int].0@ {
                    assert(entries@[i as int].0@ == key);
                }
            }
        }
        i = i + 1;
    }
    proof {
        let r = number_entries(members@)->0;
        assert forall|key: Seq<char>| r.contains_key(key) <==> m@.contains_key(key) by {
            if m@.contains_key(key) {
                let j = choose|j: int| 0 <= j < entries@.len() && entries@[j].0@ == key;
                assert(entries@[j].0@ == key);
            }
        }
        assert forall|key: Seq<char>| r.contains_key(key) implies r[key] == m@[key] by {
            let j = choose|j: int| 0 <= j < i && #[trigger] entries@[j].0@ == key;
            assert(m@.contains_key(entries@[j].0@));
        }
        assert(r =~= m@);
        assert forall|a: int, b: int| 0 <= a < b < members@.len() implies lex_lt(#[trigger] members@[a].0@, #[trigger] members@[b].0@) by {
            assert(members@[a].0@ == entries@[a].0@);
            assert(members@[b].0@ == entries@[b].0@);
        }
    }
    JsonValue::Object(members)
}

/// The members rendering an id → string map, ids ascending.
fn texts_json(m: &StrMap<String>) -> (res: JsonValue)
    ensures
        res is Object,
        text_entries(res->Object_0@) == Some(m@),
        strictly_sorted(res->Object_0@),
{
    let entries = m.entries();
    let mut members: Vec<(String, JsonValue)> = Vec::new();
    let mut i: usize = 0;
    while i < entries.len()
        invariant
            i <= entries@.len(),
            strictly_sorted(entries@),
            members@.len() == i,
            forall|k: int| 0 <= k < i ==> (#[trigger] members@[k]).0@ == entries@[k].0@,
            ({
                let r = text_entries(members@);
                &&& r is Some
                &&& forall|key: Seq<char>| r->0.contains_key(key) <==> exists|j: int| 0 <= j < i && #[trigger] entries@[j].0@ == key
                &&& forall|j: int| 0 <= j < i ==> r->0[#[trigger] entries@[j].0@] == entries@[j].1
            }),
        decreases entries.len() - i,
    {
        let ghost before = members@;
        let v = JsonValue::Str(entries[i].1.clone());
        members.push((entries[i].0.clone(), v));
        proof {
            assert(members@.drop_last() =~= before);
            let r = text_entries(members@);
            assert forall|j: int| 0 <= j < i implies r->0[#[trigger] entries@[j].0@] == entries@[j].1 by {
                assert(lex_lt(entries@[j].0@, entries@[i as int].0@));
            }
            assert forall|key: Seq<char>| r->0.contains_key(key) implies exists|j: int| 0 <= j < i + 1 && #[trigger] entries@[j].0@ == key by {
                if key == entries@[i as int].0@ {
                    assert(entries@[i as int].0@ == key);
                }
            }
        }
        i = i + 1;
    }
    proof {
        let r = text_entries(members@)->0;
        assert forall|key: Seq<char>| r.contains_key(key) <==> m@.contains_key(key) by {
            if m@.contains_key(key) {
                let j = choose|j: int| 0 <= j < entries@.len() && entries@[j].0@ == key;
                assert(entries@[j].0@ == key);
            }
        }
        assert forall|key: Seq<char>| r.contains_key(key) implies r[key] == m@[key] by {
            let j = choose|j: int| 0 <= j < i && #[trigger] entries@[j].0@ == key;
            assert(m@.contains_key(entries@[j].0@));
        }
        assert(r =~= m@);
        assert forall|a: int, b: int| 0 <= a < b < members@.len() implies lex_lt(#[trigger] members@[a].0@, #[trigger] members@[b].0@) by {
            assert(members@[a].0@ == entries@[a].0@);
            assert(members@[b].0@ == entries@[b].0@);
        }
    }
    JsonValue::Object(members)
}

impl ImportState {
    /// Reads a state payload; anything that does not read as a state gives
    /// the empty state.
    pub fn from_json(v: &JsonValue) -> (res: ImportState)
        ensures
            match state_maps(*v) {
                Some(maps) => state_view(res) == maps,
                None => state_view(res) == (Map::<Seq<char>, u64>::empty(), Map::<Seq<char>, u64>::empty(),
                    Map::<Seq<char>, String>::empty(), Map::<Seq<char>, String>::empty()),
            },
    {
        let shape_ok = match v {
            JsonValue::Object(_) => true,
            JsonValue::Array(a) => a.len() <= 4,
            _ => false,
        };
        if !shape_ok {
            return ImportState::default();
        }
        let a = read_numbers(part_of(v, "issues", 0));
        let b = read_numbers(part_of(v, "issue_ids", 1));
        let c = read_texts(part_of(v, "node_ids", 2));
        let d = read_texts(part_of(v, "project_items", 3));
        match (a, b, c, d) {
            (Some(issues), Some(issue_ids), Some(node_ids), Some(project_items)) =>
                ImportState { issues, issue_ids, node_ids, project_items },
            _ => ImportState::default(),
        }
    }

    /// The payload written to `.import-state.json`: `version` 2 and the four
    /// maps. Keys ascend at every level, as serde_json writes a map.
    pub fn to_json(&self) -> (res: JsonValue)
        ensures
            res is Object,
            field(res, "version"@) matches Some(JsonValue::Number(n)) && n.as_u64 == Some(2u64),
            state_maps(res) == Some(state_view(*self)),
            strictly_sorted(res->Object_0@),
            forall|i: int| 0 <= i < res->Object_0@.len() ==> ((#[trigger] res->Object_0@[i]).1 matches JsonValue::Object(m)
                ==> strictly_sorted(m@)),
    {
        let members = vec![
            (owned("issue_ids"), numbers_json(&self.issue_ids)),
            (owned("issues"), numbers_json(&self.issues)),
            (owned("node_ids"), texts_json(&self.node_ids)),
            (owned("project_items"), texts_json(&self.project_items)),
            (owned("version"), number_value(2)),
        ];
        proof {
            let o = members@;
            reveal_strlit("version");
            reveal_strlit("issues");
            reveal_strlit("issue_ids");
            reveal_strlit("node_ids");
            reveal_strlit("project_items");
            let t1 = o.drop_first();
            let t2 = t1.drop_first();
            let t3 = t2.drop_first();
            let t4 = t3.drop_first();
            assert(t1[0] == o[1] && t2[0] == o[2] && t3[0] == o[3] && t4[0] == o[4]);
            assert(o[0].0@ == "issue_ids"@ && o[1].0@ == "issues"@ && o[2].0@ == "node_ids"@
                && o[3].0@ == "project_items"@ && o[4].0@ == "version"@);
            assert(member(o, "issue_ids"@) == Some(o[0].1));
            assert(member(t1, "issues"@) == Some(o[1].1));
            assert(member(o, "issues"@) == Some(o[1].1));
            assert(member(t2, "node_ids"@) == Some(o[2].1));
            assert(member(t1, "node_ids"@) == Some(o[2].1));
            assert(member(o, "node_ids"@) == Some(o[2].1));
            assert(member(t3, "project_items"@) == Some(o[3].1));
            assert(member(t2, "project_items"@) == Some(o[3].1));
            assert(member(t1, "project_items"@) == Some(o[3].1));
            assert(member(o, "project_items"@) == Some(o[3].1));
            assert(member(t4, "version"@) == Some(o[4].1));
            assert(member(t3, "version"@) == Some(o[4].1));
            assert(member(t2, "version"@) == Some(o[4].1));
            assert(member(t1, "version"@) == Some(o[4].1));
            assert(member(o, "version"@) == Some(o[4].1));
            assert(lex_lt(o[0].0@, o[1].0@)) by {
                reveal_with_fuel(lex_le, 7);
            }
            assert(lex_lt(o[1].0@, o[2].0@) && lex_lt(o[0].0@, o[2].0@) && lex_lt(o[2].0@, o[3].0@)
                && lex_lt(o[1].0@, o[3].0@) && lex_lt(o[0].0@, o[3].0@) && lex_lt(o[3].0@, o[4].0@)
                && lex_lt(o[2].0@, o[4].0@) && lex_lt(o[1].0@, o[4].0@) && lex_lt(o[0].0@, o[4].0@)) by {
                reveal_with_fuel(lex_le, 2);
            }
        }
        JsonValue::Object(members)
    }

    /// Merges an id → number map into `issues`, as the discovery of existing
    /// issues returns it; the other maps are untouched.
    pub fn seed_issues(&mut self, found: &StrMap<u64>)
        ensures
            final(self).issues@ == old(self).issues@.union_prefer_right(found@),
            final(self).issue_ids@ == old(self).issue_ids@,
            final(self).node_ids@ == old(self).node_ids@,
            final(self).project_items@ == old(self).project_items@,
    {
        let ghost start = self.issues@;
        let entries = found.entries();
        let mut i: usize = 0;
        while i < entries.len()
            invariant
                i <= entries@.len(),
                strictly_sorted(entries@),
                forall|key: Seq<char>| #[trigger] self.issues@.contains_key(key) <==> (start.contains_key(key)
                    || exists|j: int| 0 <= j < i && #[trigger] entries@[j].0@ == key),
                forall|j: int| 0 <= j < i ==> self.issues@[#[trigger] entries@[j].0@] == entries@[j].1,
                forall|key: Seq<char>| start.contains_key(key) && !(exists|j: int| 0 <= j < i && #[trigger] entries@[j].0@ == key)
                    ==> #[trigger] self.issues@[key] == start[key],
                self.issue_ids@ == old(self).issue_ids@,
                self.node_ids@ == old(self).node_ids@,
                self.project_items@ == old(self).project_items@,
            decreases entries.len() - i,
        {
            let ghost before = self.issues@;
            self.issues.insert(entries[i].0.clone(), entries[i].1);
            proof {
                assert forall|j: int| 0 <= j < i implies self.issues@[#[trigger] entries@[j].0@] == entries@[j].1 by {
                    assert(lex_lt(entries@[j].0@, entries@[i as int].0@));
                }
                assert forall|key: Seq<char>| #[trigger] self.issues@.contains_key(key) implies (start.contains_key(key)
                    || exists|j: int| 0 <= j < i + 1 && #[trigger] entries@[j].0@ == key) by {
                    if key == entries@[i as int].0@ {
                        assert(entries@[i as int].0@ == key);
                    }
                }
                assert forall|key: Seq<char>| start.contains_key(key) && !(exists|j: int| 0 <= j < i + 1 && #[trigger] entries@[j].0@ == key)
                    implies #[trigger] self.issues@[key] == start[key] by {
                    assert(key != entries@[i as int].0@);
                }
            }
            i = i + 1;
        }
        proof {
            let target = start.union_prefer_right(found@);
            assert forall|key: Seq<char>| #[trigger] self.issues@.contains_key(key) <==> target.contains_key(key) by {
                if found@.contains_key(key) {
                    let j = choose|j: int| 0 <= j < entries@.len() && entries@[j].0@ == key;
                    assert(entries@[j].0@ == key);
                }
            }
            assert forall|key: Seq<char>| #[trigger] self.issues@.contains_key(key) implies self.issues@[key] == target[key] by {
                if found@.contains_key(key) {
                    let j = choose|j: int| 0 <= j < entries@.len() && entries@[j].0@ == key;
                    assert(entries@[j].0@ == key);
                } else {
                    if exists|j: int| 0 <= j < i && #[trigger] entries@[j].0@ == key {
                        let j = choose|j: int| 0 <= j < i && #[trigger] entries@[j].0@ == key;
                        assert(found@.contains_key(entries@[j].0@));
                    }
                }
            }
            assert(self.issues@ =~= target);
        }
    }
}

/// Seeding twice with the same map changes nothing the first seeding did
/// not: the merge is idempotent, and every seeded id maps to its number.
pub proof fn lemma_seed_idempotent(issues: Map<Seq<char>, u64>, found: Map<Seq<char>, u64>)
    ensures
        issues.union_prefer_right(found).union_prefer_right(found) == issues.union_prefer_right(found),
        forall|k: Seq<char>| #[trigger] found.contains_key(k) ==> issues.union_prefer_right(found)[k] == found[k],
        forall|k: Seq<char>| #[trigger] issues.contains_key(k) && !found.contains_key(k)
            ==> issues.union_prefer_right(found)[k] == issues[k],
{
    assert(issues.union_prefer_right(found).union_prefer_right(found) =~= issues.union_prefer_right(found));
}

/// A state written by [`ImportState::to_json`] reads back as the same four
/// maps.
pub proof fn lemma_state_round_trip(s: ImportState, written: JsonValue, back: ImportState)
    requires
        state_maps(written) == Some(state_view(s)),
        match state_maps(written) {
            Some(maps) => state_view(back) == maps,
            None => false,
        },
    ensures
        state_view(back) == state_view(s),
{
}

} // verus!
