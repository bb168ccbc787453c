//! The decisions of the GitHub REST client: which failures are retried and
//! for how long, how pagination proceeds, and how errors and payloads are
//! read. The HTTP transport itself runs outside the library.

use vstd::prelude::*;
use crate::json::{JsonValue, field, json_text, push_json_text, to_json_text, as_u64_spec, as_str_spec, member};
use crate::text::{
    views, decimal, push_str, push_decimal, str_chars, owned, string_from_range, trim, trim_bounds,
    has_infix, has_prefix, lowercase, to_lowercase, str_contains, split_on, first_pos, split_chars,
    find_char, chars_range, strip_leading, strip_trailing, strip_prefix_all, strip_leading_bound,
    strip_trailing_bound, strip_prefix_bound, chars_eq, matches_at, trim_str, join,
};

verus! {

broadcast use vstd::seq_lib::group_seq_properties;

/// The default API base.
pub const DEFAULT_BASE_URL: &'static str = "https://api.github.com";

/// How many times one request is retried before giving up.
pub const MAX_RETRIES: u32 = 5;

/// Cap on one backoff sleep, in milliseconds.
pub const MAX_BACKOFF_MS: u64 = 60000;

/// How many pages a paginated GET follows at most.
pub const MAX_PAGES: usize = 200;

/// A failed GitHub call.
#[derive(Debug)]
pub enum GithubError {
    /// The transport failed; the message is the transport's own.
    Http(String),
    /// GitHub answered with an error status.
    Api { status: u16, message: String, rate_limited: bool },
    /// No token to send.
    Unauthenticated,
    Other(String),
}

/// The text a [`GithubError`] displays.
pub open spec fn error_text(e: GithubError) -> Seq<char> {
    match e {
        GithubError::Http(m) => m@,
        GithubError::Api { status, message, .. } => "GitHub returned "@ + decimal(status as nat) + ": "@ + message@,
        GithubError::Unauthenticated => "not authenticated"@,
        GithubError::Other(m) => m@,
    }
}

/// Does the message say a relationship or label already exists? The same
/// test as the command-line importer's `BENIGN` pattern.
pub open spec fn benign_text(message: Seq<char>) -> bool {
    has_infix(lowercase(message), "already been taken"@) || has_infix(lowercase(message), "already exists"@)
}

/// True for a relationship link GitHub reports as already present.
pub fn is_benign_already_set(message: &str) -> (res: bool)
    ensures
        res == benign_text(message@),
{
    let lower = to_lowercase(message);
    str_contains(lower.as_str(), "already been taken") || str_contains(lower.as_str(), "already exists")
}

impl GithubError {
    /// The error's text, as it is displayed.
    pub fn message(&self) -> (res: String)
        ensures
            res@ == error_text(*self),
    {
        match self {
            GithubError::Http(m) => m.clone(),
            GithubError::Api { status, message, .. } => {
                let mut out = owned("GitHub returned ");
                push_decimal(&mut out, *status as u64);
                push_str(&mut out, ": ");
                push_str(&mut out, message.as_str());
                out
            },
            GithubError::Unauthenticated => owned("not authenticated"),
            GithubError::Other(m) => m.clone(),
        }
    }

    /// A 422: GitHub's "validation failed", which covers "already exists".
    pub fn is_validation_failed(&self) -> (res: bool)
        ensures
            res == (*self matches GithubError::Api { status, .. } && status == 422),
    {
        match self {
            GithubError::Api { status, .. } => *status == 422,
            _ => false,
        }
    }

    /// A 404.
    pub fn is_not_found(&self) -> (res: bool)
        ensures
            res == (*self matches GithubError::Api { status, .. } && status == 404),
    {
        match self {
            GithubError::Api { status, .. } => *status == 404,
            _ => false,
        }
    }

    /// A 403.
    pub fn is_forbidden(&self) -> (res: bool)
        ensures
            res == (*self matches GithubError::Api { status, .. } && status == 403),
    {
        match self {
            GithubError::Api { status, .. } => *status == 403,
            _ => false,
        }
    }

    /// The error GitHub returns when a relationship link already exists.
    pub fn is_already_set(&self) -> (res: bool)
        ensures
            res == benign_text(error_text(*self)),
    {
        let m = self.message();
        is_benign_already_set(m.as_str())
    }

    /// A 422 that means the label is already there, and nothing else: its
    /// message names the `already_exists` code, or reads as benign.
    pub fn is_duplicate_label(&self) -> (res: bool)
        ensures
            res == match *self {
                GithubError::Api { status, message, .. } => status == 422
                    && (has_infix(lowercase(message@), "already_exists"@) || benign_text(message@)),
                _ => false,
            },
    {
        match self {
            GithubError::Api { status, message, .. } => {
                if *status != 422 {
                    return false;
                }
                let lower = to_lowercase(message.as_str());
                str_contains(lower.as_str(), "already_exists") || is_benign_already_set(message.as_str())
            },
            _ => false,
        }
    }
}

/// A repository named `owner/name`.
#[derive(Debug, Clone, PartialEq, Eq)]
pub struct RepoRef {
    pub owner: String,
    pub name: String,
}

/// The message for a malformed `repo` value.
pub open spec fn bad_repo_text(s: Seq<char>) -> Seq<char> {
    "repo must be 'owner/name', got '"@ + s + "'"@
}

impl RepoRef {
    /// Parses `owner/name`, cutting at the first `/`; both halves must be
    /// non-empty.
    pub fn parse(s: &str) -> (res: Result<RepoRef, GithubError>)
        ensures
            match res {
                Ok(r) => {
                    &&& s@.contains('/')
                    &&& r.owner@ == s@.subrange(0, first_pos(s@, '/'))
                    &&& r.name@ == s@.subrange(first_pos(s@, '/') + 1, s@.len() as int)
                    &&& r.owner@.len() > 0
                    &&& r.name@.len() > 0
                },
                Err(e) => {
                    &&& e == GithubError::Other(e->Other_0)
                    &&& e->Other_0@ == bad_repo_text(s@)
                    &&& (!s@.contains('/') || first_pos(s@, '/') == 0 || first_pos(s@, '/') + 1 == s@.len())
                },
            },
    {
        let cs = str_chars(s);
        let bad = {
            let mut m = owned("repo must be 'owner/name', got '");
            push_str(&mut m, s);
            push_str(&mut m, "'");
            m
        };
        match find_char(cs.as_slice(), '/') {
            None => Err(GithubError::Other(bad)),
            Some(i) => {
                proof {
                    let f = first_pos(s@, '/');
                    assert(s@.contains('/')) by { assert(s@[i as int] == '/'); }
                    if f < i as int { assert(s@[f] == '/'); }
                    if f > i as int { assert(s@[i as int] == '/'); }
                    assert(f == i as int);
                }
                assert(i < cs.len());
                if i == 0 || i + 1 == cs.len() {
                    Err(GithubError::Other(bad))
                } else {
                    let owner = string_from_range(cs.as_slice(), 0, i);
                    let name = string_from_range(cs.as_slice(), i + 1, cs.len());
                    Ok(RepoRef { owner, name })
                }
            },
        }
    }
}

/// An issue as the REST API returns it: the fields the importer reads.
#[derive(Debug)]
pub struct Issue {
    pub number: u64,
    /// The database id, which the relationship endpoints take.
    pub id: u64,
    /// The GraphQL global id, which `addProjectV2ItemById` takes.
    pub node_id: Option<String>,
    pub title: String,
    pub body: Option<String>,
    /// Present only on pull requests.
    pub pull_request: Option<JsonValue>,
}

impl Issue {
    /// Is this a pull request? GitHub's `/issues` endpoint returns those too.
    pub fn is_pull_request(&self) -> (res: bool)
        ensures
            res == self.pull_request is Some,
    {
        self.pull_request.is_some()
    }
}

/// A label as the REST API returns it.
#[derive(Debug, Clone)]
pub struct Label {
    pub name: String,
}

/// A created or fetched issue's number and its two ids.
#[derive(Debug, Clone)]
pub struct CreatedIssue {
    pub number: u64,
    pub id: u64,
    pub node_id: String,
}

/// The issues that are not pull requests, in order.
pub open spec fn real_issues(issues: Seq<Issue>) -> Seq<Issue>
    decreases issues.len(),
{
    if issues.len() == 0 {
        Seq::empty()
    } else {
        let rest = real_issues(issues.drop_last());
        if issues.last().pull_request is Some { rest } else { rest.push(issues.last()) }
    }
}

/// Drops the pull requests from a listing, as `gh issue list` does.
pub fn without_pull_requests(issues: Vec<Issue>) -> (res: Vec<Issue>)
    ensures
        res@ == real_issues(issues@),
{
    let ghost all = issues@;
    let n = issues.len();
    assert(all.len() == n);
    let mut rest = issues;
    let mut out: Vec<Issue> = Vec::new();
    let mut k: usize = 0;
    while rest.len() > 0
        invariant
            k + rest@.len() == all.len(),
            all.len() <= usize::MAX,
            rest@ == all.subrange(k as int, all.len() as int),
            out@ == real_issues(all.subrange(0, k as int)),
        decreases rest.len(),
    {
        let it = rest.remove(0);
        proof {
            assert(it == all[k as int]);
            assert(all.subrange(0, k + 1).drop_last() =~= all.subrange(0, k as int));
            assert(rest@ =~= all.subrange(k + 1, all.len() as int));
        }
        if it.pull_request.is_none() {
            out.push(it);
        }
        k = k + 1;
    }
    assert(all.subrange(0, all.len() as int) =~= all);
    out
}

// ---------------------------------------------------------------------------
// Pagination
// ---------------------------------------------------------------------------

/// Do the `;`-separated parameters of a `Link` entry say `rel="next"`?
pub open spec fn rel_is_next(params: Seq<char>) -> bool {
    exists|k: int| 0 <= k < split_on(params, ';').len()
        && strip_trailing(strip_leading(strip_prefix_all(trim(#[trigger] split_on(params, ';')[k]), "rel="@), '"'), '"') == "next"@
}

/// The URL of a `Link` entry: trimmed, without its angle brackets.
pub open spec fn link_url(url_part: Seq<char>) -> Seq<char> {
    strip_trailing(strip_leading(trim(url_part), '<'), '>')
}

/// The `rel="next"` URL among the comma-separated entries, reading in order.
/// An entry without `;` ends the search with nothing.
pub open spec fn next_in(parts: Seq<Seq<char>>) -> Option<Seq<char>>
    decreases parts.len(),
{
    if parts.len() == 0 {
        None
    } else {
        let part = trim(parts[0]);
        if !part.contains(';') {
            None
        } else {
            let i = first_pos(part, ';');
            let url = link_url(part.subrange(0, i));
            if rel_is_next(part.subrange(i + 1, part.len() as int)) && url.len() > 0 {
                Some(url)
            } else {
                next_in(parts.drop_first())
            }
        }
    }
}

/// The next page's URL a `Link` header names.
pub open spec fn next_link_spec(header: Option<Seq<char>>) -> Option<Seq<char>> {
    match header {
        None => None,
        Some(h) => next_in(split_on(h, ',')),
    }
}

/// Does one parameter read `rel="next"`?
fn param_is_next(p: &[char]) -> (res: bool)
    ensures
        res == (strip_trailing(strip_leading(strip_prefix_all(trim(p@), "rel="@), '"'), '"') == "next"@),
{
    let (a, b) = trim_bounds(p);
    let rel = str_chars("rel=");
    let c = strip_prefix_bound(p, a, b, rel.as_slice());
    proof {
        assert(p@.subrange(a as int, b as int).subrange(0, (b - a) as int) =~= p@.subrange(a as int, b as int));
    }
    let d = strip_leading_bound(p, c, b, '"');
    let e = strip_trailing_bound(p, d, b, '"');
    let word = chars_range(p, d, e);
    let next = str_chars("next");
    chars_eq(word.as_slice(), next.as_slice())
}

/// Does any `;`-separated parameter read `rel="next"`?
fn params_say_next(params: &[char]) -> (res: bool)
    ensures
        res == rel_is_next(params@),
{
    let ps = split_chars(params, ';');
    let ghost parts = split_on(params@, ';');
    assert(ps@.len() == parts.len());
    let mut k: usize = 0;
    while k < ps.len()
        invariant
            k <= ps@.len(),
            ps@.len() == parts.len(),
            ps@.map_values(|v: Vec<char>| v@) == parts,
            parts == split_on(params@, ';'),
            forall|j: int| 0 <= j < k ==> strip_trailing(strip_leading(strip_prefix_all(trim(#[trigger] parts[j]), "rel="@), '"'), '"') != "next"@,
        decreases ps.len() - k,
    {
        assert(ps@[k as int]@ == parts[k as int]);
        if param_is_next(ps[k].as_slice()) {
            return true;
        }
        k = k + 1;
    }
    false
}

/// Parses the `Link` header for the `rel="next"` URL.
#[verifier::rlimit(50)]
pub fn next_link(header: Option<&str>) -> (res: Option<String>)
    ensures
        match res {
            Some(u) => next_link_spec(match header { Some(h) => Some(h@), None => None }) == Some(u@),
            None => next_link_spec(match header { Some(h) => Some(h@), None => None }) is None,
        },
{
    let h = match header {
        None => return None,
        Some(h) => h,
    };
    let cs = str_chars(h);
    let parts = split_chars(cs.as_slice(), ',');
    let ghost ps = split_on(h@, ',');
    assert(parts@.len() == ps.len());
    let mut k: usize = 0;
    assert(ps.subrange(0, ps.len() as int) =~= ps);
    while k < parts.len()
        invariant
            k <= parts@.len(),
            parts@.len() == ps.len(),
            parts@.map_values(|v: Vec<char>| v@) == ps,
            ps == split_on(h@, ','),
            header == Some(h),
            next_in(ps) == next_in(ps.subrange(k as int, ps.len() as int)),
        decreases parts.len() - k,
    {
        let ghost rest = ps.subrange(k as int, ps.len() as int);
        assert(rest[0] == parts@[k as int]@);
        assert(rest.drop_first() =~= ps.subrange(k + 1, ps.len() as int));
        let e = link_entry(parts[k].as_slice());
        proof {
            assert(parts[k as int]@ == rest[0]);
            assert(rest.len() > 0);
            assert(ps == split_on(h@, ','));
        }
        match e {
            LinkEntry::Stop => {
                assert(next_in(rest) is None);
                return None;
            },
            LinkEntry::Next(u) => {
                assert(next_in(rest) == Some(u@));
                return Some(u);
            },
            LinkEntry::Other => {
                assert(next_in(rest) == next_in(rest.drop_first()));
            },
        }
        k = k + 1;
    }
    assert(ps.subrange(ps.len() as int, ps.len() as int) =~= Seq::<Seq<char>>::empty());
    None
}

/// A request needs a token: with none the client refuses before it calls.
pub fn require_token(token: &str) -> (res: Result<(), GithubError>)
    ensures
        res is Ok <==> token@.len() > 0,
        res matches Err(e) ==> e is Unauthenticated,
{
    if token.unicode_len() == 0 { Err(GithubError::Unauthenticated) } else { Ok(()) }
}

/// What the paginated reader does once it has read `pages_read` pages and
/// found the link `next`: it stops when there is no next page, follows the
/// link while fewer than `MAX_PAGES` pages were read, and otherwise gives up,
/// so a bad `Link` header cannot loop forever.
pub fn after_page(pages_read: usize, next: Option<String>) -> (res: Result<Option<String>, GithubError>)
    ensures
        next is None ==> res == Ok::<Option<String>, GithubError>(None),
        next is Some && pages_read < MAX_PAGES ==> res == Ok::<Option<String>, GithubError>(next),
        next is Some && pages_read >= MAX_PAGES ==> (res matches Err(e) && e is Other
            && e->Other_0@ == "pagination exceeded "@ + decimal(MAX_PAGES as nat) + " pages"@),
{
    match next {
        None => Ok(None),
        Some(n) => {
            if pages_read < MAX_PAGES {
                Ok(Some(n))
            } else {
                let mut text = owned("pagination exceeded ");
                push_decimal(&mut text, MAX_PAGES as u64);
                push_str(&mut text, " pages");
                Err(GithubError::Other(text))
            }
        },
    }
}

/// What one comma-separated `Link` entry contributes.
enum LinkEntry {
    /// No `;`: the search ends with nothing.
    Stop,
    /// The `rel="next"` URL.
    Next(String),
    /// Some other relation, or an empty URL.
    Other,
}

/// Reads one `Link` entry.
fn link_entry(raw: &[char]) -> (res: LinkEntry)
    ensures
        ({
            let part = trim(raw@);
            match res {
                LinkEntry::Stop => !part.contains(';'),
                LinkEntry::Next(u) => part.contains(';')
                    && rel_is_next(part.subrange(first_pos(part, ';') + 1, part.len() as int))
                    && link_url(part.subrange(0, first_pos(part, ';'))).len() > 0
                    && u@ == link_url(part.subrange(0, first_pos(part, ';'))),
                LinkEntry::Other => part.contains(';') && !(
                    rel_is_next(part.subrange(first_pos(part, ';') + 1, part.len() as int))
                    && link_url(part.subrange(0, first_pos(part, ';'))).len() > 0),
            }
        }),
{
    let (a, b) = trim_bounds(raw);
    let part = chars_range(raw, a, b);
    match find_char(part.as_slice(), ';') {
        None => LinkEntry::Stop,
        Some(i) => {
            proof {
                let f = first_pos(part@, ';');
                assert(part@.contains(';')) by { assert(part@[i as int] == ';'); }
                if f < i as int { assert(part@[f] == ';'); }
                if f > i as int { assert(part@[i as int] == ';'); }
            }
            let params = chars_range(part.as_slice(), i + 1, part.len());
            let url_seg = chars_range(part.as_slice(), 0, i);
            let (x, y) = trim_bounds(url_seg.as_slice());
            let x2 = strip_leading_bound(url_seg.as_slice(), x, y, '<');
            let y2 = strip_trailing_bound(url_seg.as_slice(), x2, y, '>');
            proof {
                assert(url_seg@.subrange(x as int, y as int) == trim(url_seg@));
            }
            if params_say_next(params.as_slice()) && y2 > x2 {
                LinkEntry::Next(string_from_range(url_seg.as_slice(), x2, y2))
            } else {
                LinkEntry::Other
            }
        },
    }
}

// ---------------------------------------------------------------------------
// Error bodies
// ---------------------------------------------------------------------------

/// One item of an `errors` array: its `message`, or its JSON text.
pub open spec fn error_detail(e: JsonValue) -> Seq<char> {
    match field(e, "message"@) {
        Some(JsonValue::Str(m)) => m@,
        _ => json_text(e),
    }
}

/// The details of an `errors` array, in order.
pub open spec fn error_details(items: Seq<JsonValue>) -> Seq<Seq<char>> {
    items.map_values(|e: JsonValue| error_detail(e))
}

/// The human-readable message of an error response. `parsed` is the body's
/// JSON when the body parses as JSON.
pub open spec fn error_message_text(status: u16, body: Seq<char>, parsed: Option<JsonValue>) -> Seq<char> {
    match parsed {
        Some(v) => match field(v, "message"@) {
            Some(JsonValue::Str(m)) => match field(v, "errors"@) {
                Some(JsonValue::Array(a)) => if a@.len() > 0 {
                    m@ + " ("@ + join(error_details(a@), "; "@) + ")"@
                } else {
                    m@
                },
                _ => m@,
            },
            _ => body_fallback(status, body),
        },
        None => body_fallback(status, body),
    }
}

/// The message of a body that carries no JSON `message`.
pub open spec fn body_fallback(status: u16, body: Seq<char>) -> Seq<char> {
    if trim(body).len() == 0 {
        "HTTP "@ + decimal(status as nat)
    } else {
        trim(body)
    }
}

/// The detail of one `errors` item.
fn detail_of(e: &JsonValue) -> (res: String)
    ensures
        res@ == error_detail(*e),
{
    match e.get("message") {
        Some(JsonValue::Str(m)) => m.clone(),
        _ => to_json_text(e),
    }
}

/// Appends the details of `items`, joined by `sep`.
fn push_joined_details(out: &mut String, items: &[JsonValue], sep: &str)
    ensures
        final(out)@ == old(out)@ + join(error_details(items@), sep@),
{
    let ghost start = out@;
    let mut i: usize = 0;
    while i < items.len()
        invariant
            i <= items@.len(),
            out@ == start + join(error_details(items@.subrange(0, i as int)), sep@),
        decreases items.len() - i,
    {
        if i > 0 {
            push_str(out, sep);
        }
        let d = detail_of(&items[i]);
        push_str(out, d.as_str());
        proof {
            let s = error_details(items@.subrange(0, i + 1));
            assert(s.drop_last() =~= error_details(items@.subrange(0, i as int)));
            assert(s.last() == error_detail(items@[i as int]));
            if i == 0 {
                assert(error_details(items@.subrange(0, 0)) =~= Seq::<Seq<char>>::empty());
            }
        }
        i = i + 1;
    }
    assert(items@.subrange(0, items@.len() as int) =~= items@);
}

/// The human-readable message of an error response; `parsed` is the body's
/// JSON when it parses.
pub fn error_message_for(status: u16, body: &str, parsed: Option<&JsonValue>) -> (res: String)
    ensures
        res@ == error_message_text(status, body@, match parsed { Some(v) => Some(*v), None => None }),
{
    match parsed {
        Some(v) => match v.get("message") {
            Some(JsonValue::Str(m)) => {
                let mut out = m.clone();
                match v.get("errors") {
                    Some(JsonValue::Array(a)) => {
                        if a.len() > 0 {
                            push_str(&mut out, " (");
                            push_joined_details(&mut out, a.as_slice(), "; ");
                            push_str(&mut out, ")");
                        }
                    },
                    _ => {},
                }
                return out;
            },
            _ => {},
        },
        None => {},
    }
    let t = trim_str(body);
    if t.unicode_len() == 0 {
        let mut out = owned("HTTP ");
        push_decimal(&mut out, status as u64);
        out
    } else {
        t
    }
}

/// `e` is the error a GraphQL `errors` array stands for: its messages
/// joined, a status guessed from their wording, the whole payload as the
/// message when they say nothing.
pub open spec fn graphql_error_is(e: GithubError, errors: Seq<JsonValue>, whole: JsonValue) -> bool {
    let joined = join(error_details(errors), "; "@);
    let lower = lowercase(joined);
    let message = if joined.len() == 0 { json_text(whole) } else { joined };
    &&& e is Api
    &&& e->status == if has_infix(lower, "could not resolve to a node"@) || has_infix(lower, "not found"@) {
        404u16
    } else if has_infix(lower, "resource not accessible"@) || has_infix(lower, "forbidden"@) {
        403u16
    } else {
        200u16
    }
    &&& e->message@ == message
    &&& e->rate_limited == has_infix(lowercase(message), "rate limit"@)
}

/// Turns a GraphQL `errors` array into a [`GithubError`].
pub fn error_from_graphql_body(errors: &[JsonValue], whole: &JsonValue) -> (res: GithubError)
    ensures
        graphql_error_is(res, errors@, *whole),
{
    let mut joined = String::new();
    push_joined_details(&mut joined, errors, "; ");
    let lower = to_lowercase(joined.as_str());
    let status: u16 = if str_contains(lower.as_str(), "could not resolve to a node") || str_contains(lower.as_str(), "not found") {
        404
    } else if str_contains(lower.as_str(), "resource not accessible") || str_contains(lower.as_str(), "forbidden") {
        403
    } else {
        200
    };
    let message = if joined.unicode_len() == 0 { to_json_text(whole) } else { joined };
    let ml = to_lowercase(message.as_str());
    let rate_limited = str_contains(ml.as_str(), "rate limit");
    GithubError::Api { status, message, rate_limited }
}

// ---------------------------------------------------------------------------
// Retries
// ---------------------------------------------------------------------------

/// The value of a decimal digit character.
pub open spec fn digit_value(c: char) -> nat {
    ((c as u32) - ('0' as u32)) as nat
}

/// Is `c` one of `0`..`9`?
pub open spec fn is_digit(c: char) -> bool {
    '0' <= c && c <= '9'
}

/// The number the digits spell.
pub open spec fn digits_value(d: Seq<char>) -> nat
    decreases d.len(),
{
    if d.len() == 0 {
        0
    } else {
        digits_value(d.drop_last()) * 10 + digit_value(d.last())
    }
}

/// The digits of a number, an optional leading `+` dropped.
pub open spec fn unsigned_part(s: Seq<char>) -> Seq<char> {
    if s.len() > 0 && s[0] == '+' { s.drop_first() } else { s }
}

/// Are all of `d` decimal digits?
pub open spec fn all_digits(d: Seq<char>) -> bool {
    forall|i: int| 0 <= i < d.len() ==> is_digit(#[trigger] d[i])
}

/// `u64::from_str`: an optional `+`, then one or more digits, the value
/// fitting in 64 bits.
pub open spec fn parse_u64_spec(s: Seq<char>) -> Option<u64> {
    let d = unsigned_part(s);
    if d.len() == 0 || !all_digits(d) {
        None
    } else if digits_value(d) > u64::MAX {
        None
    } else {
        Some(digits_value(d) as u64)
    }
}

proof fn lemma_digits_monotone(d: Seq<char>, i: int)
    requires
        0 <= i <= d.len(),
    ensures
        digits_value(d.subrange(0, i)) <= digits_value(d),
    decreases d.len() - i,
{
    if i < d.len() {
        lemma_digits_monotone(d, i + 1);
        assert(d.subrange(0, i + 1).drop_last() =~= d.subrange(0, i));
    } else {
        assert(d.subrange(0, i) =~= d);
    }
}

/// Parses a decimal `u64` as `str::parse::<u64>` does.
pub fn parse_u64(s: &str) -> (res: Option<u64>)
    ensures
        res == parse_u64_spec(s@),
{
    let cs = str_chars(s);
    let start: usize = if cs.len() > 0 && cs[0] == '+' { 1 } else { 0 };
    let ghost d = unsigned_part(s@);
    assert(d =~= cs@.subrange(start as int, cs@.len() as int));
    if start == cs.len() {
        return None;
    }
    let mut k: usize = start;
    while k < cs.len()
        invariant
            start <= k <= cs@.len(),
            cs@ == s@,
            d == cs@.subrange(start as int, cs@.len() as int),
            d == unsigned_part(s@),
            forall|j: int| 0 <= j < k - start ==> is_digit(#[trigger] d[j]),
        decreases cs.len() - k,
    {
        if !('0' <= cs[k] && cs[k] <= '9') {
            proof {
                let w: int = k - start;
                assert(!is_digit(d[w]));
                assert(!all_digits(d));
            }
            return None;
        }
        k = k + 1;
    }
    let mut acc: u128 = 0;
    let mut j: usize = start;
    while j < cs.len()
        invariant
            start <= j <= cs@.len(),
            cs@ == s@,
            d == cs@.subrange(start as int, cs@.len() as int),
            d == unsigned_part(s@),
            all_digits(d),
            acc == digits_value(d.subrange(0, j - start)),
            acc <= u64::MAX,
        decreases cs.len() - j,
    {
        let c = cs[j];
        assert(is_digit(d[j - start]));
        let v = (c as u32 - '0' as u32) as u128;
        proof {
            assert(d.subrange(0, j + 1 - start).drop_last() =~= d.subrange(0, j - start));
            assert(d.subrange(0, j + 1 - start).last() == c);
        }
        acc = acc * 10 + v;
        j = j + 1;
        if acc > u64::MAX as u128 {
            proof { lemma_digits_monotone(d, j - start); }
            return None;
        }
    }
    assert(d.subrange(0, d.len() as int) =~= d);
    Some(acc as u64)
}

/// The backoff for a failed request, in milliseconds; `None` when the
/// failure is not worth retrying. 429s, rate-limited 403s and 5xx are
/// retried: after `Retry-After` seconds when it parses (at most 60 s),
/// otherwise 1 s doubled per attempt up to 32 s.
pub open spec fn retry_delay_spec(status: u16, retry_after: Option<Seq<char>>, attempt: u32, rate_limited: bool) -> Option<u64> {
    let retryable = status == 429 || (status == 403 && rate_limited) || (500 <= status && status < 600);
    if !retryable {
        None
    } else {
        match retry_after {
            Some(r) => match parse_u64_spec(trim(r)) {
                Some(secs) => Some(((if secs < 60 { secs as int } else { 60 }) * 1000) as u64),
                None => Some(backoff_ms(attempt)),
            },
            None => Some(backoff_ms(attempt)),
        }
    }
}

/// Exponential backoff: `1000 * 2^min(attempt, 5)` milliseconds.
pub open spec fn backoff_ms(attempt: u32) -> u64 {
    let e = if attempt < 5 { attempt } else { 5 };
    if e == 0 { 1000 } else if e == 1 { 2000 } else if e == 2 { 4000 } else if e == 3 { 8000 }
    else if e == 4 { 16000 } else { 32000 }
}

/// Which failures are retried, and after how long: every 5xx, every 429 and
/// a 403 that is a rate limit are retried, nothing else. Without a usable
/// `Retry-After` the first retry waits 1 s and each further attempt doubles
/// the wait until it reaches 32 s; a `Retry-After` of `n` seconds waits
/// `n` s, at most 60 s.
pub proof fn lemma_retry_policy(status: u16, retry_after: Option<Seq<char>>, attempt: u32, rate_limited: bool)
    ensures
        retry_delay_spec(status, retry_after, attempt, rate_limited) is Some
            <==> (status == 429 || (500 <= status && status < 600) || (status == 403 && rate_limited)),
        (status == 429 || (500 <= status && status < 600)) ==> retry_delay_spec(status, None, 0, rate_limited) == Some(1000u64),
        (status == 429 || (500 <= status && status < 600)) && attempt < 5 ==> (retry_delay_spec(status, None, (attempt + 1) as u32, rate_limited)
            matches Some(next) && retry_delay_spec(status, None, attempt, rate_limited) matches Some(cur) && next == 2 * cur),
        (status == 429 || (500 <= status && status < 600)) && attempt >= 5
            ==> retry_delay_spec(status, None, attempt, rate_limited) == Some(32000u64),
        (status == 429 || (500 <= status && status < 600)) ==> match retry_after {
            Some(r) => match parse_u64_spec(trim(r)) {
                Some(n) => retry_delay_spec(status, retry_after, attempt, rate_limited)
                    == Some((1000 * (if n < 60 { n as int } else { 60 })) as u64),
                None => retry_delay_spec(status, retry_after, attempt, rate_limited)
                    == retry_delay_spec(status, None, attempt, rate_limited),
            },
            None => true,
        },
{
    match retry_after {
        Some(r) => match parse_u64_spec(trim(r)) {
            Some(n) => {
                let w: int = if n < 60 { n as int } else { 60 };
                assert(w * 1000 == 1000 * w);
            },
            None => {},
        },
        None => {},
    }
}

/// Decides whether a failed response is retried, and after how many
/// milliseconds.
pub fn retry_delay_for(status: u16, retry_after: Option<&str>, attempt: u32, rate_limited: bool) -> (res: Option<u64>)
    ensures
        res == retry_delay_spec(status, match retry_after { Some(r) => Some(r@), None => None }, attempt, rate_limited),
{
    let retryable = status == 429 || (status == 403 && rate_limited) || (500 <= status && status < 600);
    if !retryable {
        return None;
    }
    let exp: u64 = {
        let e = if attempt < 5 { attempt } else { 5 };
        if e == 0 { 1000 } else if e == 1 { 2000 } else if e == 2 { 4000 } else if e == 3 { 8000 }
        else if e == 4 { 16000 } else { 32000 }
    };
    match retry_after {
        Some(r) => {
            let t = trim_str(r);
            match parse_u64(t.as_str()) {
                Some(secs) => Some((if secs < 60 { secs } else { 60 }) * 1000),
                None => Some(exp),
            }
        },
        None => Some(exp),
    }
}

/// Does a 403 body read like a rate limit rather than a permission problem?
pub open spec fn rate_limit_body(body: Seq<char>) -> bool {
    let lower = lowercase(body);
    has_infix(lower, "rate limit"@) || has_infix(lower, "abuse"@) || has_infix(lower, "secondary rate"@)
}

/// Does a 403 body read like a rate limit?
pub fn is_rate_limit_body(body: &str) -> (res: bool)
    ensures
        res == rate_limit_body(body@),
{
    let lower = to_lowercase(body);
    str_contains(lower.as_str(), "rate limit") || str_contains(lower.as_str(), "abuse")
        || str_contains(lower.as_str(), "secondary rate")
}

/// What to do after a non-success response.
pub enum RetryDecision {
    /// Sleep this many milliseconds, then send again.
    Retry(u64),
    /// Give up with this error.
    Fail(GithubError),
}

/// The retry decision for a failed REST response, as `request_text` and the
/// paginated GET make it.
pub open spec fn rest_failure_ok(res: RetryDecision, status: u16, retry_after: Option<Seq<char>>, attempt: u32, body: Seq<char>, parsed: Option<JsonValue>) -> bool {
    let rate_limited = status == 429 || (status == 403 && rate_limit_body(body));
    match retry_delay_spec(status, retry_after, attempt, rate_limited) {
        Some(d) if attempt < MAX_RETRIES => res == RetryDecision::Retry(d),
        _ => res matches RetryDecision::Fail(GithubError::Api { status: s, message, rate_limited: r })
            && s == status && r == rate_limited && message@ == error_message_text(status, body, parsed),
    }
}

/// Decides what follows a failed REST response.
pub fn rest_failure(status: u16, retry_after: Option<&str>, attempt: u32, body: &str, parsed: Option<&JsonValue>) -> (res: RetryDecision)
    ensures
        rest_failure_ok(res, status, match retry_after { Some(r) => Some(r@), None => None }, attempt, body@,
            match parsed { Some(v) => Some(*v), None => None }),
{
    let rate_limited = status == 429 || (status == 403 && is_rate_limit_body(body));
    match retry_delay_for(status, retry_after, attempt, rate_limited) {
        Some(d) => {
            if attempt < MAX_RETRIES {
                return RetryDecision::Retry(d);
            }
        },
        None => {},
    }
    RetryDecision::Fail(GithubError::Api { status, message: error_message_for(status, body, parsed), rate_limited })
}

/// The retry decision for a failed GraphQL response: as for REST, except a
/// 403 counts as a rate limit only when its body says "rate limit".
pub open spec fn graphql_failure_ok(res: RetryDecision, status: u16, retry_after: Option<Seq<char>>, attempt: u32, body: Seq<char>, parsed: Option<JsonValue>) -> bool {
    let rate_limited = status == 429 || (status == 403 && has_infix(lowercase(body), "rate limit"@));
    match retry_delay_spec(status, retry_after, attempt, rate_limited) {
        Some(d) if attempt < MAX_RETRIES => res == RetryDecision::Retry(d),
        _ => res matches RetryDecision::Fail(GithubError::Api { status: s, message, rate_limited: r })
            && s == status && r == rate_limited && message@ == error_message_text(status, body, parsed),
    }
}

/// Decides what follows a non-200 GraphQL response.
pub fn graphql_failure(status: u16, retry_after: Option<&str>, attempt: u32, body: &str, parsed: Option<&JsonValue>) -> (res: RetryDecision)
    ensures
        graphql_failure_ok(res, status, match retry_after { Some(r) => Some(r@), None => None }, attempt, body@,
            match parsed { Some(v) => Some(*v), None => None }),
{
    let lower = to_lowercase(body);
    let rate_limited = status == 429 || (status == 403 && str_contains(lower.as_str(), "rate limit"));
    match retry_delay_for(status, retry_after, attempt, rate_limited) {
        Some(d) => {
            if attempt < MAX_RETRIES {
                return RetryDecision::Retry(d);
            }
        },
        None => {},
    }
    RetryDecision::Fail(GithubError::Api { status, message: error_message_for(status, body, parsed), rate_limited })
}

// ---------------------------------------------------------------------------
// URLs and payloads
// ---------------------------------------------------------------------------

/// An absolute URL passes through; a path is joined to the base with one `/`.
pub open spec fn absolute_url_spec(base: Seq<char>, path: Seq<char>) -> Seq<char> {
    if has_prefix(path, "http://"@) || has_prefix(path, "https://"@) {
        path
    } else {
        strip_trailing(base, '/') + "/"@ + strip_leading(path, '/')
    }
}

/// Absolute-ises a path, or passes an absolute URL through.
pub fn absolute_url(base: &str, path_or_url: &str) -> (res: String)
    ensures
        res@ == absolute_url_spec(base@, path_or_url@),
{
    let p = str_chars(path_or_url);
    let h1 = str_chars("http://");
    let h2 = str_chars("https://");
    if matches_at(p.as_slice(), h1.as_slice(), 0) || matches_at(p.as_slice(), h2.as_slice(), 0) {
        return owned(path_or_url);
    }
    let b = str_chars(base);
    let e = strip_trailing_bound(b.as_slice(), 0, b.len(), '/');
    let s = strip_leading_bound(p.as_slice(), 0, p.len(), '/');
    assert(b@.subrange(0, b@.len() as int) =~= b@);
    assert(p@.subrange(0, p@.len() as int) =~= p@);
    let mut out = string_from_range(b.as_slice(), 0, e);
    push_str(&mut out, "/");
    let rest = string_from_range(p.as_slice(), s, p.len());
    push_str(&mut out, rest.as_str());
    out
}

/// The created issue a `POST /issues` payload describes.
pub open spec fn created_issue_spec(v: JsonValue) -> Option<(u64, u64, Seq<char>)> {
    match (as_u64_spec(field(v, "number"@)), as_u64_spec(field(v, "id"@)), as_str_spec(field(v, "node_id"@))) {
        (Some(n), Some(i), Some(s)) => Some((n, i, s)),
        _ => None,
    }
}

/// Reads a created issue's number, database id and node id.
pub fn created_issue_from(v: &JsonValue) -> (res: Result<CreatedIssue, GithubError>)
    ensures
        match res {
            Ok(c) => created_issue_spec(*v) == Some((c.number, c.id, c.node_id@)),
            Err(e) => created_issue_spec(*v) is None && e is Other
                && (e->Other_0@ == "created issue has no number"@ && as_u64_spec(field(*v, "number"@)) is None
                || e->Other_0@ == "created issue has no id"@ && as_u64_spec(field(*v, "number"@)) is Some
                    && as_u64_spec(field(*v, "id"@)) is None
                || e->Other_0@ == "created issue has no node_id"@ && as_u64_spec(field(*v, "number"@)) is Some
                    && as_u64_spec(field(*v, "id"@)) is Some && as_str_spec(field(*v, "node_id"@)) is None),
        },
{
    let number = match v.get("number") {
        Some(n) => n.as_u64(),
        None => None,
    };
    let number = match number {
        Some(n) => n,
        None => return Err(GithubError::Other(owned("created issue has no number"))),
    };
    let id = match v.get("id") {
        Some(n) => n.as_u64(),
        None => None,
    };
    let id = match id {
        Some(n) => n,
        None => return Err(GithubError::Other(owned("created issue has no id"))),
    };
    match v.get("node_id") {
        Some(JsonValue::Str(s)) => Ok(CreatedIssue { number, id, node_id: s.clone() }),
        _ => Err(GithubError::Other(owned("created issue has no node_id"))),
    }
}

/// Reads a repository's node id from its REST payload.
pub fn repo_node_id_from(v: &JsonValue) -> (res: Result<String, GithubError>)
    ensures
        match res {
            Ok(s) => as_str_spec(field(*v, "node_id"@)) == Some(s@),
            Err(e) => as_str_spec(field(*v, "node_id"@)) is None && e is Other && e->Other_0@ == "repo has no node_id"@,
        },
{
    match v.get("node_id") {
        Some(JsonValue::Str(s)) => Ok(s.clone()),
        _ => Err(GithubError::Other(owned("repo has no node_id"))),
    }
}

/// The non-empty trimmed pieces of a comma-separated list.
pub open spec fn comma_items(pieces: Seq<Seq<char>>) -> Seq<Seq<char>>
    decreases pieces.len(),
{
    if pieces.len() == 0 {
        Seq::empty()
    } else {
        let rest = comma_items(pieces.drop_last());
        if trim(pieces.last()).len() == 0 { rest } else { rest.push(trim(pieces.last())) }
    }
}

/// The scopes an `x-oauth-scopes` header lists.
pub open spec fn scopes_spec(header: Option<Seq<char>>) -> Seq<Seq<char>> {
    match header {
        Some(h) => comma_items(split_on(h, ',')),
        None => comma_items(split_on(Seq::empty(), ',')),
    }
}

/// The scopes an `x-oauth-scopes` header lists; none when it is absent.
pub fn scopes_from_header(header: Option<&str>) -> (res: Vec<String>)
    ensures
        views(res@) == scopes_spec(match header { Some(h) => Some(h@), None => None }),
{
    let cs = match header {
        Some(h) => str_chars(h),
        None => Vec::new(),
    };
    let pieces = split_chars(cs.as_slice(), ',');
    let ghost ps = pieces@.map_values(|v: Vec<char>| v@);
    assert(ps == scopes_source(header));
    let mut out: Vec<String> = Vec::new();
    let mut i: usize = 0;
    while i < pieces.len()
        invariant
            i <= pieces@.len(),
            ps == pieces@.map_values(|v: Vec<char>| v@),
            views(out@) == comma_items(ps.subrange(0, i as int)),
        decreases pieces.len() - i,
    {
        let (a, b) = trim_bounds(pieces[i].as_slice());
        proof {
            let s = ps.subrange(0, i + 1);
            assert(s.drop_last() =~= ps.subrange(0, i as int));
            assert(s.last() == pieces@[i as int]@);
        }
        if b > a {
            let ghost prev = out@;
            out.push(string_from_range(pieces[i].as_slice(), a, b));
            assert(views(out@) =~= views(prev).push(trim(pieces@[i as int]@)));
        }
        i = i + 1;
    }
    assert(ps.subrange(0, ps.len() as int) =~= ps);
    out
}

/// The pieces [`scopes_spec`] reads.
pub open spec fn scopes_source(header: Option<&str>) -> Seq<Seq<char>> {
    match header {
        Some(h) => split_on(h@, ','),
        None => split_on(Seq::empty(), ','),
    }
}

/// `create_label`'s outcome: a duplicate label counts as success.
pub fn label_created(result: Result<(), GithubError>) -> (res: Result<(), GithubError>)
    ensures
        match result {
            Ok(()) => res is Ok,
            Err(e) => if e.is_duplicate_label_spec() { res is Ok } else { res == Err::<(), GithubError>(e) },
        },
{
    match result {
        Ok(()) => Ok(()),
        Err(e) => {
            if e.is_duplicate_label() {
                Ok(())
            } else {
                Err(e)
            }
        },
    }
}

impl GithubError {
    /// The condition [`GithubError::is_duplicate_label`] tests.
    pub open spec fn is_duplicate_label_spec(self) -> bool {
        match self {
            GithubError::Api { status, message, .. } => status == 422
                && (has_infix(lowercase(message@), "already_exists"@) || benign_text(message@)),
            _ => false,
        }
    }
}

} // verus!

verus! {

/// A retry is only ever scheduled for a 429, a 5xx, or a rate-limited 403,
/// and never more than [`MAX_BACKOFF_MS`] away, whatever `Retry-After` says.
pub proof fn lemma_retry_delay_bounded(status: u16, retry_after: Option<Seq<char>>, attempt: u32, rate_limited: bool)
    ensures
        retry_delay_spec(status, retry_after, attempt, rate_limited) matches Some(d) ==> {
            &&& d <= MAX_BACKOFF_MS
            &&& (status == 429 || (500 <= status < 600) || (status == 403 && rate_limited))
        },
        (status == 404 || status == 422 || (status == 403 && !rate_limited))
            ==> retry_delay_spec(status, retry_after, attempt, rate_limited) is None,
{
}

/// Retries stop after [`MAX_RETRIES`] attempts: from then on every failure
/// is final, and it carries the status it came with.
pub proof fn lemma_retries_are_capped(
    res: RetryDecision,
    status: u16,
    retry_after: Option<Seq<char>>,
    attempt: u32,
    body: Seq<char>,
    parsed: Option<JsonValue>,
)
    requires
        attempt >= MAX_RETRIES,
        rest_failure_ok(res, status, retry_after, attempt, body, parsed),
    ensures
        res matches RetryDecision::Fail(GithubError::Api { status: s, .. }) && s == status,
{
}

/// A duplicate label is always a 422, and a 422 saying a link is already
/// taken is also read as a duplicate label.
pub proof fn lemma_duplicate_label_is_validation_failure(e: GithubError)
    ensures
        e.is_duplicate_label_spec() ==> (e matches GithubError::Api { status, .. } && status == 422),
        (e matches GithubError::Api { status, message, .. } && status == 422 && benign_text(message@))
            ==> e.is_duplicate_label_spec(),
{
}

} // verus!
