//! A JSON document model, and Python's rendering and truthiness of it.
//!
//! Parsing text into this model is serde_json's work and happens outside the
//! library; everything that reads a document works on this type.

use vstd::prelude::*;
use crate::text::{chars_eq, push_str, push_char, str_chars};

verus! {

broadcast use vstd::seq_lib::group_seq_properties;

/// A JSON number: its rendering as serde_json prints it, its value when it is
/// a non-negative integer that fits in `u64`, and whether it equals zero.
#[derive(Clone, Debug)]
pub struct JsonNumber {
    pub text: String,
    pub as_u64: Option<u64>,
    pub is_zero: bool,
}

/// A JSON value. Object members keep their order.
#[derive(Debug)]
pub enum JsonValue {
    Null,
    Bool(bool),
    Number(JsonNumber),
    Str(String),
    Array(Vec<JsonValue>),
    Object(Vec<(String, JsonValue)>),
}

/// Python's `str()` of the value: how the CLI interpolates a value into a
/// message.
pub open spec fn py_str(v: JsonValue) -> Seq<char>
    decreases v,
{
    match v {
        JsonValue::Null => "None"@,
        JsonValue::Bool(b) => if b { "True"@ } else { "False"@ },
        JsonValue::Number(n) => n.text@,
        JsonValue::Str(s) => s@,
        JsonValue::Array(a) => "["@ + py_str_items(a@) + "]"@,
        JsonValue::Object(o) => "{"@ + py_str_members(o@) + "}"@,
    }
}

/// The items of an array rendered by [`py_str`] and joined by `", "`.
pub open spec fn py_str_items(items: Seq<JsonValue>) -> Seq<char>
    decreases items,
{
    if items.len() == 0 {
        Seq::empty()
    } else if items.len() == 1 {
        py_str(items[0])
    } else {
        py_str_items(items.drop_last()) + ", "@ + py_str(items.last())
    }
}

/// The members of an object rendered `'key': value` and joined by `", "`.
pub open spec fn py_str_members(members: Seq<(String, JsonValue)>) -> Seq<char>
    decreases members,
{
    if members.len() == 0 {
        Seq::empty()
    } else if members.len() == 1 {
        "'"@ + members[0].0@ + "': "@ + py_str(members[0].1)
    } else {
        py_str_members(members.drop_last()) + ", "@ + "'"@ + members.last().0@ + "': "@
            + py_str(members.last().1)
    }
}

/// Python truthiness: `None`, `False`, zero and empty containers are false.
pub open spec fn py_truthy(v: JsonValue) -> bool {
    match v {
        JsonValue::Null => false,
        JsonValue::Bool(b) => b,
        JsonValue::Number(n) => !n.is_zero,
        JsonValue::Str(s) => s@.len() > 0,
        JsonValue::Array(a) => a@.len() > 0,
        JsonValue::Object(o) => o@.len() > 0,
    }
}

/// The first member named `key`.
pub open spec fn member(members: Seq<(String, JsonValue)>, key: Seq<char>) -> Option<JsonValue>
    decreases members.len(),
{
    if members.len() == 0 {
        None
    } else if members[0].0@ == key {
        Some(members[0].1)
    } else {
        member(members.drop_first(), key)
    }
}

/// The member named `key` of an object; `None` for a non-object.
pub open spec fn field(v: JsonValue, key: Seq<char>) -> Option<JsonValue> {
    match v {
        JsonValue::Object(o) => member(o@, key),
        _ => None,
    }
}

/// The string held by a JSON string.
pub open spec fn as_str_spec(v: Option<JsonValue>) -> Option<Seq<char>> {
    match v {
        Some(JsonValue::Str(s)) => Some(s@),
        _ => None,
    }
}

/// The non-negative integer held by a JSON number.
pub open spec fn as_u64_spec(v: Option<JsonValue>) -> Option<u64> {
    match v {
        Some(JsonValue::Number(n)) => n.as_u64,
        _ => None,
    }
}

impl JsonValue {
    /// Is this `null`?
    pub fn is_null(&self) -> (res: bool)
        ensures
            res == (*self is Null),
    {
        match self {
            JsonValue::Null => true,
            _ => false,
        }
    }

    /// The member named `key`, when this is an object that has one.
    pub fn get(&self, key: &str) -> (res: Option<&JsonValue>)
        ensures
            match res {
                Some(r) => field(*self, key@) == Some(*r),
                None => field(*self, key@) is None,
            },
    {
        match self {
            JsonValue::Object(o) => get_member(o.as_slice(), key),
            _ => None,
        }
    }

    /// The string this holds, if it is a JSON string.
    pub fn as_str(&self) -> (res: Option<&String>)
        ensures
            match res {
                Some(s) => *self == JsonValue::Str(*s),
                None => !(*self is Str),
            },
    {
        match self {
            JsonValue::Str(s) => Some(s),
            _ => None,
        }
    }

    /// The integer this holds, if it is a non-negative integer number.
    pub fn as_u64(&self) -> (res: Option<u64>)
        ensures
            res == as_u64_spec(Some(*self)),
    {
        match self {
            JsonValue::Number(n) => n.as_u64,
            _ => None,
        }
    }
}

/// The first member named `key`.
pub fn get_member<'a>(members: &'a [(String, JsonValue)], key: &str) -> (res: Option<&'a JsonValue>)
    ensures
        match res {
            Some(r) => member(members@, key@) == Some(*r),
            None => member(members@, key@) is None,
        },
{
    let k = str_chars(key);
    let mut i: usize = 0;
    assert(members@.subrange(0, members@.len() as int) =~= members@);
    while i < members.len()
        invariant
            i <= members@.len(),
            k@ == key@,
            member(members@, key@) == member(members@.subrange(i as int, members@.len() as int), key@),
        decreases members.len() - i,
    {
        let name = str_chars(members[i].0.as_str());
        let ghost rest = members@.subrange(i as int, members@.len() as int);
        assert(rest[0] == members@[i as int]);
        if chars_eq(name.as_slice(), k.as_slice()) {
            return Some(&members[i].1);
        }
        assert(rest.drop_first() =~= members@.subrange(i + 1, members@.len() as int));
        i = i + 1;
    }
    None
}

/// Python truthiness of a value.
pub fn truthy(v: &JsonValue) -> (res: bool)
    ensures
        res == py_truthy(*v),
{
    match v {
        JsonValue::Null => false,
        JsonValue::Bool(b) => *b,
        JsonValue::Number(n) => !n.is_zero,
        JsonValue::Str(s) => s.unicode_len() > 0,
        JsonValue::Array(a) => a.len() > 0,
        JsonValue::Object(o) => o.len() > 0,
    }
}

/// Appends Python's `str()` of the value.
pub fn push_py_str(out: &mut String, v: &JsonValue)
    ensures
        final(out)@ == old(out)@ + py_str(*v),
    decreases v,
{
    match v {
        JsonValue::Null => push_str(out, "None"),
        JsonValue::Bool(b) => {
            if *b {
                push_str(out, "True")
            } else {
                push_str(out, "False")
            }
        },
        JsonValue::Number(n) => push_str(out, n.text.as_str()),
        JsonValue::Str(s) => push_str(out, s.as_str()),
        JsonValue::Array(a) => {
            push_str(out, "[");
            let ghost start = out@;
            let mut i: usize = 0;
            while i < a.len()
                invariant
                    *v == JsonValue::Array(*a),
                    i <= a@.len(),
                    out@ == start + py_str_items(a@.subrange(0, i as int)),
                decreases a.len() - i,
            {
                proof {
                    assert(decreases_to!(*v => v->Array_0));
                    assert(decreases_to!(*a => a@));
                    assert(decreases_to!(a@ => a@[i as int]));
                }
                if i > 0 {
                    push_str(out, ", ");
                }
                push_py_str(out, &a[i]);
                proof {
                    let s = a@.subrange(0, i + 1);
                    assert(s.drop_last() =~= a@.subrange(0, i as int));
                    assert(s.last() == a@[i as int]);
                    if i == 0 {
                        assert(a@.subrange(0, 0) =~= Seq::<JsonValue>::empty());
                    }
                }
                i = i + 1;
            }
            assert(a@.subrange(0, a@.len() as int) =~= a@);
            push_str(out, "]");
        },
        JsonValue::Object(o) => {
            push_str(out, "{");
            let ghost start = out@;
            let mut i: usize = 0;
            while i < o.len()
                invariant
                    *v == JsonValue::Object(*o),
                    i <= o@.len(),
                    out@ == start + py_str_members(o@.subrange(0, i as int)),
                decreases o.len() - i,
            {
                proof {
                    assert(decreases_to!(*v => v->Object_0));
                    assert(decreases_to!(*o => o@));
                    assert(decreases_to!(o@ => o@[i as int]));
                    assert(decreases_to!(o@[i as int] => o@[i as int].1));
                }
                if i > 0 {
                    push_str(out, ", ");
                }
                push_str(out, "'");
                push_str(out, o[i].0.as_str());
                push_str(out, "': ");
                push_py_str(out, &o[i].1);
                proof {
                    let s = o@.subrange(0, i + 1);
                    assert(s.drop_last() =~= o@.subrange(0, i as int));
                    assert(s.last() == o@[i as int]);
                    if i == 0 {
                        assert(o@.subrange(0, 0) =~= Seq::<(String, JsonValue)>::empty());
                    }
                }
                i = i + 1;
            }
            assert(o@.subrange(0, o@.len() as int) =~= o@);
            push_str(out, "}");
        },
    }
}

/// Python's `str()` of the value.
pub fn to_py_str(v: &JsonValue) -> (res: String)
    ensures
        res@ == py_str(*v),
{
    let mut out = String::new();
    push_py_str(&mut out, v);
    out
}

// ---------------------------------------------------------------------------
// Compact JSON text, as serde_json writes a value
// ---------------------------------------------------------------------------

/// A lowercase hexadecimal digit.
pub open spec fn hex_digit(d: u32) -> char {
    if d < 10 { digit_of(d) } else if d == 10 { 'a' } else if d == 11 { 'b' } else if d == 12 { 'c' }
    else if d == 13 { 'd' } else if d == 14 { 'e' } else { 'f' }
}

/// A decimal digit.
pub open spec fn digit_of(d: u32) -> char {
    if d == 0 { '0' } else if d == 1 { '1' } else if d == 2 { '2' } else if d == 3 { '3' }
    else if d == 4 { '4' } else if d == 5 { '5' } else if d == 6 { '6' } else if d == 7 { '7' }
    else if d == 8 { '8' } else { '9' }
}

/// How one character appears inside a JSON string: quote, backslash and the
/// control characters are escaped, everything else stands as it is.
pub open spec fn escape_char(c: char) -> Seq<char> {
    let u = c as u32;
    if c == '"' { seq!['\\', '"'] }
    else if c == '\\' { seq!['\\', '\\'] }
    else if u == 0x08 { seq!['\\', 'b'] }
    else if u == 0x09 { seq!['\\', 't'] }
    else if u == 0x0a { seq!['\\', 'n'] }
    else if u == 0x0c { seq!['\\', 'f'] }
    else if u == 0x0d { seq!['\\', 'r'] }
    else if u < 0x20 { seq!['\\', 'u', '0', '0', hex_digit(u / 16), hex_digit(u % 16)] }
    else { seq![c] }
}

/// The characters of a string, escaped.
pub open spec fn escape_text(s: Seq<char>) -> Seq<char>
    decreases s.len(),
{
    if s.len() == 0 {
        Seq::empty()
    } else {
        escape_text(s.drop_last()) + escape_char(s.last())
    }
}

/// A JSON string literal.
pub open spec fn quoted(s: Seq<char>) -> Seq<char> {
    "\""@ + escape_text(s) + "\""@
}

/// The compact JSON text of a value, as serde_json's `Value::to_string`
/// writes it.
pub open spec fn json_text(v: JsonValue) -> Seq<char>
    decreases v,
{
    match v {
        JsonValue::Null => "null"@,
        JsonValue::Bool(b) => if b { "true"@ } else { "false"@ },
        JsonValue::Number(n) => n.text@,
        JsonValue::Str(s) => quoted(s@),
        JsonValue::Array(a) => "["@ + json_items(a@) + "]"@,
        JsonValue::Object(o) => "{"@ + json_members(o@) + "}"@,
    }
}

/// Array items, comma-separated.
pub open spec fn json_items(items: Seq<JsonValue>) -> Seq<char>
    decreases items,
{
    if items.len() == 0 {
        Seq::empty()
    } else if items.len() == 1 {
        json_text(items[0])
    } else {
        json_items(items.drop_last()) + ","@ + json_text(items.last())
    }
}

/// Object members `"key":value`, comma-separated.
pub open spec fn json_members(members: Seq<(String, JsonValue)>) -> Seq<char>
    decreases members,
{
    if members.len() == 0 {
        Seq::empty()
    } else if members.len() == 1 {
        quoted(members[0].0@) + ":"@ + json_text(members[0].1)
    } else {
        json_members(members.drop_last()) + ","@ + quoted(members.last().0@) + ":"@
            + json_text(members.last().1)
    }
}

fn hex_char(d: u32) -> (res: char)
    requires
        d < 16,
    ensures
        res == hex_digit(d),
{
    if d == 0 { '0' } else if d == 1 { '1' } else if d == 2 { '2' } else if d == 3 { '3' }
    else if d == 4 { '4' } else if d == 5 { '5' } else if d == 6 { '6' } else if d == 7 { '7' }
    else if d == 8 { '8' } else if d == 9 { '9' } else if d == 10 { 'a' } else if d == 11 { 'b' }
    else if d == 12 { 'c' } else if d == 13 { 'd' } else if d == 14 { 'e' } else { 'f' }
}

/// Appends one character as it appears inside a JSON string.
fn push_escaped_char(out: &mut String, c: char)
    ensures
        final(out)@ == old(out)@ + escape_char(c),
{
    let u = c as u32;
    if c == '"' {
        push_char(out, '\\');
        push_char(out, '"');
    } else if c == '\\' {
        push_char(out, '\\');
        push_char(out, '\\');
    } else if u == 0x08 {
        push_char(out, '\\');
        push_char(out, 'b');
    } else if u == 0x09 {
        push_char(out, '\\');
        push_char(out, 't');
    } else if u == 0x0a {
        push_char(out, '\\');
        push_char(out, 'n');
    } else if u == 0x0c {
        push_char(out, '\\');
        push_char(out, 'f');
    } else if u == 0x0d {
        push_char(out, '\\');
        push_char(out, 'r');
    } else if u < 0x20 {
        push_char(out, '\\');
        push_char(out, 'u');
        push_char(out, '0');
        push_char(out, '0');
        push_char(out, hex_char(u / 16));
        push_char(out, hex_char(u % 16));
    } else {
        push_char(out, c);
    }
    assert(out@ =~= old(out)@ + escape_char(c));
}

/// Appends a JSON string literal.
pub fn push_quoted(out: &mut String, s: &str)
    ensures
        final(out)@ == old(out)@ + quoted(s@),
{
    push_str(out, "\"");
    let ghost start = out@;
    let cs = str_chars(s);
    let mut i: usize = 0;
    while i < cs.len()
        invariant
            i <= cs@.len(),
            cs@ == s@,
            out@ == start + escape_text(s@.subrange(0, i as int)),
        decreases cs.len() - i,
    {
        push_escaped_char(out, cs[i]);
        proof {
            let p = s@.subrange(0, i + 1);
            assert(p.drop_last() =~= s@.subrange(0, i as int));
            assert(p.last() == cs@[i as int]);
        }
        i = i + 1;
    }
    assert(s@.subrange(0, s@.len() as int) =~= s@);
    push_str(out, "\"");
}

/// Appends the compact JSON text of a value.
pub fn push_json_text(out: &mut String, v: &JsonValue)
    ensures
        final(out)@ == old(out)@ + json_text(*v),
    decreases v,
{
    match v {
        JsonValue::Null => push_str(out, "null"),
        JsonValue::Bool(b) => {
            if *b {
                push_str(out, "true")
            } else {
                push_str(out, "false")
            }
        },
        JsonValue::Number(n) => push_str(out, n.text.as_str()),
        JsonValue::Str(s) => push_quoted(out, s.as_str()),
        JsonValue::Array(a) => {
            push_str(out, "[");
            let ghost start = out@;
            let mut i: usize = 0;
            while i < a.len()
                invariant
                    *v == JsonValue::Array(*a),
                    i <= a@.len(),
                    out@ == start + json_items(a@.subrange(0, i as int)),
                decreases a.len() - i,
            {
                proof {
                    assert(decreases_to!(*v => v->Array_0));
                    assert(decreases_to!(*a => a@));
                    assert(decreases_to!(a@ => a@[i as int]));
                }
                if i > 0 {
                    push_str(out, ",");
                }
                push_json_text(out, &a[i]);
                proof {
                    let s = a@.subrange(0, i + 1);
                    assert(s.drop_last() =~= a@.subrange(0, i as int));
                    assert(s.last() == a@[i as int]);
                    if i == 0 {
                        assert(a@.subrange(0, 0) =~= Seq::<JsonValue>::empty());
                    }
                }
                i = i + 1;
            }
            assert(a@.subrange(0, a@.len() as int) =~= a@);
            push_str(out, "]");
        },
        JsonValue::Object(o) => {
            push_str(out, "{");
            let ghost start = out@;
            let mut i: usize = 0;
            while i < o.len()
                invariant
                    *v == JsonValue::Object(*o),
                    i <= o@.len(),
                    out@ == start + json_members(o@.subrange(0, i as int)),
                decreases o.len() - i,
            {
                proof {
                    assert(decreases_to!(*v => v->Object_0));
                    assert(decreases_to!(*o => o@));
                    assert(decreases_to!(o@ => o@[i as int]));
                    assert(decreases_to!(o@[i as int] => o@[i as int].1));
                }
                if i > 0 {
                    push_str(out, ",");
                }
                push_quoted(out, o[i].0.as_str());
                push_str(out, ":");
                push_json_text(out, &o[i].1);
                proof {
                    let s = o@.subrange(0, i + 1);
                    assert(s.drop_last() =~= o@.subrange(0, i as int));
                    assert(s.last() == o@[i as int]);
                    if i == 0 {
                        assert(o@.subrange(0, 0) =~= Seq::<(String, JsonValue)>::empty());
                    }
                }
                i = i + 1;
            }
            assert(o@.subrange(0, o@.len() as int) =~= o@);
            push_str(out, "}");
        },
    }
}

/// The compact JSON text of a value, as serde_json's `Value::to_string`
/// writes it.
pub fn to_json_text(v: &JsonValue) -> (res: String)
    ensures
        res@ == json_text(*v),
{
    let mut out = String::new();
    push_json_text(&mut out, v);
    out
}

} // verus!
