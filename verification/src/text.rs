//! Character-level helpers over `String` and `&str`, each with its meaning
//! stated over `Seq<char>`.

use vstd::prelude::*;
use vstd::string::*;
use vstd::relations::*;

verus! {

broadcast use vstd::seq_lib::group_seq_properties;

// ---------------------------------------------------------------------------
// Specifications
// ---------------------------------------------------------------------------

/// The characters Rust's `char::is_whitespace` accepts: the Unicode
/// `White_Space` property.
pub open spec fn is_ws(c: char) -> bool {
    let u = c as u32;
    ||| u == 0x20
    ||| (0x09 <= u && u <= 0x0d)
    ||| u == 0x85
    ||| u == 0xa0
    ||| u == 0x1680
    ||| (0x2000 <= u && u <= 0x200a)
    ||| u == 0x2028
    ||| u == 0x2029
    ||| u == 0x202f
    ||| u == 0x205f
    ||| u == 0x3000
}

/// `s` without leading whitespace.
pub open spec fn trim_start(s: Seq<char>) -> Seq<char>
    decreases s.len(),
{
    if s.len() > 0 && is_ws(s[0]) {
        trim_start(s.drop_first())
    } else {
        s
    }
}

/// `s` without trailing whitespace.
pub open spec fn trim_end(s: Seq<char>) -> Seq<char>
    decreases s.len(),
{
    if s.len() > 0 && is_ws(s.last()) {
        trim_end(s.drop_last())
    } else {
        s
    }
}

/// `s` without leading or trailing whitespace, as `str::trim` gives it.
pub open spec fn trim(s: Seq<char>) -> Seq<char> {
    trim_end(trim_start(s))
}

/// Does `p` occur in `s` at position `i`?
pub open spec fn occurs_at(s: Seq<char>, p: Seq<char>, i: int) -> bool {
    0 <= i && i + p.len() <= s.len() && s.subrange(i, i + p.len()) == p
}

/// Does `p` occur anywhere in `s`?
pub open spec fn has_infix(s: Seq<char>, p: Seq<char>) -> bool {
    exists|i: int| occurs_at(s, p, i)
}

/// Does `s` begin with `p`?
pub open spec fn has_prefix(s: Seq<char>, p: Seq<char>) -> bool {
    occurs_at(s, p, 0)
}

/// Does `s` end with `p`?
pub open spec fn has_suffix(s: Seq<char>, p: Seq<char>) -> bool {
    p.len() <= s.len() && occurs_at(s, p, s.len() - p.len())
}

/// The decimal digit for `d < 10`.
pub open spec fn digit(d: nat) -> char {
    if d == 0 { '0' }
    else if d == 1 { '1' }
    else if d == 2 { '2' }
    else if d == 3 { '3' }
    else if d == 4 { '4' }
    else if d == 5 { '5' }
    else if d == 6 { '6' }
    else if d == 7 { '7' }
    else if d == 8 { '8' }
    else { '9' }
}

/// The decimal rendering of `n`, as `{}` formats an unsigned integer.
pub open spec fn decimal(n: nat) -> Seq<char>
    decreases n,
{
    if n < 10 {
        seq![digit(n)]
    } else {
        decimal(n / 10).push(digit(n % 10))
    }
}

/// `count` copies of `c`.
pub open spec fn repeat(c: char, count: nat) -> Seq<char>
    decreases count,
{
    if count == 0 {
        Seq::empty()
    } else {
        repeat(c, (count - 1) as nat).push(c)
    }
}

/// `s` padded with spaces on the right to at least `width` characters, as
/// `{:<width}` formats a string.
pub open spec fn pad_right(s: Seq<char>, width: nat) -> Seq<char> {
    if s.len() < width {
        s + repeat(' ', (width - s.len()) as nat)
    } else {
        s
    }
}

/// The characters of each string.
pub open spec fn views(v: Seq<String>) -> Seq<Seq<char>> {
    v.map_values(|s: String| s@)
}

/// `items` joined with `sep` between neighbours.
pub open spec fn join(items: Seq<Seq<char>>, sep: Seq<char>) -> Seq<char>
    decreases items.len(),
{
    if items.len() == 0 {
        Seq::empty()
    } else if items.len() == 1 {
        items[0]
    } else {
        join(items.drop_last(), sep) + sep + items.last()
    }
}

/// Code point order on strings, which is the order Rust's `Ord for str`
/// gives (UTF-8 preserves code point order).
pub open spec fn lex_le(a: Seq<char>, b: Seq<char>) -> bool
    decreases a.len(),
{
    if a.len() == 0 {
        true
    } else if b.len() == 0 {
        false
    } else if a[0] < b[0] {
        true
    } else if a[0] == b[0] {
        lex_le(a.drop_first(), b.drop_first())
    } else {
        false
    }
}

/// Is `s` in non-decreasing code point order?
pub open spec fn is_sorted(s: Seq<Seq<char>>) -> bool {
    forall|i: int, j: int| 0 <= i < j < s.len() ==> lex_le(#[trigger] s[i], #[trigger] s[j])
}

/// `s` cut at every `c`.
pub open spec fn split_on(s: Seq<char>, c: char) -> Seq<Seq<char>>
    decreases s.len(),
{
    if s.len() == 0 {
        seq![Seq::empty()]
    } else {
        let parts = split_on(s.drop_last(), c);
        if s.last() == c {
            parts.push(Seq::empty())
        } else {
            parts.update(parts.len() - 1, parts.last().push(s.last()))
        }
    }
}

pub proof fn lemma_split_nonempty(s: Seq<char>, c: char)
    ensures
        split_on(s, c).len() >= 1,
    decreases s.len(),
{
    if s.len() > 0 {
        lemma_split_nonempty(s.drop_last(), c);
    }
}

/// The position of the first `c` in `s` (meaningful when `s` holds one).
pub open spec fn first_pos(s: Seq<char>, c: char) -> int {
    choose|i: int| 0 <= i < s.len() && s[i] == c && forall|j: int| 0 <= j < i ==> s[j] != c
}

/// `s` without any leading `c`, as `trim_start_matches(c)` gives it.
pub open spec fn strip_leading(s: Seq<char>, c: char) -> Seq<char>
    decreases s.len(),
{
    if s.len() > 0 && s[0] == c {
        strip_leading(s.drop_first(), c)
    } else {
        s
    }
}

/// `s` without any trailing `c`, as `trim_end_matches(c)` gives it.
pub open spec fn strip_trailing(s: Seq<char>, c: char) -> Seq<char>
    decreases s.len(),
{
    if s.len() > 0 && s.last() == c {
        strip_trailing(s.drop_last(), c)
    } else {
        s
    }
}

/// `s` without any repeats of the non-empty prefix `p`, as
/// `trim_start_matches(p)` gives it.
pub open spec fn strip_prefix_all(s: Seq<char>, p: Seq<char>) -> Seq<char>
    decreases s.len(),
{
    if p.len() > 0 && has_prefix(s, p) {
        strip_prefix_all(s.subrange(p.len() as int, s.len() as int), p)
    } else {
        s
    }
}

/// The bounds of `strip_leading(s[from..to], c)`.
pub fn strip_leading_bound(s: &[char], from: usize, to: usize, c: char) -> (res: usize)
    requires
        from <= to <= s@.len(),
    ensures
        from <= res <= to,
        s@.subrange(res as int, to as int) == strip_leading(s@.subrange(from as int, to as int), c),
{
    let mut i: usize = from;
    while i < to && s[i] == c
        invariant
            from <= i <= to <= s@.len(),
            strip_leading(s@.subrange(from as int, to as int), c) == strip_leading(s@.subrange(i as int, to as int), c),
        decreases to - i,
    {
        assert(s@.subrange(i as int, to as int).drop_first() =~= s@.subrange(i + 1, to as int));
        i = i + 1;
    }
    i
}

/// The bounds of `strip_trailing(s[from..to], c)`.
pub fn strip_trailing_bound(s: &[char], from: usize, to: usize, c: char) -> (res: usize)
    requires
        from <= to <= s@.len(),
    ensures
        from <= res <= to,
        s@.subrange(from as int, res as int) == strip_trailing(s@.subrange(from as int, to as int), c),
{
    let mut j: usize = to;
    while j > from && s[j - 1] == c
        invariant
            from <= j <= to <= s@.len(),
            strip_trailing(s@.subrange(from as int, to as int), c) == strip_trailing(s@.subrange(from as int, j as int), c),
        decreases j,
    {
        assert(s@.subrange(from as int, j as int).drop_last() =~= s@.subrange(from as int, j - 1));
        j = j - 1;
    }
    j
}

/// The bounds of `strip_prefix_all(s[from..to], p)`.
pub fn strip_prefix_bound(s: &[char], from: usize, to: usize, p: &[char]) -> (res: usize)
    requires
        from <= to <= s@.len(),
    ensures
        from <= res <= to,
        s@.subrange(res as int, to as int) == strip_prefix_all(s@.subrange(from as int, to as int), p@),
{
    if p.len() == 0 {
        return from;
    }
    let seg = chars_range(s, from, to);
    let mut i: usize = 0;
    assert(seg@.subrange(0, seg@.len() as int) =~= seg@);
    while i <= seg.len() && matches_at(seg.as_slice(), p, i)
        invariant
            i <= seg@.len(),
            p@.len() > 0,
            seg@ == s@.subrange(from as int, to as int),
            strip_prefix_all(seg@, p@) == strip_prefix_all(seg@.subrange(i as int, seg@.len() as int), p@),
        decreases seg@.len() - i,
    {
        let ghost rest = seg@.subrange(i as int, seg@.len() as int);
        assert(rest.subrange(0, p@.len() as int) =~= seg@.subrange(i as int, i + p@.len()));
        assert(rest.subrange(p@.len() as int, rest.len() as int) =~= seg@.subrange(i + p@.len(), seg@.len() as int));
        i = i + p.len();
    }
    proof {
        let rest = seg@.subrange(i as int, seg@.len() as int);
        if has_prefix(rest, p@) {
            assert(rest.subrange(0, p@.len() as int) =~= seg@.subrange(i as int, i + p@.len()));
        }
        assert(s@.subrange(from + i, to as int) =~= rest);
    }
    from + i
}

/// `s` cut at every `c`, as `split(c)` gives it.
pub fn split_chars(s: &[char], c: char) -> (res: Vec<Vec<char>>)
    ensures
        res@.map_values(|v: Vec<char>| v@) == split_on(s@, c),
{
    let mut out: Vec<Vec<char>> = Vec::new();
    let mut cur: Vec<char> = Vec::new();
    let mut i: usize = 0;
    proof { lemma_split_nonempty(Seq::<char>::empty(), c); }
    while i < s.len()
        invariant
            i <= s@.len(),
            split_on(s@.subrange(0, i as int), c).len() >= 1,
            split_on(s@.subrange(0, i as int), c).last() == cur@,
            out@.map_values(|v: Vec<char>| v@) == split_on(s@.subrange(0, i as int), c).drop_last(),
        decreases s.len() - i,
    {
        let ghost pre = s@.subrange(0, i as int);
        let ghost post = s@.subrange(0, i + 1);
        assert(post.drop_last() =~= pre);
        assert(post.last() == s@[i as int]);
        if s[i] == c {
            let ghost prev = out@;
            out.push(cur);
            proof {
                let parts = split_on(pre, c);
                assert(out@.map_values(|v: Vec<char>| v@) =~= prev.map_values(|v: Vec<char>| v@).push(parts.last()));
                assert(split_on(post, c).drop_last() =~= parts);
                assert(parts.drop_last().push(parts.last()) =~= parts);
            }
            cur = Vec::new();
        } else {
            cur.push(s[i]);
            proof {
                let parts = split_on(pre, c);
                let np = split_on(post, c);
                assert(np.drop_last() =~= parts.drop_last());
            }
        }
        i = i + 1;
    }
    assert(s@.subrange(0, s@.len() as int) =~= s@);
    let ghost prev = out@;
    out.push(cur);
    proof {
        let parts = split_on(s@, c);
        assert(out@.map_values(|v: Vec<char>| v@) =~= prev.map_values(|v: Vec<char>| v@).push(parts.last()));
        assert(parts.drop_last().push(parts.last()) =~= parts);
    }
    out
}

/// The order [`lex_le`] as a relation.
pub open spec fn lex_order() -> spec_fn(Seq<char>, Seq<char>) -> bool {
    |a: Seq<char>, b: Seq<char>| lex_le(a, b)
}

/// `s` sorted into code point order.
pub open spec fn sorted_text(s: Seq<Seq<char>>) -> Seq<Seq<char>> {
    s.sort_by(lex_order())
}

/// What `str::to_lowercase` returns for the given characters.
pub uninterp spec fn lowercase(s: Seq<char>) -> Seq<char>;

// ---------------------------------------------------------------------------
// Lemmas on the order
// ---------------------------------------------------------------------------

pub proof fn lemma_lex_total(a: Seq<char>, b: Seq<char>)
    ensures
        lex_le(a, b) || lex_le(b, a),
    decreases a.len(),
{
    if a.len() > 0 && b.len() > 0 {
        if a[0] == b[0] {
            lemma_lex_total(a.drop_first(), b.drop_first());
        } else {
            assert(a[0] < b[0] || b[0] < a[0]);
        }
    }
}

pub proof fn lemma_lex_antisym(a: Seq<char>, b: Seq<char>)
    requires
        lex_le(a, b),
        lex_le(b, a),
    ensures
        a == b,
    decreases a.len(),
{
    if a.len() > 0 && b.len() > 0 {
        lemma_lex_antisym(a.drop_first(), b.drop_first());
        assert(a =~= seq![a[0]] + a.drop_first());
        assert(b =~= seq![b[0]] + b.drop_first());
    }
}

pub proof fn lemma_lex_trans(a: Seq<char>, b: Seq<char>, c: Seq<char>)
    requires
        lex_le(a, b),
        lex_le(b, c),
    ensures
        lex_le(a, c),
    decreases a.len(),
{
    if a.len() > 0 && b.len() > 0 && c.len() > 0 && a[0] == b[0] && b[0] == c[0] {
        lemma_lex_trans(a.drop_first(), b.drop_first(), c.drop_first());
    }
}

pub proof fn lemma_lex_refl(a: Seq<char>)
    ensures
        lex_le(a, a),
    decreases a.len(),
{
    if a.len() > 0 {
        lemma_lex_refl(a.drop_first());
    }
}

pub proof fn lemma_lex_total_ordering()
    ensures
        total_ordering(|a: Seq<char>, b: Seq<char>| lex_le(a, b)),
{
    assert forall|a: Seq<char>| lex_le(a, a) by { lemma_lex_refl(a); }
    assert forall|a: Seq<char>, b: Seq<char>| #[trigger] lex_le(a, b) && #[trigger] lex_le(b, a) implies a == b by {
        lemma_lex_antisym(a, b);
    }
    assert forall|a: Seq<char>, b: Seq<char>, c: Seq<char>| #[trigger] lex_le(a, b) && #[trigger] lex_le(b, c) implies lex_le(a, c) by {
        lemma_lex_trans(a, b, c);
    }
    assert forall|a: Seq<char>, b: Seq<char>| #[trigger] lex_le(a, b) || lex_le(b, a) by {
        lemma_lex_total(a, b);
    }
}

/// Two sorted sequences holding the same strings are equal.
pub proof fn lemma_sorted_unique(a: Seq<Seq<char>>, b: Seq<Seq<char>>)
    requires
        is_sorted(a),
        is_sorted(b),
        a.to_multiset() == b.to_multiset(),
    ensures
        a == b,
    decreases a.len(),
{
    broadcast use vstd::seq_lib::group_to_multiset_ensures;
    assert(a.len() == a.to_multiset().len());
    assert(b.len() == b.to_multiset().len());
    if a.len() == 0 {
        assert(a =~= b);
    } else {
        assert(b.contains(a[0])) by {
            assert(a.contains(a[0]));
            assert(a.to_multiset().count(a[0]) > 0);
        }
        assert(a.contains(b[0])) by {
            assert(b.contains(b[0]));
            assert(b.to_multiset().count(b[0]) > 0);
        }
        let k = choose|k: int| 0 <= k < b.len() && b[k] == a[0];
        let m = choose|m: int| 0 <= m < a.len() && a[m] == b[0];
        if k > 0 { assert(lex_le(b[0], b[k])); } else { lemma_lex_refl(b[0]); }
        if m > 0 { assert(lex_le(a[0], a[m])); } else { lemma_lex_refl(a[0]); }
        lemma_lex_antisym(a[0], b[0]);
        assert(a.remove(0) =~= a.drop_first());
        assert(b.remove(0) =~= b.drop_first());
        assert(a.drop_first().to_multiset() == b.drop_first().to_multiset());
        assert(is_sorted(a.drop_first())) by {
            assert forall|i: int, j: int| 0 <= i < j < a.drop_first().len() implies lex_le(#[trigger] a.drop_first()[i], #[trigger] a.drop_first()[j]) by {
                assert(a.drop_first()[i] == a[i + 1]);
                assert(a.drop_first()[j] == a[j + 1]);
            }
        }
        assert(is_sorted(b.drop_first())) by {
            assert forall|i: int, j: int| 0 <= i < j < b.drop_first().len() implies lex_le(#[trigger] b.drop_first()[i], #[trigger] b.drop_first()[j]) by {
                assert(b.drop_first()[i] == b[i + 1]);
                assert(b.drop_first()[j] == b[j + 1]);
            }
        }
        lemma_sorted_unique(a.drop_first(), b.drop_first());
        assert(a =~= b) by {
            assert forall|i: int| 0 <= i < a.len() implies a[i] == b[i] by {
                if i > 0 {
                    assert(a[i] == a.drop_first()[i - 1]);
                    assert(b[i] == b.drop_first()[i - 1]);
                }
            }
        }
    }
}

/// A sorted rearrangement of `input` is `sorted_text(input)`.
pub proof fn lemma_is_sorted_text(out: Seq<Seq<char>>, input: Seq<Seq<char>>)
    requires
        is_sorted(out),
        out.to_multiset() == input.to_multiset(),
    ensures
        out == sorted_text(input),
{
    lemma_lex_total_ordering();
    input.lemma_sort_by_ensures(lex_order());
    let t = sorted_text(input);
    assert(is_sorted(t)) by {
        assert forall|i: int, j: int| 0 <= i < j < t.len() implies lex_le(#[trigger] t[i], #[trigger] t[j]) by {
            assert((lex_order())(t[i], t[j]));
        }
    }
    lemma_sorted_unique(out, t);
}

pub proof fn lemma_decimal_nonempty(n: nat)
    ensures
        decimal(n).len() >= 1,
    decreases n,
{
    if n >= 10 {
        lemma_decimal_nonempty(n / 10);
    }
}

// ---------------------------------------------------------------------------
// Executable helpers
// ---------------------------------------------------------------------------

/// Appends one character, by `String::push`.
#[verifier::external_body]
pub(crate) fn push_char(s: &mut String, c: char)
    ensures
        final(s)@ == old(s)@.push(c),
{
    s.push(c);
}

/// `str::to_lowercase`.
#[verifier::external_body]
pub(crate) fn to_lowercase(s: &str) -> (res: String)
    ensures
        res@ == lowercase(s@),
{
    s.to_lowercase()
}

/// Appends the characters of `other`.
pub fn push_str(s: &mut String, other: &str)
    ensures
        final(s)@ == old(s)@ + other@,
{
    s.append(other);
}

/// A new `String` with the characters of a `&str`.
pub fn owned(s: &str) -> (res: String)
    ensures
        res@ == s@,
{
    String::from_str(s)
}

/// The characters of `s`, in order.
pub fn str_chars(s: &str) -> (res: Vec<char>)
    ensures
        res@ == s@,
{
    let n = s.unicode_len();
    let mut out: Vec<char> = Vec::new();
    let mut i: usize = 0;
    while i < n
        invariant
            n == s@.len(),
            i <= n,
            out@ == s@.subrange(0, i as int),
        decreases n - i,
    {
        out.push(s.get_char(i));
        i = i + 1;
    }
    out
}

/// A `String` holding exactly the given characters.
pub fn string_from_chars(v: &[char]) -> (res: String)
    ensures
        res@ == v@,
{
    let mut out = String::new();
    let mut i: usize = 0;
    while i < v.len()
        invariant
            i <= v@.len(),
            out@ == v@.subrange(0, i as int),
        decreases v.len() - i,
    {
        push_char(&mut out, v[i]);
        i = i + 1;
    }
    out
}

/// A `String` holding `v[from..to]`.
pub fn string_from_range(v: &[char], from: usize, to: usize) -> (res: String)
    requires
        from <= to <= v@.len(),
    ensures
        res@ == v@.subrange(from as int, to as int),
{
    let mut out = String::new();
    let mut i: usize = from;
    while i < to
        invariant
            from <= i <= to <= v@.len(),
            out@ == v@.subrange(from as int, i as int),
        decreases to - i,
    {
        push_char(&mut out, v[i]);
        i = i + 1;
    }
    out
}

/// A copy of `v[from..to]`.
pub fn chars_range(v: &[char], from: usize, to: usize) -> (res: Vec<char>)
    requires
        from <= to <= v@.len(),
    ensures
        res@ == v@.subrange(from as int, to as int),
{
    let mut out: Vec<char> = Vec::new();
    let mut i: usize = from;
    while i < to
        invariant
            from <= i <= to <= v@.len(),
            out@ == v@.subrange(from as int, i as int),
        decreases to - i,
    {
        out.push(v[i]);
        i = i + 1;
    }
    out
}

/// Character-wise equality.
pub fn chars_eq(a: &[char], b: &[char]) -> (res: bool)
    ensures
        res == (a@ == b@),
{
    if a.len() != b.len() {
        return false;
    }
    let mut i: usize = 0;
    while i < a.len()
        invariant
            a@.len() == b@.len(),
            i <= a@.len(),
            forall|k: int| 0 <= k < i ==> a@[k] == b@[k],
        decreases a.len() - i,
    {
        if a[i] != b[i] {
            return false;
        }
        i = i + 1;
    }
    assert(a@ =~= b@);
    true
}

/// Equality of two `&str` by their characters.
pub fn str_eq(a: &str, b: &str) -> (res: bool)
    ensures
        res == (a@ == b@),
{
    let x = str_chars(a);
    let y = str_chars(b);
    chars_eq(x.as_slice(), y.as_slice())
}

/// Is `c` whitespace in the sense of `char::is_whitespace`?
pub fn is_whitespace(c: char) -> (res: bool)
    ensures
        res == is_ws(c),
{
    let u = c as u32;
    u == 0x20 || (0x09 <= u && u <= 0x0d) || u == 0x85 || u == 0xa0 || u == 0x1680
        || (0x2000 <= u && u <= 0x200a) || u == 0x2028 || u == 0x2029 || u == 0x202f
        || u == 0x205f || u == 0x3000
}

proof fn lemma_trim_start_skip(s: Seq<char>, i: int)
    requires
        0 <= i < s.len(),
        is_ws(s[i]),
    ensures
        trim_start(s.subrange(i, s.len() as int)) == trim_start(s.subrange(i + 1, s.len() as int)),
{
    assert(s.subrange(i, s.len() as int).drop_first() =~= s.subrange(i + 1, s.len() as int));
}

proof fn lemma_trim_end_skip(s: Seq<char>, i: int, j: int)
    requires
        0 <= i < j <= s.len(),
        is_ws(s[j - 1]),
    ensures
        trim_end(s.subrange(i, j)) == trim_end(s.subrange(i, j - 1)),
{
    assert(s.subrange(i, j).drop_last() =~= s.subrange(i, j - 1));
}

/// The bounds of `trim(s)` within `s`.
pub fn trim_bounds(s: &[char]) -> (res: (usize, usize))
    ensures
        res.0 <= res.1 <= s@.len(),
        s@.subrange(res.0 as int, res.1 as int) == trim(s@),
{
    let n = s.len();
    let mut i: usize = 0;
    assert(s@.subrange(0, n as int) =~= s@);
    while i < n && is_whitespace(s[i])
        invariant
            i <= n == s@.len(),
            trim_start(s@) == trim_start(s@.subrange(i as int, n as int)),
        decreases n - i,
    {
        proof { lemma_trim_start_skip(s@, i as int); }
        i = i + 1;
    }
    let ghost t = s@.subrange(i as int, n as int);
    assert(trim_start(t) == t);
    let mut j: usize = n;
    while j > i && is_whitespace(s[j - 1])
        invariant
            i <= j <= n == s@.len(),
            trim(s@) == trim_end(s@.subrange(i as int, j as int)),
        decreases j,
    {
        proof { lemma_trim_end_skip(s@, i as int, j as int); }
        j = j - 1;
    }
    (i, j)
}

/// `str::trim`, returning a new `String`.
pub fn trim_str(s: &str) -> (res: String)
    ensures
        res@ == trim(s@),
{
    let v = str_chars(s);
    let (a, b) = trim_bounds(v.as_slice());
    string_from_range(v.as_slice(), a, b)
}

/// Does `p` occur in `s` at position `i`?
pub fn matches_at(s: &[char], p: &[char], i: usize) -> (res: bool)
    ensures
        res == occurs_at(s@, p@, i as int),
{
    if i > s.len() || p.len() > s.len() - i {
        return false;
    }
    assert(i + p.len() <= s.len());
    let mut k: usize = 0;
    while k < p.len()
        invariant
            i + p@.len() <= s@.len(),
            s@.len() == s.len(),
            p@.len() == p.len(),
            k <= p@.len(),
            forall|m: int| 0 <= m < k ==> s@[i + m] == p@[m],
        decreases p.len() - k,
    {
        if s[i + k] != p[k] {
            assert(s@.subrange(i as int, i + p@.len())[k as int] != p@[k as int]);
            return false;
        }
        k = k + 1;
    }
    assert(s@.subrange(i as int, i + p@.len()) =~= p@);
    true
}

/// The first position at which `p` occurs in `s`.
pub fn find_infix(s: &[char], p: &[char]) -> (res: Option<usize>)
    ensures
        match res {
            Some(i) => occurs_at(s@, p@, i as int) && forall|j: int| 0 <= j < i ==> !occurs_at(s@, p@, j),
            None => !has_infix(s@, p@),
        },
{
    if p.len() > s.len() {
        return None;
    }
    let last = s.len() - p.len();
    let mut i: usize = 0;
    while i <= last
        invariant_except_break
            last + p@.len() == s@.len(),
            i <= last,
            forall|j: int| 0 <= j < i ==> !occurs_at(s@, p@, j),
        ensures
            forall|j: int| 0 <= j <= last ==> !occurs_at(s@, p@, j),
        decreases last - i,
    {
        if matches_at(s, p, i) {
            return Some(i);
        }
        if i == last {
            break;
        }
        i = i + 1;
    }
    None
}

/// Does `p` occur in `s`?
pub fn contains_chars(s: &[char], p: &[char]) -> (res: bool)
    ensures
        res == has_infix(s@, p@),
{
    find_infix(s, p).is_some()
}

/// Does the literal `p` occur in `s`?
pub fn str_contains(s: &str, p: &str) -> (res: bool)
    ensures
        res == has_infix(s@, p@),
{
    let a = str_chars(s);
    let b = str_chars(p);
    contains_chars(a.as_slice(), b.as_slice())
}

/// Does `s` begin with `p`?
pub fn str_starts_with(s: &str, p: &str) -> (res: bool)
    ensures
        res == has_prefix(s@, p@),
{
    let a = str_chars(s);
    let b = str_chars(p);
    matches_at(a.as_slice(), b.as_slice(), 0)
}

/// The first position of `c` in `s`.
pub fn find_char(s: &[char], c: char) -> (res: Option<usize>)
    ensures
        match res {
            Some(i) => i < s@.len() && s@[i as int] == c && forall|j: int| 0 <= j < i ==> s@[j] != c,
            None => !s@.contains(c),
        },
{
    let mut i: usize = 0;
    while i < s.len()
        invariant
            i <= s@.len(),
            forall|j: int| 0 <= j < i ==> s@[j] != c,
        decreases s.len() - i,
    {
        if s[i] == c {
            return Some(i);
        }
        i = i + 1;
    }
    None
}

/// The character for the digit `d`.
pub fn digit_char(d: u64) -> (res: char)
    requires
        d < 10,
    ensures
        res == digit(d as nat),
{
    if d == 0 { '0' }
    else if d == 1 { '1' }
    else if d == 2 { '2' }
    else if d == 3 { '3' }
    else if d == 4 { '4' }
    else if d == 5 { '5' }
    else if d == 6 { '6' }
    else if d == 7 { '7' }
    else if d == 8 { '8' }
    else { '9' }
}

/// Appends the decimal rendering of `n`.
pub fn push_decimal(s: &mut String, n: u64)
    ensures
        final(s)@ == old(s)@ + decimal(n as nat),
    decreases n,
{
    if n >= 10 {
        push_decimal(s, n / 10);
    }
    push_char(s, digit_char(n % 10));
    proof {
        if n >= 10 {
            assert(decimal(n as nat) == decimal((n / 10) as nat).push(digit((n % 10) as nat)));
        }
    }
}

/// Appends `s` padded with spaces on the right to `width` characters.
pub fn push_padded(out: &mut String, s: &str, width: usize)
    ensures
        final(out)@ == old(out)@ + pad_right(s@, width as nat),
{
    let n = s.unicode_len();
    push_str(out, s);
    let mut k: usize = n;
    let ghost start = old(out)@ + s@;
    assert(repeat(' ', 0) =~= Seq::<char>::empty());
    while k < width
        invariant
            n == s@.len(),
            n <= k <= width || (k == n && n >= width),
            out@ == start + repeat(' ', (k - n) as nat),
        decreases width - k,
    {
        push_char(out, ' ');
        proof {
            assert(repeat(' ', (k + 1 - n) as nat) == repeat(' ', (k - n) as nat).push(' '));
        }
        k = k + 1;
    }
    proof {
        if n < width {
            assert(k == width);
        } else {
            assert(out@ =~= old(out)@ + s@);
        }
    }
}

/// Appends `items` joined with `sep`.
pub fn push_joined(out: &mut String, items: &[String], sep: &str)
    ensures
        final(out)@ == old(out)@ + join(views(items@), sep@),
{
    let ghost start = out@;
    let mut i: usize = 0;
    while i < items.len()
        invariant
            i <= items@.len(),
            out@ == start + join(views(items@.subrange(0, i as int)), sep@),
        decreases items.len() - i,
    {
        if i > 0 {
            push_str(out, sep);
        }
        push_str(out, items[i].as_str());
        proof {
            let s = views(items@.subrange(0, i + 1));
            assert(s.drop_last() =~= views(items@.subrange(0, i as int)));
            assert(s.last() == items@[i as int]@);
            if i == 0 {
                assert(views(items@.subrange(0, 0)) =~= Seq::<Seq<char>>::empty());
            }
        }
        i = i + 1;
    }
    assert(items@.subrange(0, items@.len() as int) =~= items@);
}

/// A copy of a list of strings.
pub fn copy_strings(v: &Vec<String>) -> (res: Vec<String>)
    ensures
        res@ == v@,
{
    let mut out: Vec<String> = Vec::new();
    let mut i: usize = 0;
    while i < v.len()
        invariant
            i <= v@.len(),
            out@ == v@.subrange(0, i as int),
        decreases v.len() - i,
    {
        out.push(v[i].clone());
        i = i + 1;
    }
    out
}

/// Is `s` one of the strings in `v`?
pub fn contains_string(v: &[String], s: &String) -> (res: bool)
    ensures
        res == views(v@).contains(s@),
{
    let mut i: usize = 0;
    while i < v.len()
        invariant
            i <= v@.len(),
            forall|j: int| 0 <= j < i ==> v@[j]@ != s@,
        decreases v.len() - i,
    {
        if v[i] == *s {
            assert(views(v@)[i as int] == s@);
            return true;
        }
        i = i + 1;
    }
    assert(!views(v@).contains(s@)) by {
        if views(v@).contains(s@) {
            let j = choose|j: int| 0 <= j < views(v@).len() && views(v@)[j] == s@;
            assert(v@[j]@ == s@);
        }
    }
    false
}

/// Code point order on two strings.
pub fn string_le(a: &String, b: &String) -> (res: bool)
    ensures
        res == lex_le(a@, b@),
{
    let x = str_chars(a.as_str());
    let y = str_chars(b.as_str());
    let mut i: usize = 0;
    assert(a@.subrange(0, a@.len() as int) =~= a@);
    assert(b@.subrange(0, b@.len() as int) =~= b@);
    while i < x.len() && i < y.len() && x[i] == y[i]
        invariant
            i <= x@.len(),
            i <= y@.len(),
            x@ == a@,
            y@ == b@,
            lex_le(a@, b@) == lex_le(a@.subrange(i as int, a@.len() as int), b@.subrange(i as int, b@.len() as int)),
        decreases x.len() - i,
    {
        assert(a@.subrange(i as int, a@.len() as int).drop_first() =~= a@.subrange(i + 1, a@.len() as int));
        assert(b@.subrange(i as int, b@.len() as int).drop_first() =~= b@.subrange(i + 1, b@.len() as int));
        i = i + 1;
    }
    if i == x.len() {
        true
    } else if i == y.len() {
        false
    } else {
        x[i] < y[i]
    }
}

/// Sorts strings into code point order, as `sort` on `Vec<String>` does.
pub fn sort_strings(v: Vec<String>) -> (res: Vec<String>)
    ensures
        views(res@) == sorted_text(views(v@)),
{
    broadcast use vstd::seq_lib::group_to_multiset_ensures;
    let mut out: Vec<String> = Vec::new();
    let mut i: usize = 0;
    while i < v.len()
        invariant
            i <= v@.len(),
            is_sorted(views(out@)),
            views(out@).to_multiset() == views(v@.subrange(0, i as int)).to_multiset(),
        decreases v.len() - i,
    {
        let x = v[i].clone();
        // Find the first position whose element is greater than x.
        let mut p: usize = 0;
        while p < out.len() && string_le(&out[p], &x)
            invariant
                p <= out@.len(),
                forall|k: int| 0 <= k < p ==> lex_le(#[trigger] out@[k]@, x@),
            decreases out.len() - p,
        {
            p = p + 1;
        }
        let ghost before = out@;
        proof {
            if p < out@.len() {
                lemma_lex_total(out@[p as int]@, x@);
            }
        }
        out.insert(p, x);
        proof {
            let vb = views(before);
            let va = views(out@);
            assert(va =~= vb.insert(p as int, x@));
            assert forall|a: int, b: int| 0 <= a < b < va.len() implies lex_le(#[trigger] va[a], #[trigger] va[b]) by {
                if a < p && b < p {
                } else if a < p && b == p {
                } else if a < p && b > p {
                    assert(va[b] == vb[b - 1]);
                } else if a == p {
                    assert(va[b] == vb[b - 1]);
                    if p < b - 1 {
                        lemma_lex_trans(x@, vb[p as int], vb[b - 1]);
                    }
                } else {
                    assert(va[a] == vb[a - 1]);
                    assert(va[b] == vb[b - 1]);
                }
            }
            assert(va.remove(p as int) =~= vb);
            assert(va.to_multiset().remove(x@) == vb.to_multiset());
            assert(va.to_multiset().count(x@) > 0) by { assert(va.contains(x@)) by { assert(va[p as int] == x@); } }
            assert(va.to_multiset() =~= vb.to_multiset().insert(x@));
            let prefix = v@.subrange(0, i as int);
            assert(v@.subrange(0, i + 1) =~= prefix.push(v@[i as int]));
            assert(views(v@.subrange(0, i + 1)) =~= views(prefix).push(x@));
        }
        i = i + 1;
    }
    assert(v@.subrange(0, v@.len() as int) =~= v@);
    proof { lemma_is_sorted_text(views(out@), views(v@)); }
    out
}


/// Every item of a list occurs in its join, at the returned position.
pub proof fn lemma_join_holds_each(items: Seq<Seq<char>>, sep: Seq<char>, k: int) -> (pos: int)
    requires
        0 <= k < items.len(),
    ensures
        occurs_at(join(items, sep), items[k], pos),
    decreases items.len(),
{
    let j = join(items, sep);
    if items.len() == 1 {
        assert(j.subrange(0, items[0].len() as int) =~= items[0]);
        0
    } else if k == items.len() - 1 {
        let front = join(items.drop_last(), sep) + sep;
        assert(j == front + items.last());
        assert(j.subrange(front.len() as int, (front.len() + items.last().len()) as int) =~= items.last());
        front.len() as int
    } else {
        let front = join(items.drop_last(), sep);
        let p = lemma_join_holds_each(items.drop_last(), sep, k);
        assert(items.drop_last()[k] == items[k]);
        assert(j == front + (sep + items.last()));
        assert(j.subrange(p, p + items[k].len()) =~= front.subrange(p, p + items[k].len()));
        p
    }
}

} // verus!
