//! Code transformation: TypeScript type stripping, a minimal JSX lowering,
//! CSS wrapping, and JSON module wrapping.
//!
//! Each transform is a pure function of the source text; the spec functions
//! here state the exact rewriting, character by character.

use vstd::prelude::*;

verus! {

use crate::config::Config;
use crate::errors::BuildError;
use crate::extract::{find_char_from, is_ws, skip_ws};
use crate::graph::ModuleType;
use crate::json::{json_is_valid, json_valid};
use crate::strutil::{chars_to_string, is_prefix_of, push_chars, push_str_chars, str_to_chars};
use vstd::string::StringExecFns;

// ---------------------------------------------------------------------------
// TypeScript type stripping
// ---------------------------------------------------------------------------

/// Lowercase type keywords that mark a `:`-annotation for removal.
pub open spec fn is_type_keyword_start(t: Seq<char>) -> bool {
    ||| is_prefix_of("string"@, t)
    ||| is_prefix_of("number"@, t)
    ||| is_prefix_of("boolean"@, t)
    ||| is_prefix_of("any"@, t)
    ||| is_prefix_of("void"@, t)
    ||| is_prefix_of("never"@, t)
    ||| is_prefix_of("unknown"@, t)
    ||| is_prefix_of("null"@, t)
    ||| is_prefix_of("undefined"@, t)
    ||| (t.len() > 0 && 'A' <= t[0] && t[0] <= 'Z')
}

/// Where a `:` type annotation ends: after bracket-balanced text, at the
/// first top-level `=`, `,`, `{`, `;` or newline, which is kept.
pub open spec fn skip_type_end(s: Seq<char>, j: int, d: int) -> int
    decreases s.len() - j,
{
    if j < 0 || j >= s.len() {
        if j < 0 {
            0
        } else {
            j
        }
    } else {
        let c = s[j];
        if c == '<' || c == '(' || c == '[' {
            skip_type_end(s, j + 1, d + 1)
        } else if c == '>' || c == ')' || c == ']' {
            skip_type_end(s, j + 1, d - 1)
        } else if d == 0 && (c == '=' || c == ',' || c == '{' || c == ';' || c == '\n') {
            j
        } else {
            skip_type_end(s, j + 1, d)
        }
    }
}

/// Where a brace-balanced block ends, starting just inside it.
pub open spec fn skip_braces(s: Seq<char>, j: int, depth: int) -> int
    decreases s.len() - j,
{
    if j < 0 || j >= s.len() {
        if j < 0 {
            0
        } else {
            j
        }
    } else if s[j] == '{' {
        skip_braces(s, j + 1, depth + 1)
    } else if s[j] == '}' {
        if depth == 1 {
            j + 1
        } else {
            skip_braces(s, j + 1, depth - 1)
        }
    } else {
        skip_braces(s, j + 1, depth)
    }
}

/// Where a `type` alias statement ends: after the first `;` or newline.
pub open spec fn skip_stmt_end(s: Seq<char>, j: int) -> int
    decreases s.len() - j,
{
    if j < 0 || j >= s.len() {
        if j < 0 {
            0
        } else {
            j
        }
    } else if s[j] == ';' || s[j] == '\n' {
        j + 1
    } else {
        skip_stmt_end(s, j + 1)
    }
}

/// Where an `as Type` cast's type name ends: bracket-balanced, stopping at
/// top-level whitespace, `,`, `;` or `}`, which is kept.
pub open spec fn skip_cast_end(s: Seq<char>, j: int, d: int) -> int
    decreases s.len() - j,
{
    if j < 0 || j >= s.len() {
        if j < 0 {
            0
        } else {
            j
        }
    } else {
        let c = s[j];
        if c == '<' || c == '(' {
            skip_cast_end(s, j + 1, d + 1)
        } else if c == '>' || c == ')' {
            skip_cast_end(s, j + 1, d - 1)
        } else if d == 0 && (is_ws(c) || c == ',' || c == ';' || c == '}') {
            j
        } else {
            skip_cast_end(s, j + 1, d)
        }
    }
}

/// Whether the `:` at position `i` opens a type annotation: followed by a
/// space and then (within the next 50 characters) a type keyword or an
/// uppercase initial.
pub open spec fn colon_annotation(s: Seq<char>, i: int) -> bool {
    let hi = if i + 51 <= s.len() { i + 51 } else { s.len() as int };
    let rest = s.subrange(i + 1, hi);
    rest.len() > 0 && rest[0] == ' ' && is_type_keyword_start(
        rest.subrange(skip_ws(rest, 0), rest.len() as int),
    )
}

/// The TypeScript stripping scan: string and template literals pass through,
/// `: Type` annotations, `interface` blocks, `type` aliases and `as Type`
/// casts are removed, everything else is copied.
pub open spec fn strip_ts(
    s: Seq<char>,
    i: int,
    in_str: Option<char>,
    tmpl: Option<int>,
    acc: Seq<char>,
) -> Seq<char>
    decreases s.len() - i,
{
    if i < 0 || i >= s.len() {
        acc
    } else {
        let c = s[i];
        if tmpl is None && (c == '"' || c == '\'') {
            let ns = if in_str is None {
                Some(c)
            } else if in_str->0 == c {
                None
            } else {
                in_str
            };
            strip_ts(s, i + 1, ns, tmpl, acc.push(c))
        } else if c == '`' {
            let nt: Option<int> = if tmpl is None {
                Some(0)
            } else if tmpl->0 == 0 {
                None
            } else {
                tmpl
            };
            strip_ts(s, i + 1, in_str, nt, acc.push(c))
        } else if in_str is Some || tmpl is Some {
            let nt: Option<int> = if tmpl is Some && c == '{' {
                Some(tmpl->0 + 1)
            } else if tmpl is Some && c == '}' {
                Some(tmpl->0 - 1)
            } else {
                tmpl
            };
            strip_ts(s, i + 1, in_str, nt, acc.push(c))
        } else if c == ':' && colon_annotation(s, i) {
            let e = skip_type_end(s, i + 1, 0);
            strip_ts(s, if i < e && e <= s.len() { e } else { i + 1 }, in_str, tmpl, acc)
        } else if c == 'i' && i + 10 <= s.len() && s.subrange(i, i + 10) == "interface "@ {
            let f = find_char_from(s, i, '{');
            let e = if f >= 0 {
                skip_braces(s, f + 1, 1)
            } else {
                s.len() as int
            };
            strip_ts(s, if i < e && e <= s.len() { e } else { i + 1 }, in_str, tmpl, acc)
        } else if c == 't' && i + 5 <= s.len() && s.subrange(i, i + 5) == "type "@ {
            let e = skip_stmt_end(s, i + 1);
            strip_ts(s, if i < e && e <= s.len() { e } else { i + 1 }, in_str, tmpl, acc)
        } else if c == ' ' && i + 4 <= s.len() && s.subrange(i + 1, i + 4) == "as "@ {
            let e = skip_cast_end(s, i + 4, 0);
            strip_ts(s, if i < e && e <= s.len() { e } else { i + 1 }, in_str, tmpl, acc.push(' '))
        } else {
            strip_ts(s, i + 1, in_str, tmpl, acc.push(c))
        }
    }
}

/// What TypeScript stripping returns for a whole source.
pub open spec fn strip_ts_spec(s: Seq<char>) -> Seq<char> {
    strip_ts(s, 0, None, None, Seq::empty())
}

spec fn tmpl_view(t: Option<i128>) -> Option<int> {
    match t {
        Some(d) => Some(d as int),
        None => None,
    }
}

pub(crate) fn prefix_at(s: &Vec<char>, i: usize, w: &str) -> (r: bool)
    requires
        i <= s.len(),
    ensures
        r == (i + w@.len() <= s@.len() && s@.subrange(i as int, i as int + w@.len()) == w@),
{
    let wv = str_to_chars(w);
    if wv.len() > s.len() - i {
        return false;
    }
    let mut k: usize = 0;
    while k < wv.len()
        invariant
            i + wv.len() <= s.len(),
            wv@ == w@,
            k <= wv.len(),
            forall|t: int| 0 <= t < k ==> s@[i + t] == wv@[t],
        decreases wv.len() - k,
    {
        if s[i + k] != wv[k] {
            assert(s@.subrange(i as int, i as int + w@.len())[k as int] != w@[k as int]);
            return false;
        }
        k = k + 1;
    }
    assert(s@.subrange(i as int, i as int + w@.len()) =~= w@);
    true
}

fn e_skip_type_end(s: &Vec<char>, j0: usize, d0: i128) -> (r: usize)
    requires
        j0 <= s.len(),
        -(j0 as int) - 1 <= d0 as int <= j0 as int + 1,
    ensures
        r as int == skip_type_end(s@, j0 as int, d0 as int),
        j0 <= r <= s.len(),
{
    let mut j = j0;
    let mut d: i128 = d0;
    while j < s.len()
        invariant
            j0 <= j <= s.len(),
            -(j as int) - 1 <= d as int <= j as int + 1,
            skip_type_end(s@, j0 as int, d0 as int) == skip_type_end(s@, j as int, d as int),
        decreases s.len() - j,
    {
        let c = s[j];
        if c == '<' || c == '(' || c == '[' {
            d = d + 1;
            j = j + 1;
        } else if c == '>' || c == ')' || c == ']' {
            d = d - 1;
            j = j + 1;
        } else if d == 0 && (c == '=' || c == ',' || c == '{' || c == ';' || c == '\n') {
            return j;
        } else {
            j = j + 1;
        }
    }
    j
}

fn e_skip_braces(s: &Vec<char>, j0: usize, depth0: i128) -> (r: usize)
    requires
        j0 <= s.len(),
        1 <= depth0 as int <= j0 as int + 1,
    ensures
        r as int == skip_braces(s@, j0 as int, depth0 as int),
        j0 <= r <= s.len(),
{
    let mut j = j0;
    let mut depth: i128 = depth0;
    while j < s.len()
        invariant
            j0 <= j <= s.len(),
            1 <= depth as int <= j as int + 1,
            skip_braces(s@, j0 as int, depth0 as int) == skip_braces(s@, j as int, depth as int),
        decreases s.len() - j,
    {
        let c = s[j];
        if c == '{' {
            depth = depth + 1;
            j = j + 1;
        } else if c == '}' {
            if depth == 1 {
                return j + 1;
            }
            depth = depth - 1;
            j = j + 1;
        } else {
            j = j + 1;
        }
    }
    j
}

fn e_skip_stmt_end(s: &Vec<char>, j0: usize) -> (r: usize)
    requires
        j0 <= s.len(),
    ensures
        r as int == skip_stmt_end(s@, j0 as int),
        j0 <= r <= s.len(),
{
    let mut j = j0;
    while j < s.len()
        invariant
            j0 <= j <= s.len(),
            skip_stmt_end(s@, j0 as int) == skip_stmt_end(s@, j as int),
        decreases s.len() - j,
    {
        if s[j] == ';' || s[j] == '\n' {
            return j + 1;
        }
        j = j + 1;
    }
    j
}

fn e_skip_cast_end(s: &Vec<char>, j0: usize, d0: i128) -> (r: usize)
    requires
        j0 <= s.len(),
        -(j0 as int) - 1 <= d0 as int <= j0 as int + 1,
    ensures
        r as int == skip_cast_end(s@, j0 as int, d0 as int),
        j0 <= r <= s.len(),
{
    let mut j = j0;
    let mut d: i128 = d0;
    while j < s.len()
        invariant
            j0 <= j <= s.len(),
            -(j as int) - 1 <= d as int <= j as int + 1,
            skip_cast_end(s@, j0 as int, d0 as int) == skip_cast_end(s@, j as int, d as int),
        decreases s.len() - j,
    {
        let c = s[j];
        if c == '<' || c == '(' {
            d = d + 1;
            j = j + 1;
        } else if c == '>' || c == ')' {
            d = d - 1;
            j = j + 1;
        } else if d == 0 && (crate::extract::e_is_ws(c) || c == ',' || c == ';' || c == '}') {
            return j;
        } else {
            j = j + 1;
        }
    }
    j
}

fn e_colon_annotation(s: &Vec<char>, i: usize) -> (r: bool)
    requires
        i < s.len(),
    ensures
        r == colon_annotation(s@, i as int),
{
    let hi: usize = if s.len() - i > 51 {
        i + 51
    } else {
        s.len()
    };
    let rest = crate::graph::slice_chars(s, i + 1, hi);
    if rest.len() == 0 || rest[0] != ' ' {
        return false;
    }
    let t0 = crate::extract::e_skip_ws(&rest, 0);
    let trimmed = crate::graph::slice_chars(&rest, t0, rest.len());
    proof {
        assert(trimmed@ == rest@.subrange(skip_ws(rest@, 0), rest@.len() as int));
    }
    let r = prefix_at(&trimmed, 0, "string") || prefix_at(&trimmed, 0, "number") || prefix_at(
        &trimmed,
        0,
        "boolean",
    ) || prefix_at(&trimmed, 0, "any") || prefix_at(&trimmed, 0, "void") || prefix_at(
        &trimmed,
        0,
        "never",
    ) || prefix_at(&trimmed, 0, "unknown") || prefix_at(&trimmed, 0, "null") || prefix_at(
        &trimmed,
        0,
        "undefined",
    ) || (trimmed.len() > 0 && 'A' <= trimmed[0] && trimmed[0] <= 'Z');
    r
}

fn strip_rec(s: &Vec<char>, i: usize, in_str: Option<char>, tmpl: Option<i128>, acc: Vec<char>) -> (r:
    Vec<char>)
    requires
        i <= s.len(),
        match tmpl {
            Some(d) => -(i as int) - 1 <= d as int <= i as int + 1,
            None => true,
        },
    ensures
        r@ == strip_ts(s@, i as int, in_str, tmpl_view(tmpl), acc@),
    decreases s.len() - i,
{
    proof {
        reveal_strlit("interface ");
        reveal_strlit("type ");
        reveal_strlit("as ");
    }
    if i >= s.len() {
        return acc;
    }
    let c = s[i];
    if tmpl.is_none() && (c == '"' || c == '\'') {
        let ns: Option<char> = match in_str {
            None => Some(c),
            Some(q) => if q == c {
                None
            } else {
                Some(q)
            },
        };
        let mut acc2 = acc;
        acc2.push(c);
        strip_rec(s, i + 1, ns, tmpl, acc2)
    } else if c == '`' {
        let nt: Option<i128> = match tmpl {
            None => Some(0),
            Some(d) => if d == 0 {
                None
            } else {
                Some(d)
            },
        };
        let mut acc2 = acc;
        acc2.push(c);
        strip_rec(s, i + 1, in_str, nt, acc2)
    } else if in_str.is_some() || tmpl.is_some() {
        let nt: Option<i128> = match tmpl {
            Some(d) => if c == '{' {
                Some(d + 1)
            } else if c == '}' {
                Some(d - 1)
            } else {
                Some(d)
            },
            None => None,
        };
        let mut acc2 = acc;
        acc2.push(c);
        strip_rec(s, i + 1, in_str, nt, acc2)
    } else if c == ':' && e_colon_annotation(s, i) {
        let e = e_skip_type_end(s, i + 1, 0);
        let next = if e > i {
            e
        } else {
            i + 1
        };
        strip_rec(s, next, in_str, tmpl, acc)
    } else if c == 'i' && prefix_at(s, i, "interface ") {
        let e: usize = match crate::extract::e_find_char(s, i, '{') {
            Some(f) => e_skip_braces(s, f + 1, 1),
            None => s.len(),
        };
        let next = if e > i {
            e
        } else {
            i + 1
        };
        strip_rec(s, next, in_str, tmpl, acc)
    } else if c == 't' && prefix_at(s, i, "type ") {
        let e = e_skip_stmt_end(s, i + 1);
        let next = if e > i {
            e
        } else {
            i + 1
        };
        strip_rec(s, next, in_str, tmpl, acc)
    } else if c == ' ' && i + 1 <= s.len() && prefix_at(s, i + 1, "as ") {
        proof {
            assert(s@.subrange(i as int + 1, i as int + 4) == "as "@);
        }
        let e = e_skip_cast_end(s, i + 4, 0);
        let next = if e > i {
            e
        } else {
            i + 1
        };
        let mut acc2 = acc;
        acc2.push(' ');
        strip_rec(s, next, in_str, tmpl, acc2)
    } else {
        proof {
            if i as int + 4 <= s@.len() && s@.subrange(i as int + 1, i as int + 4) == "as "@ {
                assert(i + 1 + "as "@.len() <= s@.len() && s@.subrange(
                    i as int + 1,
                    i as int + 1 + "as "@.len(),
                ) == "as "@);
            }
        }
        let mut acc2 = acc;
        acc2.push(c);
        strip_rec(s, i + 1, in_str, tmpl, acc2)
    }
}

/// Strip TypeScript type annotations, interfaces, type aliases and casts.
pub fn strip_typescript_types(source: &str) -> (r: String)
    ensures
        r@ == strip_ts_spec(source@),
{
    let chars = str_to_chars(source);
    let out = strip_rec(&chars, 0, None, None, Vec::new());
    chars_to_string(&out)
}

// ---------------------------------------------------------------------------
// JSX lowering
// ---------------------------------------------------------------------------

/// Whether a `</` pair occurs in the collected element text.
pub open spec fn contains_close_tag(e: Seq<char>) -> bool {
    exists|k: int| 0 <= k < e.len() - 1 && #[trigger] e[k] == '<' && e[k + 1] == '/'
}

/// Collecting a JSX element: consume until the opening tags are balanced
/// off, tracking nesting depth. Yields the collected text and the position
/// after it.
pub open spec fn jsx_collect(s: Seq<char>, i: int, depth: int, elem: Seq<char>) -> (Seq<char>, int)
    decreases s.len() - i,
{
    if depth <= 0 || i < 0 || i >= s.len() {
        (elem, i)
    } else {
        let c = s[i];
        let e2 = elem.push(c);
        if c == '<' && !(i + 1 < s.len() && s[i + 1] == '/') {
            jsx_collect(s, i + 1, depth + 1, e2)
        } else if c == '>' {
            if e2.len() >= 2 && e2[e2.len() - 2] == '/' {
                jsx_collect(s, i + 1, depth - 1, e2)
            } else if contains_close_tag(e2) {
                jsx_collect(s, i + 1, depth - 1, e2)
            } else {
                jsx_collect(s, i + 1, depth, e2)
            }
        } else if c == '/' && i + 1 < s.len() && s[i + 1] == '>' {
            jsx_collect(s, i + 2, depth - 1, e2.push('>'))
        } else {
            jsx_collect(s, i + 1, depth, e2)
        }
    }
}

/// An ASCII letter.
pub open spec fn is_ascii_alpha(c: char) -> bool {
    ('a' <= c && c <= 'z') || ('A' <= c && c <= 'Z')
}

/// The JSX rewriting scan: strings pass through; a `<` opening a tag has its
/// element collected, and a fragment element (`<>…`) becomes a
/// `React.createElement` call while any other element is kept as collected.
pub open spec fn jsx_rewrite(s: Seq<char>, i: int, in_str: Option<char>, acc: Seq<char>) -> Seq<
    char,
>
    decreases s.len() - i,
{
    if i < 0 || i >= s.len() {
        acc
    } else {
        let c = s[i];
        if c == '"' || c == '\'' || c == '`' {
            let ns = if in_str is None {
                Some(c)
            } else if in_str->0 == c {
                None
            } else {
                in_str
            };
            jsx_rewrite(s, i + 1, ns, acc.push(c))
        } else if in_str is Some {
            jsx_rewrite(s, i + 1, in_str, acc.push(c))
        } else if c == '<' && i + 1 < s.len() && (is_ascii_alpha(s[i + 1]) || s[i + 1] == '>'
            || s[i + 1] == '/') {
            let collected = jsx_collect(s, i + 1, 1, seq!['<']);
            let out = if is_prefix_of("<>"@, collected.0) {
                "React.createElement(React.Fragment, null)"@
            } else {
                collected.0
            };
            jsx_rewrite(
                s,
                if i < collected.1 && collected.1 <= s.len() { collected.1 } else { i + 1 },
                in_str,
                acc + out,
            )
        } else {
            jsx_rewrite(s, i + 1, in_str, acc.push(c))
        }
    }
}

/// What the JSX lowering returns for a whole source.
pub open spec fn jsx_spec(s: Seq<char>) -> Seq<char> {
    jsx_rewrite(s, 0, None, Seq::empty())
}

proof fn lemma_contains_close_tag_push(e: Seq<char>, c: char)
    ensures
        contains_close_tag(e.push(c)) == (contains_close_tag(e) || (e.len() > 0 && e[e.len() - 1]
            == '<' && c == '/')),
{
    let e2 = e.push(c);
    if contains_close_tag(e) {
        let k = choose|k: int| 0 <= k < e.len() - 1 && #[trigger] e[k] == '<' && e[k + 1] == '/';
        assert(e2[k] == '<' && e2[k + 1] == '/');
        assert(contains_close_tag(e2));
    }
    if e.len() > 0 && e[e.len() - 1] == '<' && c == '/' {
        let k = e.len() - 1;
        assert(e2[k] == '<' && e2[k + 1] == '/');
        assert(contains_close_tag(e2));
    }
    if contains_close_tag(e2) {
        let k = choose|k: int| 0 <= k < e2.len() - 1 && #[trigger] e2[k] == '<' && e2[k + 1] == '/';
        if k + 1 < e.len() {
            assert(e[k] == '<' && e[k + 1] == '/');
            assert(contains_close_tag(e));
        } else {
            assert(k == e.len() - 1);
            assert(e[e.len() - 1] == '<' && c == '/');
        }
    }
}

fn e_jsx_collect(s: &Vec<char>, i0: usize, elem0: Vec<char>, depth0: i128, has0: bool) -> (r: (
    Vec<char>,
    usize,
))
    requires
        i0 <= s.len(),
        -(i0 as int) - 2 <= depth0 as int <= i0 as int + 2,
        has0 == contains_close_tag(elem0@),
    ensures
        (r.0@, r.1 as int) == jsx_collect(s@, i0 as int, depth0 as int, elem0@),
        i0 <= r.1 <= s.len(),
    decreases s.len() - i0,
{
    if depth0 <= 0 || i0 >= s.len() {
        return (elem0, i0);
    }
    let c = s[i0];
    let ghost pre_elem = elem0@;
    let mut elem = elem0;
    let has = has0 || (elem.len() > 0 && elem[elem.len() - 1] == '<' && c == '/');
    elem.push(c);
    proof {
        lemma_contains_close_tag_push(pre_elem, c);
        assert(has == contains_close_tag(elem@));
    }
    if c == '<' && !(i0 + 1 < s.len() && s[i0 + 1] == '/') {
        e_jsx_collect(s, i0 + 1, elem, depth0 + 1, has)
    } else if c == '>' {
        if elem.len() >= 2 && elem[elem.len() - 2] == '/' {
            e_jsx_collect(s, i0 + 1, elem, depth0 - 1, has)
        } else if has {
            e_jsx_collect(s, i0 + 1, elem, depth0 - 1, has)
        } else {
            e_jsx_collect(s, i0 + 1, elem, depth0, has)
        }
    } else if c == '/' && i0 + 1 < s.len() && s[i0 + 1] == '>' {
        let ghost pre2 = elem@;
        elem.push('>');
        proof {
            lemma_contains_close_tag_push(pre2, '>');
            assert(has == contains_close_tag(elem@));
        }
        e_jsx_collect(s, i0 + 2, elem, depth0 - 1, has)
    } else {
        e_jsx_collect(s, i0 + 1, elem, depth0, has)
    }
}

fn e_is_ascii_alpha(c: char) -> (r: bool)
    ensures
        r == is_ascii_alpha(c),
{
    ('a' <= c && c <= 'z') || ('A' <= c && c <= 'Z')
}

fn jsx_rewrite_rec(s: &Vec<char>, i: usize, in_str: Option<char>, acc: Vec<char>) -> (r: Vec<char>)
    requires
        i <= s.len(),
    ensures
        r@ == jsx_rewrite(s@, i as int, in_str, acc@),
    decreases s.len() - i,
{
    if i >= s.len() {
        return acc;
    }
    let c = s[i];
    if c == '"' || c == '\'' || c == '`' {
        let ns: Option<char> = match in_str {
            None => Some(c),
            Some(q) => if q == c {
                None
            } else {
                Some(q)
            },
        };
        let mut acc2 = acc;
        acc2.push(c);
        jsx_rewrite_rec(s, i + 1, ns, acc2)
    } else if in_str.is_some() {
        let mut acc2 = acc;
        acc2.push(c);
        jsx_rewrite_rec(s, i + 1, in_str, acc2)
    } else if c == '<' && i + 1 < s.len() && (e_is_ascii_alpha(s[i + 1]) || s[i + 1] == '>' || s[i
        + 1] == '/') {
        let mut opener: Vec<char> = Vec::new();
        opener.push('<');
        assert(opener@ =~= seq!['<']);
        proof {
            assert(!contains_close_tag(opener@));
        }
        let collected = e_jsx_collect(s, i + 1, opener, 1, false);
        let mut acc2 = acc;
        let is_fragment = collected.0.len() >= 2 && collected.0[0] == '<' && collected.0[1] == '>';
        proof {
            let spec_collected = jsx_collect(s@, i as int + 1, 1, seq!['<']);
            assert(collected.0@ == spec_collected.0);
            assert(collected.1 as int == spec_collected.1);
            reveal_strlit("<>");
            if is_fragment {
                assert(collected.0@.take("<>"@.len() as int) =~= "<>"@);
                assert(is_prefix_of("<>"@, collected.0@));
            } else {
                if is_prefix_of("<>"@, collected.0@) {
                    assert(collected.0@.take(2)[0] == '<' && collected.0@.take(2)[1] == '>');
                    assert(false);
                }
            }
            assert(is_fragment == is_prefix_of("<>"@, collected.0@));
        }
        if is_fragment {
            push_str_chars(&mut acc2, "React.createElement(React.Fragment, null)");
        } else {
            push_chars(&mut acc2, &collected.0);
        }
        let next = if collected.1 > i {
            collected.1
        } else {
            i + 1
        };
        jsx_rewrite_rec(s, next, in_str, acc2)
    } else {
        let mut acc2 = acc;
        acc2.push(c);
        jsx_rewrite_rec(s, i + 1, in_str, acc2)
    }
}

/// Transform JSX syntax: fragment elements become `React.createElement`
/// calls; other elements are kept as written.
pub fn transform_jsx_simple(source: &str) -> (r: String)
    ensures
        r@ == jsx_spec(source@),
{
    let chars = str_to_chars(source);
    let out = jsx_rewrite_rec(&chars, 0, None, Vec::new());
    chars_to_string(&out)
}

// ---------------------------------------------------------------------------
// CSS and JSON wrapping
// ---------------------------------------------------------------------------

/// Escaping CSS text for inclusion in a template literal: backslashes,
/// backticks and `${` openers get a backslash.
pub open spec fn css_escape(s: Seq<char>, i: int, acc: Seq<char>) -> Seq<char>
    decreases s.len() - i,
{
    if i < 0 || i >= s.len() {
        acc
    } else if s[i] == '\\' {
        css_escape(s, i + 1, acc + "\\\\"@)
    } else if s[i] == '`' {
        css_escape(s, i + 1, acc + "\\`"@)
    } else if s[i] == '$' && i + 1 < s.len() && s[i + 1] == '{' {
        css_escape(s, i + 2, acc + "\\${"@)
    } else {
        css_escape(s, i + 1, acc.push(s[i]))
    }
}

/// What the CSS transform returns: a self-invoking style injector holding
/// the escaped CSS, exporting an empty object.
pub open spec fn css_wrap_spec(s: Seq<char>) -> Seq<char> {
    "(function() {\n  var style = document.createElement('style');\n  style.textContent = `"@
        + css_escape(s, 0, Seq::empty())
        + "`;\n  document.head.appendChild(style);\n})();\nmodule.exports = {};\n"@
}

fn css_escape_rec(s: &Vec<char>, i: usize, acc: Vec<char>) -> (r: Vec<char>)
    requires
        i <= s.len(),
    ensures
        r@ == css_escape(s@, i as int, acc@),
    decreases s.len() - i,
{
    if i >= s.len() {
        return acc;
    }
    let c = s[i];
    let mut acc2 = acc;
    if c == '\\' {
        push_str_chars(&mut acc2, "\\\\");
        css_escape_rec(s, i + 1, acc2)
    } else if c == '`' {
        push_str_chars(&mut acc2, "\\`");
        css_escape_rec(s, i + 1, acc2)
    } else if c == '$' && i + 1 < s.len() && s[i + 1] == '{' {
        push_str_chars(&mut acc2, "\\${");
        css_escape_rec(s, i + 2, acc2)
    } else {
        acc2.push(c);
        css_escape_rec(s, i + 1, acc2)
    }
}

/// What the JSON transform returns on valid JSON: the text as a CommonJS
/// export.
pub open spec fn json_wrap_spec(s: Seq<char>) -> Seq<char> {
    "module.exports = "@ + s + ";"@
}

// ---------------------------------------------------------------------------
// The transformer
// ---------------------------------------------------------------------------

/// What a successful transform returns, by module type; `jsx_on` is the
/// configuration's JSX switch.
pub open spec fn transform_ok_spec(jsx_on: bool, source: Seq<char>, t: ModuleType) -> Seq<char> {
    match t {
        ModuleType::TypeScript => strip_ts_spec(source),
        ModuleType::Tsx => if jsx_on {
            jsx_spec(strip_ts_spec(source))
        } else {
            strip_ts_spec(source)
        },
        ModuleType::Jsx => if jsx_on {
            jsx_spec(source)
        } else {
            source
        },
        ModuleType::Css => css_wrap_spec(source),
        ModuleType::Json => json_wrap_spec(source),
        _ => source,
    }
}

/// Code transformer.
pub struct Transformer {
    /// Project configuration.
    pub config: Config,
}

impl Transformer {
    /// Create a new transformer.
    pub fn new(config: Config) -> (r: Self)
        ensures
            r.config == config,
    {
        Transformer { config }
    }

    /// Transform source code based on module type. Fails exactly on a JSON
    /// module whose text is not valid JSON, naming the file.
    pub fn transform(&self, source: &str, path: &str, module_type: &ModuleType) -> (r: Result<
        String,
        BuildError,
    >)
        ensures
            r is Ok <==> !(module_type is Json && !json_valid(source@)),
            match r {
                Ok(code) => code@ == transform_ok_spec(
                    self.config.features.jsx,
                    source@,
                    *module_type,
                ),
                Err(e) => e matches BuildError::InvalidJson { path: p } && p@ == path@,
            },
    {
        match module_type {
            ModuleType::TypeScript => Ok(strip_typescript_types(source)),
            ModuleType::Tsx => {
                let stripped = strip_typescript_types(source);
                if self.config.features.jsx {
                    Ok(transform_jsx_simple(stripped.as_str()))
                } else {
                    Ok(stripped)
                }
            },
            ModuleType::Jsx => {
                if self.config.features.jsx {
                    Ok(transform_jsx_simple(source))
                } else {
                    let chars = str_to_chars(source);
                    Ok(chars_to_string(&chars))
                }
            },
            ModuleType::Css => {
                let chars = str_to_chars(source);
                let escaped = css_escape_rec(&chars, 0, Vec::new());
                let mut out: Vec<char> = Vec::new();
                push_str_chars(
                    &mut out,
                    "(function() {\n  var style = document.createElement('style');\n  style.textContent = `",
                );
                push_chars(&mut out, &escaped);
                push_str_chars(
                    &mut out,
                    "`;\n  document.head.appendChild(style);\n})();\nmodule.exports = {};\n",
                );
                assert(out@ =~= css_wrap_spec(source@));
                Ok(chars_to_string(&out))
            },
            ModuleType::Json => {
                if json_is_valid(source) {
                    let mut out: Vec<char> = Vec::new();
                    push_str_chars(&mut out, "module.exports = ");
                    let chars = str_to_chars(source);
                    push_chars(&mut out, &chars);
                    push_str_chars(&mut out, ";");
                    assert(out@ =~= json_wrap_spec(source@));
                    Ok(chars_to_string(&out))
                } else {
                    let mut p = String::new();
                    p.append(path);
                    Err(BuildError::InvalidJson { path: p })
                }
            },
            _ => {
                let chars = str_to_chars(source);
                Ok(chars_to_string(&chars))
            },
        }
    }
}

} // verus!
