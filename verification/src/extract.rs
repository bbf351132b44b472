//! Import specifier extraction.
//!
//! A single left-to-right scan finds, in source order, the quoted specifier
//! of every `import`/`export … from` statement, `require(…)` call and dynamic
//! `import(…)` call, and removes duplicates keeping first occurrences. The
//! token grammar is spelled out by the spec functions here; like the pattern
//! matching this class of tool commonly uses, it does not skip string or
//! comment interiors.

use vstd::prelude::*;

verus! {

use crate::graph::ModuleType;
use crate::strutil::chars_eq;
use crate::utils::views_of;

/// Whitespace, as the scanner skips it.
pub open spec fn is_ws(c: char) -> bool {
    c == ' ' || c == '\t' || c == '\n' || c == '\r'
}

/// Characters that may form an identifier.
pub open spec fn is_ident_char(c: char) -> bool {
    ('a' <= c && c <= 'z') || ('A' <= c && c <= 'Z') || ('0' <= c && c <= '9') || c == '_' || c
        == '$'
}

/// A string-literal quote.
pub open spec fn is_quote(c: char) -> bool {
    c == '"' || c == '\''
}

/// The first position at or after `i` that does not hold whitespace.
pub open spec fn skip_ws(s: Seq<char>, i: int) -> int
    decreases s.len() - i,
{
    if 0 <= i && i < s.len() && is_ws(s[i]) {
        skip_ws(s, i + 1)
    } else {
        i
    }
}

/// The first position at or after `i` that does not hold an identifier
/// character.
pub open spec fn skip_ident(s: Seq<char>, i: int) -> int
    decreases s.len() - i,
{
    if 0 <= i && i < s.len() && is_ident_char(s[i]) {
        skip_ident(s, i + 1)
    } else {
        i
    }
}

/// The first position at or after `i` holding `c`, or -1 when there is none.
pub open spec fn find_char_from(s: Seq<char>, i: int, c: char) -> int
    decreases s.len() - i,
{
    if i < 0 || i >= s.len() {
        -1
    } else if s[i] == c {
        i
    } else {
        find_char_from(s, i + 1, c)
    }
}

/// The word `w` stands at position `i`, not preceded by an identifier
/// character.
pub open spec fn at_word(s: Seq<char>, i: int, w: Seq<char>) -> bool {
    &&& 0 <= i
    &&& i + w.len() <= s.len()
    &&& s.subrange(i, i + w.len()) == w
    &&& (i == 0 || !is_ident_char(s[i - 1]))
}

/// A quoted specifier starting at `i`: a quote, one or more characters up to
/// the next quote of the same kind, and that closing quote. Yields the
/// content and the position after the closing quote.
pub open spec fn capture_string(s: Seq<char>, i: int) -> Option<(Seq<char>, int)> {
    if 0 <= i && i < s.len() && is_quote(s[i]) {
        let j = find_char_from(s, i + 1, s[i]);
        if j > i + 1 {
            Some((s.subrange(i + 1, j), j + 1))
        } else {
            None
        }
    } else {
        None
    }
}

/// A parenthesised specifier starting at `i` (what follows `require` or a
/// dynamic `import`): optional whitespace, `(`, optional whitespace, a quoted
/// specifier, optional whitespace, `)`.
pub open spec fn match_call(s: Seq<char>, i: int) -> Option<(Seq<char>, int)> {
    let j = skip_ws(s, i);
    if 0 <= j && j < s.len() && s[j] == '(' {
        let k = skip_ws(s, j + 1);
        match capture_string(s, k) {
            Some((cap, e)) => {
                let f = skip_ws(s, e);
                if 0 <= f && f < s.len() && s[f] == ')' {
                    Some((cap, f + 1))
                } else {
                    None
                }
            },
            None => None,
        }
    } else {
        None
    }
}

/// The position after an import clause starting at `j`: a braced list, a
/// `* as name` form, or a bare identifier; -1 when none stands there.
pub open spec fn clause_end(s: Seq<char>, j: int) -> int {
    if 0 <= j && j < s.len() && s[j] == '{' {
        let c = find_char_from(s, j, '}');
        if c >= 0 {
            c + 1
        } else {
            -1
        }
    } else if 0 <= j && j < s.len() && s[j] == '*' {
        let a = skip_ws(s, j + 1);
        if a + 2 <= s.len() && s.subrange(a, a + 2) == seq!['a', 's'] {
            let b = skip_ws(s, a + 2);
            let e = skip_ident(s, b);
            if e > b {
                e
            } else {
                -1
            }
        } else {
            -1
        }
    } else if 0 <= j && j < s.len() && is_ident_char(s[j]) {
        skip_ident(s, j)
    } else {
        -1
    }
}

/// A static `import`/`export` form, starting right after the keyword at `i`:
/// at least one whitespace, then either a quoted specifier directly, or an
/// import clause, `from`, and the quoted specifier.
pub open spec fn match_static(s: Seq<char>, i: int) -> Option<(Seq<char>, int)> {
    if 0 <= i && i < s.len() && is_ws(s[i]) {
        let j = skip_ws(s, i);
        match capture_string(s, j) {
            Some((cap, e)) => Some((cap, e)),
            None => {
                let c = clause_end(s, j);
                if c >= 0 {
                    let f = skip_ws(s, c);
                    if f + 4 <= s.len() && s.subrange(f, f + 4) == seq!['f', 'r', 'o', 'm'] {
                        let g = skip_ws(s, f + 4);
                        capture_string(s, g)
                    } else {
                        None
                    }
                } else {
                    None
                }
            },
        }
    } else {
        None
    }
}

/// The specifier (and scan resume position) of the import form standing at
/// `i`, if any: a dynamic or static `import`, a static `export … from`, or a
/// `require(…)` call.
pub open spec fn match_at(s: Seq<char>, i: int) -> Option<(Seq<char>, int)> {
    if at_word(s, i, seq!['i', 'm', 'p', 'o', 'r', 't']) {
        let a = i + 6;
        let j = skip_ws(s, a);
        if 0 <= j && j < s.len() && s[j] == '(' {
            match_call(s, a)
        } else {
            match_static(s, a)
        }
    } else if at_word(s, i, seq!['e', 'x', 'p', 'o', 'r', 't']) {
        match_static(s, i + 6)
    } else if at_word(s, i, seq!['r', 'e', 'q', 'u', 'i', 'r', 'e']) {
        match_call(s, i + 7)
    } else {
        None
    }
}

/// The scan: every captured specifier from position `i` on, appended to
/// `acc`, in source order.
pub open spec fn scan_from(s: Seq<char>, i: int, acc: Seq<Seq<char>>) -> Seq<Seq<char>>
    decreases s.len() - i,
{
    if i < 0 || i >= s.len() {
        acc
    } else {
        match match_at(s, i) {
            Some((cap, e)) => scan_from(
                s,
                if i < e && e <= s.len() { e } else { i + 1 },
                acc.push(cap),
            ),
            None => scan_from(s, i + 1, acc),
        }
    }
}

/// Duplicate removal, keeping first occurrences in order.
pub open spec fn dedup_from(items: Seq<Seq<char>>, i: int, acc: Seq<Seq<char>>) -> Seq<Seq<char>>
    decreases items.len() - i,
{
    if i < 0 || i >= items.len() {
        acc
    } else if acc.contains(items[i]) {
        dedup_from(items, i + 1, acc)
    } else {
        dedup_from(items, i + 1, acc.push(items[i]))
    }
}

proof fn lemma_dedup_from_no_dup(items: Seq<Seq<char>>, i: int, acc: Seq<Seq<char>>)
    requires
        acc.no_duplicates(),
    ensures
        dedup_from(items, i, acc).no_duplicates(),
    decreases items.len() - i,
{
    if 0 <= i && i < items.len() {
        if acc.contains(items[i]) {
            lemma_dedup_from_no_dup(items, i + 1, acc);
        } else {
            let acc2 = acc.push(items[i]);
            assert(acc2.no_duplicates()) by {
                assert forall|a: int, b: int|
                    0 <= a < acc2.len() && 0 <= b < acc2.len() && a != b implies acc2[a]
                    != acc2[b] by {
                    if a < acc.len() && b < acc.len() {
                        assert(acc[a] != acc[b]);
                    } else if a < acc.len() {
                        if acc[a] == items[i] {
                            assert(acc.contains(items[i]));
                        }
                    } else {
                        if acc[b] == items[i] {
                            assert(acc.contains(items[i]));
                        }
                    }
                }
            }
            lemma_dedup_from_no_dup(items, i + 1, acc2);
        }
    }
}

/// Extraction suppresses duplicates: no specifier is listed twice, whatever
/// the source holds.
pub proof fn lemma_extract_no_duplicates(source: Seq<char>, t: ModuleType)
    ensures
        extract_spec(source, t).no_duplicates(),
{
    if t.is_js_like_spec() {
        lemma_dedup_from_no_dup(scan_from(source, 0, Seq::empty()), 0, Seq::empty());
    }
}

/// What dependency extraction returns: for the JavaScript family, the scan's
/// captures in source order with duplicates removed; for other module types,
/// nothing.
pub open spec fn extract_spec(source: Seq<char>, t: ModuleType) -> Seq<Seq<char>> {
    if t.is_js_like_spec() {
        dedup_from(scan_from(source, 0, Seq::empty()), 0, Seq::empty())
    } else {
        Seq::empty()
    }
}

pub(crate) fn e_is_ws(c: char) -> (r: bool)
    ensures
        r == is_ws(c),
{
    c == ' ' || c == '\t' || c == '\n' || c == '\r'
}

fn e_is_ident_char(c: char) -> (r: bool)
    ensures
        r == is_ident_char(c),
{
    ('a' <= c && c <= 'z') || ('A' <= c && c <= 'Z') || ('0' <= c && c <= '9') || c == '_' || c
        == '$'
}

fn e_is_quote(c: char) -> (r: bool)
    ensures
        r == is_quote(c),
{
    c == '"' || c == '\''
}

pub(crate) fn e_skip_ws(s: &Vec<char>, i: usize) -> (r: usize)
    requires
        i <= s.len(),
    ensures
        r as int == skip_ws(s@, i as int),
        i <= r <= s.len(),
{
    let mut j = i;
    while j < s.len() && e_is_ws(s[j])
        invariant
            i <= j <= s.len(),
            skip_ws(s@, i as int) == skip_ws(s@, j as int),
        decreases s.len() - j,
    {
        j = j + 1;
    }
    j
}

fn e_skip_ident(s: &Vec<char>, i: usize) -> (r: usize)
    requires
        i <= s.len(),
    ensures
        r as int == skip_ident(s@, i as int),
        i <= r <= s.len(),
{
    let mut j = i;
    while j < s.len() && e_is_ident_char(s[j])
        invariant
            i <= j <= s.len(),
            skip_ident(s@, i as int) == skip_ident(s@, j as int),
        decreases s.len() - j,
    {
        j = j + 1;
    }
    j
}

pub(crate) fn e_find_char(s: &Vec<char>, i: usize, c: char) -> (r: Option<usize>)
    requires
        i <= s.len(),
    ensures
        match r {
            Some(j) => find_char_from(s@, i as int, c) == j as int && i <= j < s.len(),
            None => find_char_from(s@, i as int, c) == -1,
        },
{
    let mut j = i;
    while j < s.len()
        invariant
            i <= j <= s.len(),
            find_char_from(s@, i as int, c) == find_char_from(s@, j as int, c),
        decreases s.len() - j,
    {
        if s[j] == c {
            return Some(j);
        }
        j = j + 1;
    }
    None
}

fn e_at_word(s: &Vec<char>, i: usize, w: &Vec<char>) -> (r: bool)
    requires
        i <= s.len(),
    ensures
        r == at_word(s@, i as int, w@),
{
    if w.len() > s.len() - i {
        return false;
    }
    if i > 0 && e_is_ident_char(s[i - 1]) {
        return false;
    }
    let mut k: usize = 0;
    while k < w.len()
        invariant
            i + w.len() <= s.len(),
            k <= w.len(),
            forall|t: int| 0 <= t < k ==> s@[i + t] == w@[t],
        decreases w.len() - k,
    {
        if s[i + k] != w[k] {
            assert(s@.subrange(i as int, i + w@.len())[k as int] != w@[k as int]);
            return false;
        }
        k = k + 1;
    }
    assert(s@.subrange(i as int, i + w@.len()) =~= w@);
    true
}

fn e_capture_string(s: &Vec<char>, i: usize) -> (r: Option<(Vec<char>, usize)>)
    requires
        i <= s.len(),
    ensures
        match r {
            Some(p) => capture_string(s@, i as int) == Some((p.0@, p.1 as int)) && i < p.1
                <= s.len(),
            None => capture_string(s@, i as int) is None,
        },
{
    if i >= s.len() || !e_is_quote(s[i]) {
        return None;
    }
    let q = s[i];
    match e_find_char(s, i + 1, q) {
        Some(j) => {
            if j > i + 1 {
                let mut cap: Vec<char> = Vec::new();
                let mut k: usize = i + 1;
                while k < j
                    invariant
                        i + 1 <= k <= j < s.len(),
                        cap@ =~= s@.subrange(i as int + 1, k as int),
                    decreases j - k,
                {
                    cap.push(s[k]);
                    k = k + 1;
                    assert(cap@ =~= s@.subrange(i as int + 1, k as int));
                }
                Some((cap, j + 1))
            } else {
                None
            }
        },
        None => None,
    }
}

fn e_match_call(s: &Vec<char>, i: usize) -> (r: Option<(Vec<char>, usize)>)
    requires
        i <= s.len(),
    ensures
        match r {
            Some(p) => match_call(s@, i as int) == Some((p.0@, p.1 as int)) && i < p.1 <= s.len(),
            None => match_call(s@, i as int) is None,
        },
{
    let j = e_skip_ws(s, i);
    if j >= s.len() || s[j] != '(' {
        return None;
    }
    let k = e_skip_ws(s, j + 1);
    match e_capture_string(s, k) {
        Some((cap, e)) => {
            let f = e_skip_ws(s, e);
            if f < s.len() && s[f] == ')' {
                Some((cap, f + 1))
            } else {
                None
            }
        },
        None => None,
    }
}

fn e_clause_end(s: &Vec<char>, j: usize) -> (r: Option<usize>)
    requires
        j <= s.len(),
    ensures
        match r {
            Some(c) => clause_end(s@, j as int) == c as int && j <= c <= s.len(),
            None => clause_end(s@, j as int) == -1,
        },
{
    if j < s.len() && s[j] == '{' {
        match e_find_char(s, j, '}') {
            Some(c) => Some(c + 1),
            None => None,
        }
    } else if j < s.len() && s[j] == '*' {
        let a = e_skip_ws(s, j + 1);
        if s.len() - a >= 2 && s[a] == 'a' && s[a + 1] == 's' {
            assert(s@.subrange(a as int, a as int + 2) =~= seq!['a', 's']);
            let b = e_skip_ws(s, a + 2);
            let e = e_skip_ident(s, b);
            if e > b {
                Some(e)
            } else {
                None
            }
        } else {
            proof {
                if a + 2 <= s@.len() && s@.subrange(a as int, a as int + 2) == seq!['a', 's'] {
                    assert(s@.subrange(a as int, a as int + 2)[0] == 'a');
                    assert(s@.subrange(a as int, a as int + 2)[1] == 's');
                }
            }
            None
        }
    } else if j < s.len() && e_is_ident_char(s[j]) {
        Some(e_skip_ident(s, j))
    } else {
        None
    }
}

fn e_match_static(s: &Vec<char>, i: usize) -> (r: Option<(Vec<char>, usize)>)
    requires
        i <= s.len(),
    ensures
        match r {
            Some(p) => match_static(s@, i as int) == Some((p.0@, p.1 as int)) && i < p.1
                <= s.len(),
            None => match_static(s@, i as int) is None,
        },
{
    if i >= s.len() || !e_is_ws(s[i]) {
        return None;
    }
    let j = e_skip_ws(s, i);
    match e_capture_string(s, j) {
        Some((cap, e)) => Some((cap, e)),
        None => {
            match e_clause_end(s, j) {
                Some(c) => {
                    let f = e_skip_ws(s, c);
                    if s.len() - f >= 4 && s[f] == 'f' && s[f + 1] == 'r' && s[f + 2] == 'o'
                        && s[f + 3] == 'm' {
                        assert(s@.subrange(f as int, f as int + 4) =~= seq!['f', 'r', 'o', 'm']);
                        let g = e_skip_ws(s, f + 4);
                        match e_capture_string(s, g) {
                            Some((cap, e)) => Some((cap, e)),
                            None => None,
                        }
                    } else {
                        proof {
                            if f + 4 <= s@.len() && s@.subrange(f as int, f as int + 4)
                                == seq!['f', 'r', 'o', 'm'] {
                                assert(s@.subrange(f as int, f as int + 4)[0] == 'f');
                                assert(s@.subrange(f as int, f as int + 4)[1] == 'r');
                                assert(s@.subrange(f as int, f as int + 4)[2] == 'o');
                                assert(s@.subrange(f as int, f as int + 4)[3] == 'm');
                            }
                        }
                        None
                    }
                },
                None => None,
            }
        },
    }
}

fn e_match_at(s: &Vec<char>, i: usize) -> (r: Option<(Vec<char>, usize)>)
    requires
        i <= s.len(),
    ensures
        match r {
            Some(p) => match_at(s@, i as int) == Some((p.0@, p.1 as int)) && i < p.1 <= s.len(),
            None => match_at(s@, i as int) is None,
        },
{
    let w_import: Vec<char> = vec!['i', 'm', 'p', 'o', 'r', 't'];
    let w_export: Vec<char> = vec!['e', 'x', 'p', 'o', 'r', 't'];
    let w_require: Vec<char> = vec!['r', 'e', 'q', 'u', 'i', 'r', 'e'];
    if e_at_word(s, i, &w_import) {
        let a = i + 6;
        let j = e_skip_ws(s, a);
        if j < s.len() && s[j] == '(' {
            e_match_call(s, a)
        } else {
            e_match_static(s, a)
        }
    } else if e_at_word(s, i, &w_export) {
        e_match_static(s, i + 6)
    } else if e_at_word(s, i, &w_require) {
        e_match_call(s, i + 7)
    } else {
        None
    }
}

fn scan_chars(s: &Vec<char>) -> (r: Vec<Vec<char>>)
    ensures
        views_of(r@) == scan_from(s@, 0, Seq::empty()),
{
    let mut acc: Vec<Vec<char>> = Vec::new();
    assert(views_of(acc@) =~= Seq::<Seq<char>>::empty());
    let mut i: usize = 0;
    while i < s.len()
        invariant
            i <= s.len(),
            scan_from(s@, 0, Seq::empty()) == scan_from(s@, i as int, views_of(acc@)),
        decreases s.len() - i,
    {
        let ghost pre = views_of(acc@);
        match e_match_at(s, i) {
            Some((cap, e)) => {
                acc.push(cap);
                proof {
                    assert(views_of(acc@) =~= pre.push(acc@[acc@.len() - 1]@));
                }
                i = e;
            },
            None => {
                i = i + 1;
            },
        }
    }
    acc
}

fn contains_chars(acc: &Vec<Vec<char>>, x: &Vec<char>) -> (r: bool)
    ensures
        r == views_of(acc@).contains(x@),
{
    let mut i: usize = 0;
    while i < acc.len()
        invariant
            i <= acc.len(),
            forall|k: int| 0 <= k < i ==> views_of(acc@)[k] != x@,
        decreases acc.len() - i,
    {
        if chars_eq(&acc[i], x) {
            assert(views_of(acc@)[i as int] == x@);
            return true;
        }
        i = i + 1;
    }
    assert(forall|k: int| 0 <= k < views_of(acc@).len() ==> views_of(acc@)[k] != x@);
    false
}

/// The scan's captures with duplicates removed, first occurrences kept.
pub fn dedup_chars(items: Vec<Vec<char>>) -> (r: Vec<Vec<char>>)
    ensures
        views_of(r@) == dedup_from(views_of(items@), 0, Seq::empty()),
{
    let mut out: Vec<Vec<char>> = Vec::new();
    assert(views_of(out@) =~= Seq::<Seq<char>>::empty());
    let mut i: usize = 0;
    while i < items.len()
        invariant
            i <= items.len(),
            dedup_from(views_of(items@), 0, Seq::empty()) == dedup_from(
                views_of(items@),
                i as int,
                views_of(out@),
            ),
        decreases items.len() - i,
    {
        let ghost pre = views_of(out@);
        if !contains_chars(&out, &items[i]) {
            let item = crate::utils::copy_chars(&items[i]);
            out.push(item);
            proof {
                assert(views_of(out@) =~= pre.push(views_of(items@)[i as int]));
            }
        }
        i = i + 1;
    }
    out
}

/// Extract the import specifiers of a source text, in source order,
/// duplicates removed; non-JavaScript module types carry none.
pub fn extract_dependencies_from(source: &str, module_type: &ModuleType) -> (r: Vec<String>)
    ensures
        r@.map_values(|x: String| x@) == extract_spec(source@, *module_type),
{
    let mut out: Vec<String> = Vec::new();
    if !module_type.is_js_like() {
        assert(out@.map_values(|x: String| x@) =~= extract_spec(source@, *module_type));
        return out;
    }
    let chars = crate::strutil::str_to_chars(source);
    let raw = scan_chars(&chars);
    let deduped = dedup_chars(raw);
    let mut i: usize = 0;
    while i < deduped.len()
        invariant
            i <= deduped.len(),
            out@.map_values(|x: String| x@) =~= views_of(deduped@).take(i as int),
        decreases deduped.len() - i,
    {
        let ghost pre = out@.map_values(|x: String| x@);
        let sx = crate::strutil::chars_to_string(&deduped[i]);
        out.push(sx);
        proof {
            assert(out@.map_values(|x: String| x@) =~= pre.push(out@[out@.len() - 1]@));
        }
        i = i + 1;
        assert(out@.map_values(|x: String| x@) =~= views_of(deduped@).take(i as int));
    }
    assert(views_of(deduped@).take(deduped@.len() as int) == views_of(deduped@));
    out
}

} // verus!
