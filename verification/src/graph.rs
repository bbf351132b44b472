//! Module graph data structures.
//!
//! Modules live in an arena indexed by densely assigned integer IDs; forward
//! dependency edges are ordered lists, so traversal order — and with it chunk
//! membership order — is deterministic for a given graph.

use vstd::prelude::*;

verus! {

use vstd::set_lib::{lemma_int_range, lemma_len_subset, set_int_range};
use crate::strutil::{chars_eq, str_eq, str_to_chars};

/// Unique identifier for a module.
pub type ModuleId = usize;

/// Types of modules the bundler can handle.
#[derive(Debug, Clone, Copy, PartialEq, Eq, Structural)]
pub enum ModuleType {
    JavaScript,
    TypeScript,
    Jsx,
    Tsx,
    Css,
    Json,
    Unknown,
}

/// ASCII case folding of a single character.
pub open spec fn ascii_lower_char(c: char) -> char {
    if 'A' <= c && c <= 'Z' {
        (((c as u8) + 32) as char)
    } else {
        c
    }
}

/// ASCII case folding of a character sequence.
pub open spec fn ascii_lower(s: Seq<char>) -> Seq<char> {
    s.map_values(|c: char| ascii_lower_char(c))
}

fn lower_chars(v: &Vec<char>) -> (r: Vec<char>)
    ensures
        r@ == ascii_lower(v@),
{
    let mut out: Vec<char> = Vec::new();
    let mut i: usize = 0;
    while i < v.len()
        invariant
            i <= v.len(),
            out@ =~= ascii_lower(v@.take(i as int)),
        decreases v.len() - i,
    {
        let c = v[i];
        if 'A' <= c && c <= 'Z' {
            out.push(((c as u8) + 32) as char);
        } else {
            out.push(c);
        }
        i = i + 1;
        assert(out@ =~= ascii_lower(v@.take(i as int)));
    }
    assert(v@.take(v.len() as int) == v@);
    out
}

/// What `ModuleType::from_extension` decides, on the case-folded extension.
pub open spec fn from_extension_spec(ext: Seq<char>) -> ModuleType {
    let l = ascii_lower(ext);
    if l == "js"@ || l == "mjs"@ || l == "cjs"@ {
        ModuleType::JavaScript
    } else if l == "ts"@ || l == "mts"@ || l == "cts"@ {
        ModuleType::TypeScript
    } else if l == "jsx"@ {
        ModuleType::Jsx
    } else if l == "tsx"@ {
        ModuleType::Tsx
    } else if l == "css"@ || l == "scss"@ || l == "sass"@ || l == "less"@ {
        ModuleType::Css
    } else if l == "json"@ {
        ModuleType::Json
    } else {
        ModuleType::Unknown
    }
}

pub(crate) fn chars_eq_lit(v: &Vec<char>, lit: &str) -> (r: bool)
    ensures
        r == (v@ == lit@),
{
    let lv = str_to_chars(lit);
    chars_eq(v, &lv)
}

fn from_extension_chars(ext: &Vec<char>) -> (r: ModuleType)
    ensures
        r == from_extension_spec(ext@),
{
    let l = lower_chars(ext);
    if chars_eq_lit(&l, "js") || chars_eq_lit(&l, "mjs") || chars_eq_lit(&l, "cjs") {
        ModuleType::JavaScript
    } else if chars_eq_lit(&l, "ts") || chars_eq_lit(&l, "mts") || chars_eq_lit(&l, "cts") {
        ModuleType::TypeScript
    } else if chars_eq_lit(&l, "jsx") {
        ModuleType::Jsx
    } else if chars_eq_lit(&l, "tsx") {
        ModuleType::Tsx
    } else if chars_eq_lit(&l, "css") || chars_eq_lit(&l, "scss") || chars_eq_lit(&l, "sass")
        || chars_eq_lit(&l, "less") {
        ModuleType::Css
    } else if chars_eq_lit(&l, "json") {
        ModuleType::Json
    } else {
        ModuleType::Unknown
    }
}

impl ModuleType {
    /// Determine module type from a file extension.
    pub fn from_extension(ext: &str) -> (r: Self)
        ensures
            r == from_extension_spec(ext@),
    {
        let v = str_to_chars(ext);
        from_extension_chars(&v)
    }

    /// Check if this is a JavaScript-like module.
    pub fn is_js_like(&self) -> (r: bool)
        ensures
            r == self.is_js_like_spec(),
    {
        match self {
            ModuleType::JavaScript => true,
            ModuleType::TypeScript => true,
            ModuleType::Jsx => true,
            ModuleType::Tsx => true,
            _ => false,
        }
    }

    /// The JavaScript-family module types, whose sources carry imports.
    pub open spec fn is_js_like_spec(self) -> bool {
        self is JavaScript || self is TypeScript || self is Jsx || self is Tsx
    }
}

/// The last position of `c` in `s`, or -1 when it does not occur.
pub open spec fn last_index_of(s: Seq<char>, c: char) -> int
    decreases s.len(),
{
    if s.len() == 0 {
        -1
    } else if s[s.len() - 1] == c {
        s.len() - 1
    } else {
        last_index_of(s.drop_last(), c)
    }
}

pub(crate) fn find_last(v: &Vec<char>, c: char) -> (r: Option<usize>)
    ensures
        match r {
            Some(i) => last_index_of(v@, c) == i as int && i < v.len(),
            None => last_index_of(v@, c) == -1,
        },
{
    assert(v@.take(v.len() as int) == v@);
    let mut i: usize = v.len();
    while i > 0
        invariant
            i <= v.len(),
            last_index_of(v@, c) == last_index_of(v@.take(i as int), c),
        decreases i,
    {
        if v[i - 1] == c {
            proof {
                assert(v@.take(i as int).len() == i);
                assert(v@.take(i as int)[i - 1] == c);
            }
            return Some(i - 1);
        }
        proof {
            assert(v@.take(i as int).len() == i);
            assert(v@.take(i as int)[i - 1] == v@[i - 1]);
            assert(v@.take(i as int).drop_last() =~= v@.take(i as int - 1));
        }
        i = i - 1;
    }
    assert(v@.take(0) =~= Seq::<char>::empty());
    None
}

pub(crate) fn slice_chars(v: &Vec<char>, from: usize, to: usize) -> (r: Vec<char>)
    requires
        from <= to <= v@.len(),
    ensures
        r@ == v@.subrange(from as int, to as int),
{
    let mut out: Vec<char> = Vec::new();
    let mut i: usize = from;
    while i < to
        invariant
            from <= i <= to <= v@.len(),
            out@ =~= v@.subrange(from as int, i as int),
        decreases to - i,
    {
        out.push(v[i]);
        i = i + 1;
        assert(out@ =~= v@.subrange(from as int, i as int));
    }
    out
}

/// The file-name extension of a path: what follows the last `.` of the last
/// `/`-separated component, empty when there is no such `.` or the component
/// starts with it.
pub open spec fn extension_of(path: Seq<char>) -> Seq<char> {
    let name = path.subrange(last_index_of(path, '/') + 1, path.len() as int);
    let d = last_index_of(name, '.');
    if d <= 0 {
        Seq::empty()
    } else {
        name.subrange(d + 1, name.len() as int)
    }
}

/// What `Module::detect_type` decides for a path.
pub open spec fn detect_type_spec(path: Seq<char>) -> ModuleType {
    let name = path.subrange(last_index_of(path, '/') + 1, path.len() as int);
    let d = last_index_of(name, '.');
    if d <= 0 {
        ModuleType::Unknown
    } else {
        from_extension_spec(name.subrange(d + 1, name.len() as int))
    }
}

/// A module in the dependency graph.
#[derive(Debug, Clone)]
pub struct Module {
    /// Canonical path to the module: the graph's dedup key.
    pub path: String,
    /// The module's source text, as loaded.
    pub source: String,
    /// Module type.
    pub module_type: ModuleType,
    /// Whether this is an entry point.
    pub is_entry: bool,
    /// Import specifiers found in this module, in source order, deduplicated.
    pub dependencies: Vec<String>,
    /// Transformed code (filled by the transform phase).
    pub transformed: Option<String>,
}

impl Module {
    /// Detect module type from a path's extension.
    pub fn detect_type(path: &str) -> (r: ModuleType)
        ensures
            r == detect_type_spec(path@),
    {
        let v = str_to_chars(path);
        let name_start: usize = match find_last(&v, '/') {
            Some(i) => i + 1,
            None => 0,
        };
        proof {
            assert(name_start as int == last_index_of(v@, '/') + 1);
        }
        let name = slice_chars(&v, name_start, v.len());
        match find_last(&name, '.') {
            None => ModuleType::Unknown,
            Some(d) => {
                if d == 0 {
                    ModuleType::Unknown
                } else {
                    let ext = slice_chars(&name, d + 1, name.len());
                    from_extension_chars(&ext)
                }
            },
        }
    }
}

/// The module dependency graph.
#[derive(Debug)]
pub struct ModuleGraph {
    /// All modules, indexed by their ID.
    pub modules: Vec<Module>,
    /// Ordered dependency edges: for each module, the IDs it depends on.
    pub edges: Vec<Vec<ModuleId>>,
}

impl ModuleGraph {
    /// Number of modules held.
    pub open spec fn spec_len(self) -> nat {
        self.modules.len() as nat
    }

    /// The module stored under an ID.
    pub open spec fn module_at(self, i: int) -> Module {
        self.modules[i]
    }

    /// The dedup key of the module stored under an ID.
    pub open spec fn path_at(self, i: int) -> Seq<char> {
        self.modules[i].path@
    }

    /// The ordered dependency edges leaving a module.
    pub open spec fn edges_at(self, i: int) -> Seq<ModuleId> {
        self.edges[i]@
    }

    /// Whether some module holds this path.
    pub open spec fn has_path(self, p: Seq<char>) -> bool {
        exists|i: int| 0 <= i < self.spec_len() && self.path_at(i) == p
    }

    /// The ID of the module holding this path (unique in a well-formed graph).
    pub open spec fn id_of(self, p: Seq<char>) -> int {
        choose|i: int| 0 <= i < self.spec_len() && self.path_at(i) == p
    }

    /// Well-formedness: one edge row for each module, paths unique, every
    /// edge target an existing module, edge rows free of duplicates.
    pub open spec fn wf(self) -> bool {
        &&& self.edges.len() == self.modules.len()
        &&& forall|i: int, j: int|
            0 <= i < j < self.modules.len() ==> self.path_at(i) != self.path_at(j)
        &&& forall|i: int, k: int|
            0 <= i < self.edges.len() && 0 <= k < self.edges[i]@.len() ==> (
            self.edges[i]@[k] as int) < self.modules.len()
        &&& forall|i: int| 0 <= i < self.edges.len() ==> self.edges[i]@.no_duplicates()
    }

    /// A direct dependency edge from `a` to `b`.
    pub open spec fn edge(self, a: ModuleId, b: ModuleId) -> bool {
        (a as int) < self.spec_len() && self.edges[a as int]@.contains(b)
    }

    /// `p` is a chain of edges leading from `a` to `b`.
    pub open spec fn is_path_between(self, p: Seq<ModuleId>, a: ModuleId, b: ModuleId) -> bool {
        &&& p.len() >= 1
        &&& p[0] == a
        &&& p[p.len() - 1] == b
        &&& forall|k: int| 0 <= k < p.len() ==> (p[k] as int) < self.spec_len()
        &&& forall|k: int| 0 <= k < p.len() - 1 ==> self.edge(#[trigger] p[k], p[k + 1])
    }

    /// `b` lies on some chain of edges out of `a` (`a` itself included).
    pub open spec fn reachable(self, a: ModuleId, b: ModuleId) -> bool {
        exists|p: Seq<ModuleId>| self.is_path_between(p, a, b)
    }

    proof fn lemma_reachable_refl(self, a: ModuleId)
        requires
            (a as int) < self.spec_len(),
        ensures
            self.reachable(a, a),
    {
        let p = seq![a];
        assert(self.is_path_between(p, a, a));
    }

    proof fn lemma_reachable_step(self, a: ModuleId, b: ModuleId, c: ModuleId)
        requires
            self.reachable(a, b),
            self.edge(b, c),
            (c as int) < self.spec_len(),
        ensures
            self.reachable(a, c),
    {
        let p = choose|p: Seq<ModuleId>| self.is_path_between(p, a, b);
        let p2 = p.push(c);
        assert(p2[p2.len() - 1] == c);
        assert forall|k: int| 0 <= k < p2.len() - 1 implies self.edge(#[trigger] p2[k], p2[k + 1]) by {
            if k < p.len() - 1 {
                assert(self.edge(p[k], p[k + 1]));
            } else {
                assert(p2[k] == b && p2[k + 1] == c);
            }
        }
        assert(self.is_path_between(p2, a, c));
    }

    proof fn lemma_path_stays_inside(self, q: Seq<ModuleId>, p: Seq<ModuleId>, a: ModuleId, b: ModuleId)
        requires
            self.wf(),
            self.is_path_between(p, a, b),
            q.contains(a),
            forall|k: int, e: int|
                0 <= k < q.len() && 0 <= e < self.edges_at(q[k] as int).len() ==> q.contains(
                    self.edges_at(q[k] as int)[e]),
        ensures
            q.contains(b),
        decreases p.len(),
    {
        if p.len() == 1 {
            assert(b == a);
        } else {
            let p2 = p.drop_last();
            let b2 = p[p.len() - 2];
            assert(p2[p2.len() - 1] == b2);
            assert(forall|k: int| 0 <= k < p2.len() - 1 ==> self.edge(#[trigger] p2[k], p2[k + 1]));
            assert(self.is_path_between(p2, a, b2));
            self.lemma_path_stays_inside(q, p2, a, b2);
            // q contains b2; the edge b2 -> b keeps b inside q
            assert(self.edge(b2, b));
            let e = choose|e: int| 0 <= e < self.edges_at(b2 as int).len() && self.edges_at(
                b2 as int,
            )[e] == b;
            let k = choose|k: int| 0 <= k < q.len() && q[k] == b2;
            assert(q.contains(self.edges_at(q[k] as int)[e]));
        }
    }

    /// Create a new empty module graph.
    pub fn new() -> (r: Self)
        ensures
            r.wf(),
            r.spec_len() == 0,
    {
        ModuleGraph { modules: Vec::new(), edges: Vec::new() }
    }

    /// Add a module to the graph, idempotent by canonical path: adding a path
    /// that is already present returns the existing ID and changes nothing.
    pub fn add_module(&mut self, module: Module) -> (r: ModuleId)
        requires
            old(self).wf(),
        ensures
            final(self).wf(),
            (r as int) < final(self).spec_len(),
            final(self).path_at(r as int) == module.path@,
            old(self).has_path(module.path@) ==> *final(self) == *old(self),
            !old(self).has_path(module.path@) ==> {
                &&& r as int == old(self).spec_len()
                &&& final(self).modules@ == old(self).modules@.push(module)
                &&& final(self).edges@.len() == old(self).edges@.len() + 1
                &&& forall|i: int|
                    0 <= i < old(self).edges@.len() ==> final(self).edges@[i] == old(self).edges@[i]
                &&& final(self).edges_at(r as int) == Seq::<ModuleId>::empty()
            },
    {
        let mut i: usize = 0;
        while i < self.modules.len()
            invariant
                old(self).wf(),
                i <= self.modules.len(),
                *self == *old(self),
                forall|k: int| 0 <= k < i ==> self.path_at(k) != module.path@,
            decreases self.modules.len() - i,
        {
            if str_eq(self.modules[i].path.as_str(), module.path.as_str()) {
                proof {
                    assert(self.path_at(i as int) == module.path@);
                    assert(self.has_path(module.path@));
                }
                return i;
            }
            i = i + 1;
        }
        assert(!self.has_path(module.path@));
        let id = self.modules.len();
        self.modules.push(module);
        self.edges.push(Vec::new());
        proof {
            let olen = old(self).modules.len() as int;
            assert forall|a: int, b: int|
                0 <= a < b < self.modules.len() implies self.path_at(a) != self.path_at(b) by {
                assert(self.path_at(a) == old(self).path_at(a));
                if b < olen {
                    assert(self.path_at(b) == old(self).path_at(b));
                    assert(old(self).path_at(a) != old(self).path_at(b));
                } else {
                    assert(b == olen);
                    assert(self.path_at(b) == module.path@);
                    assert(old(self).path_at(a) != module.path@);
                }
            }
            assert forall|i2: int, k: int|
                0 <= i2 < self.edges.len() && 0 <= k < self.edges@[i2]@.len() implies (
            self.edges@[i2]@[k] as int) < self.modules.len() by {
                if i2 < olen {
                    assert(self.edges@[i2] == old(self).edges@[i2]);
                } else {
                    assert(self.edges@[i2]@.len() == 0);
                }
            }
            assert forall|i2: int|
                0 <= i2 < self.edges.len() implies self.edges@[i2]@.no_duplicates() by {
                if i2 < olen {
                    assert(self.edges@[i2] == old(self).edges@[i2]);
                }
            }
            assert(self.edges@[id as int]@ =~= Seq::<ModuleId>::empty());
        }
        id
    }

    /// Add a dependency edge between modules. The target must exist; an edge
    /// from an unknown source is ignored; a duplicate edge is not re-added.
    pub fn add_dependency(&mut self, from: ModuleId, to: ModuleId)
        requires
            old(self).wf(),
            (to as int) < old(self).spec_len(),
        ensures
            final(self).wf(),
            final(self).modules@ == old(self).modules@,
            final(self).spec_len() == old(self).spec_len(),
            final(self).edges@.len() == old(self).edges@.len(),
            (from as int) >= old(self).spec_len() ==> *final(self) == *old(self),
            (from as int) < old(self).spec_len() ==> {
                &&& forall|i: int|
                    0 <= i < old(self).edges@.len() && i != from as int ==> final(self).edges@[i] == old(self).edges@[i]
                &&& old(self).edges_at(from as int).contains(to) ==> final(self).edges_at(
                    from as int,
                ) == old(self).edges_at(from as int)
                &&& !old(self).edges_at(from as int).contains(to) ==> final(self).edges_at(
                    from as int,
                ) == old(self).edges_at(from as int).push(to)
            },
    {
        if from < self.edges.len() {
            let row = self.edges.remove(from);
            let ghost rowv = row@;
            let mut row2 = row;
            if !contains_id(&row2, to) {
                row2.push(to);
            }
            self.edges.insert(from, row2);
            proof {
                assert(self.edges@ =~= old(self).edges@.update(from as int, row2));
                assert(self.modules@ == old(self).modules@);
                assert forall|a: int, b: int|
                    0 <= a < b < self.modules.len() implies self.path_at(a) != self.path_at(
                    b,
                ) by {
                    assert(self.path_at(a) == old(self).path_at(a));
                    assert(self.path_at(b) == old(self).path_at(b));
                    assert(old(self).path_at(a) != old(self).path_at(b));
                }
                assert(rowv == old(self).edges@[from as int]@);
                assert(rowv.no_duplicates());
                if !rowv.contains(to) {
                    assert(row2@ == rowv.push(to));
                    assert forall|a: int, b: int|
                        0 <= a < row2@.len() && 0 <= b < row2@.len() && a != b implies row2@[a]
                        != row2@[b] by {
                        if a < rowv.len() && b < rowv.len() {
                            assert(rowv[a] != rowv[b]);
                        } else if a < rowv.len() {
                            assert(row2@[b] == to && !rowv.contains(to));
                            assert(rowv[a] != to) by {
                                if rowv[a] == to {
                                    assert(rowv.contains(to));
                                }
                            }
                        } else {
                            assert(row2@[a] == to && !rowv.contains(to));
                            assert(rowv[b] != to) by {
                                if rowv[b] == to {
                                    assert(rowv.contains(to));
                                }
                            }
                        }
                    }
                } else {
                    assert(row2@ == rowv);
                }
                assert forall|i2: int, k: int|
                    0 <= i2 < self.edges.len() && 0 <= k < self.edges@[i2]@.len() implies (
                self.edges@[i2]@[k] as int) < self.modules.len() by {
                    if i2 != from as int {
                        assert(self.edges@[i2] == old(self).edges@[i2]);
                    }
                }
                assert forall|i2: int|
                    0 <= i2 < self.edges.len() implies self.edges@[i2]@.no_duplicates() by {
                    if i2 != from as int {
                        assert(self.edges@[i2] == old(self).edges@[i2]);
                    }
                }
            }
        }
    }

    /// Get the module ID holding a path, if any.
    pub fn get_module_id(&self, path: &str) -> (r: Option<ModuleId>)
        ensures
            match r {
                Some(id) => (id as int) < self.spec_len() && self.path_at(id as int) == path@,
                None => !self.has_path(path@),
            },
    {
        let mut i: usize = 0;
        while i < self.modules.len()
            invariant
                i <= self.modules.len(),
                forall|k: int| 0 <= k < i ==> self.path_at(k) != path@,
            decreases self.modules.len() - i,
        {
            if str_eq(self.modules[i].path.as_str(), path) {
                return Some(i);
            }
            i = i + 1;
        }
        None
    }

    /// Get a module by ID.
    pub fn get_module(&self, id: ModuleId) -> (r: Option<&Module>)
        ensures
            (id as int) < self.spec_len() <==> r is Some,
            match r {
                Some(m) => *m == self.module_at(id as int),
                None => true,
            },
    {
        if id < self.modules.len() {
            Some(&self.modules[id])
        } else {
            None
        }
    }

    /// Get a mutable reference to a module. (The graph's contracts are
    /// stated over `set_transformed`, which the transform phase uses; this
    /// accessor promises nothing about what a caller writes through it.)
    pub fn get_module_mut(&mut self, id: ModuleId) -> (r: Option<&mut Module>) {
        if id < self.modules.len() {
            Some(&mut self.modules[id])
        } else {
            None
        }
    }

    /// Record the post-transform code of a module, leaving all other fields
    /// and every other module unchanged.
    pub fn set_transformed(&mut self, id: ModuleId, code: String)
        requires
            old(self).wf(),
            (id as int) < old(self).spec_len(),
        ensures
            final(self).wf(),
            final(self).edges@ == old(self).edges@,
            final(self).spec_len() == old(self).spec_len(),
            forall|i: int|
                0 <= i < old(self).spec_len() && i != id as int ==> final(self).module_at(i)
                    == old(self).module_at(i),
            final(self).module_at(id as int) == (Module {
                transformed: Some(code),
                ..old(self).module_at(id as int)
            }),
    {
        let m = self.modules.remove(id);
        let m2 = Module {
            path: m.path,
            source: m.source,
            module_type: m.module_type,
            is_entry: m.is_entry,
            dependencies: m.dependencies,
            transformed: Some(code),
        };
        self.modules.insert(id, m2);
        proof {
            assert(self.modules@ =~= old(self).modules@.update(
                id as int,
                Module { transformed: Some(code), ..old(self).module_at(id as int) },
            ));
            assert forall|a: int, b: int|
                0 <= a < b < self.modules.len() implies self.path_at(a) != self.path_at(b) by {
                assert(self.path_at(a) == old(self).path_at(a));
                assert(self.path_at(b) == old(self).path_at(b));
                assert(old(self).path_at(a) != old(self).path_at(b));
            }
        }
    }

    /// All module IDs, in ascending order.
    pub fn all_module_ids(&self) -> (r: Vec<ModuleId>)
        ensures
            r@.len() == self.spec_len(),
            forall|k: int| 0 <= k < r@.len() ==> r@[k] == k,
    {
        let mut out: Vec<ModuleId> = Vec::new();
        let mut i: usize = 0;
        while i < self.modules.len()
            invariant
                i <= self.modules.len(),
                out@.len() == i,
                forall|k: int| 0 <= k < i ==> out@[k] == k,
            decreases self.modules.len() - i,
        {
            out.push(i);
            i = i + 1;
        }
        out
    }

    /// Working one edge row from position `e`: each target not yet queued
    /// is appended, in edge order.
    pub open spec fn bfs_edges(row: Seq<ModuleId>, e: int, q: Seq<ModuleId>) -> Seq<ModuleId>
        decreases row.len() - e,
    {
        if e < 0 || e >= row.len() {
            q
        } else if q.contains(row[e]) {
            Self::bfs_edges(row, e + 1, q)
        } else {
            Self::bfs_edges(row, e + 1, q.push(row[e]))
        }
    }

    /// The breadth-first traversal: the queue from position `head` on is
    /// worked through, each module appending its unqueued edge targets, and
    /// the finished queue is the traversal order.
    pub open spec fn bfs_from(self, q: Seq<ModuleId>, head: int) -> Seq<ModuleId>
        decreases
                (if self.spec_len() >= q.len() {
                    self.spec_len() - q.len()
                } else {
                    0
                }),
                q.len() - head,
    {
        if head < 0 || head >= q.len() {
            q
        } else {
            let next = if (q[head] as int) < self.spec_len() {
                Self::bfs_edges(self.edges_at(q[head] as int), 0, q)
            } else {
                q
            };
            if next.len() == q.len() {
                self.bfs_from(next, head + 1)
            } else if q.len() < next.len() && next.len() <= self.spec_len() {
                self.bfs_from(next, head + 1)
            } else {
                q
            }
        }
    }

    /// The breadth-first traversal order out of `start`: the exact module
    /// list `get_reachable_modules` returns, a pure function of the graph.
    pub open spec fn bfs_spec(self, start: ModuleId) -> Seq<ModuleId> {
        self.bfs_from(seq![start], 0)
    }

    /// All modules reachable from `start` over forward edges, in
    /// breadth-first order, each exactly once, `start` first.
    pub fn get_reachable_modules(&self, start: ModuleId) -> (r: Vec<ModuleId>)
        requires
            self.wf(),
            (start as int) < self.spec_len(),
        ensures
            r@ == self.bfs_spec(start),
            r@.no_duplicates(),
            r@.len() >= 1 && r@[0] == start,
            forall|k: int| 0 <= k < r@.len() ==> (r@[k] as int) < self.spec_len(),
            forall|b: ModuleId| r@.contains(b) <==> self.reachable(start, b),
    {
        let n = self.modules.len();
        let mut visited: Vec<bool> = Vec::new();
        let mut v: usize = 0;
        while v < n
            invariant
                v <= n,
                visited@.len() == v,
                forall|k: int| 0 <= k < v ==> !visited@[k],
            decreases n - v,
        {
            visited.push(false);
            v = v + 1;
        }
        let mut queue: Vec<ModuleId> = Vec::new();
        queue.push(start);
        visited.set(start, true);
        proof {
            self.lemma_reachable_refl(start);
            assert(queue@ =~= seq![start]);
            assert(self.bfs_spec(start) == self.bfs_from(queue@, 0));
            assert(queue@[0] == start);
            assert forall|x: ModuleId|
                (x as int) < n implies (visited@[x as int] <==> queue@.contains(x)) by {
                if x == start {
                    assert(queue@[0] == start);
                } else {
                    if queue@.contains(x) {
                        let ix = choose|ix: int| 0 <= ix < queue@.len() && queue@[ix] == x;
                        assert(ix == 0);
                    }
                }
            }
        }
        let mut head: usize = 0;
        while head < queue.len()
            invariant
                self.wf(),
                (start as int) < self.spec_len(),
                n == self.spec_len(),
                visited@.len() == n,
                head <= queue@.len(),
                queue@.len() <= n,
                queue@.no_duplicates(),
                queue@.len() >= 1 && queue@[0] == start,
                forall|k: int| 0 <= k < queue@.len() ==> (queue@[k] as int) < n,
                forall|x: ModuleId|
                    (x as int) < n ==> (visited@[x as int] <==> queue@.contains(x)),
                forall|k: int| 0 <= k < queue@.len() ==> self.reachable(start, queue@[k]),
                forall|k: int, e: int|
                    0 <= k < head && 0 <= e < self.edges_at(queue@[k] as int).len()
                        ==> queue@.contains(self.edges_at(queue@[k] as int)[e]),
                self.bfs_spec(start) == self.bfs_from(queue@, head as int),
            decreases n - head,
        {
            let u = queue[head];
            let ghost qstart = queue@;
            let deps_len = self.edges[u].len();
            let mut e: usize = 0;
            while e < deps_len
                invariant
                    self.wf(),
                    (start as int) < self.spec_len(),
                    n == self.spec_len(),
                    visited@.len() == n,
                    head < queue@.len(),
                    queue@.len() <= n,
                    queue@.no_duplicates(),
                    queue@.len() >= 1 && queue@[0] == start,
                    u == queue@[head as int],
                    (u as int) < n,
                    deps_len == self.edges_at(u as int).len(),
                    e <= deps_len,
                    forall|k: int| 0 <= k < queue@.len() ==> (queue@[k] as int) < n,
                    forall|x: ModuleId|
                        (x as int) < n ==> (visited@[x as int] <==> queue@.contains(x)),
                    forall|k: int| 0 <= k < queue@.len() ==> self.reachable(start, queue@[k]),
                    forall|k: int, e2: int|
                        0 <= k < head && 0 <= e2 < self.edges_at(queue@[k] as int).len()
                            ==> queue@.contains(self.edges_at(queue@[k] as int)[e2]),
                    forall|e2: int|
                        0 <= e2 < e ==> queue@.contains(self.edges_at(u as int)[e2]),
                    qstart.len() <= queue@.len(),
                    qstart[head as int] == u,
                    head < qstart.len(),
                    Self::bfs_edges(self.edges_at(u as int), 0, qstart) == Self::bfs_edges(
                        self.edges_at(u as int),
                        e as int,
                        queue@,
                    ),
                decreases deps_len - e,
            {
                let d = self.edges[u][e];
                assert(self.edge(u, d));
                if !visited[d] {
                    let ghost preq = queue@;
                    visited.set(d, true);
                    queue.push(d);
                    proof {
                        self.lemma_reachable_step(start, u, d);
                        assert forall|x: ModuleId| preq.contains(x) implies queue@.contains(
                            x,
                        ) by {
                            let ix = choose|ix: int| 0 <= ix < preq.len() && preq[ix] == x;
                            assert(queue@[ix] == x);
                        }
                        assert(!preq.contains(d));
                        lemma_bounded_distinct_len(queue@, n as nat);
                        assert forall|x: ModuleId|
                            (x as int) < n implies (visited@[x as int] <==> queue@.contains(
                            x,
                        )) by {
                            if x == d {
                                assert(queue@[queue@.len() - 1] == d);
                            } else {
                                if queue@.contains(x) {
                                    let ix = choose|ix: int|
                                        0 <= ix < queue@.len() && queue@[ix] == x;
                                    assert(ix < preq.len());
                                    assert(preq[ix] == x);
                                }
                            }
                        }
                    }
                } else {
                    assert(queue@.contains(d));
                }
                e = e + 1;
            }
            proof {
                assert(Self::bfs_edges(self.edges_at(u as int), deps_len as int, queue@)
                    == queue@);
                assert(Self::bfs_edges(self.edges_at(u as int), 0, qstart) == queue@);
                assert(self.bfs_from(qstart, head as int) == self.bfs_from(
                    queue@,
                    head as int + 1,
                ));
            }
            head = head + 1;
        }
        proof {
            assert(self.bfs_from(queue@, head as int) == queue@);
            assert forall|b: ModuleId| self.reachable(start, b) implies queue@.contains(b) by {
                let p = choose|p: Seq<ModuleId>| self.is_path_between(p, start, b);
                self.lemma_path_stays_inside(queue@, p, start, b);
            }
        }
        queue
    }

    /// Direct dependencies of a module, in edge insertion order.
    pub fn get_dependencies(&self, id: ModuleId) -> (r: Vec<ModuleId>)
        ensures
            (id as int) < self.edges@.len() ==> r@ == self.edges_at(id as int),
            (id as int) >= self.edges@.len() ==> r@ == Seq::<ModuleId>::empty(),
    {
        let mut out: Vec<ModuleId> = Vec::new();
        if id < self.edges.len() {
            let mut k: usize = 0;
            while k < self.edges[id].len()
                invariant
                    (id as int) < self.edges@.len(),
                    k <= self.edges_at(id as int).len(),
                    out@ =~= self.edges_at(id as int).take(k as int),
                decreases self.edges_at(id as int).len() - k,
            {
                out.push(self.edges[id][k]);
                k = k + 1;
                assert(out@ =~= self.edges_at(id as int).take(k as int));
            }
            assert(self.edges_at(id as int).take(self.edges_at(id as int).len() as int)
                == self.edges_at(id as int));
        }
        out
    }

    /// Entry point modules, in ascending ID order.
    pub fn get_entry_modules(&self) -> (r: Vec<ModuleId>)
        ensures
            forall|x: ModuleId|
                r@.contains(x) <==> (x as int) < self.spec_len() && self.module_at(
                    x as int,
                ).is_entry,
            forall|k1: int, k2: int| 0 <= k1 < k2 < r@.len() ==> r@[k1] < r@[k2],
    {
        let mut out: Vec<ModuleId> = Vec::new();
        let mut i: usize = 0;
        while i < self.modules.len()
            invariant
                i <= self.modules.len(),
                forall|k: int|
                    0 <= k < out@.len() ==> (out@[k] as int) < i && self.module_at(
                        #[trigger] out@[k] as int,
                    ).is_entry,
                forall|x: ModuleId|
                    (x as int) < i && self.module_at(x as int).is_entry ==> out@.contains(x),
                forall|k1: int, k2: int| 0 <= k1 < k2 < out@.len() ==> out@[k1] < out@[k2],
            decreases self.modules.len() - i,
        {
            let ghost preout = out@;
            if self.modules[i].is_entry {
                out.push(i);
                proof {
                    assert(out@[out@.len() - 1] == i);
                    assert forall|x: ModuleId|
                        (x as int) < i + 1 && self.module_at(x as int).is_entry
                        implies out@.contains(x) by {
                        if (x as int) < i {
                            assert(preout.contains(x));
                            let ix = choose|ix: int| 0 <= ix < preout.len() && preout[ix] == x;
                            assert(out@[ix] == x);
                        } else {
                            assert(x == i);
                            assert(out@[out@.len() - 1] == x);
                        }
                    }
                }
            }
            i = i + 1;
        }
        proof {
            assert forall|x: ModuleId|
                out@.contains(x) implies (x as int) < self.spec_len() && self.module_at(
                x as int,
            ).is_entry by {
                let ix = choose|ix: int| 0 <= ix < out@.len() && out@[ix] == x;
            }
        }
        out
    }

    /// Total number of modules.
    pub fn len(&self) -> (r: usize)
        ensures
            r == self.spec_len(),
    {
        self.modules.len()
    }

    /// Check if the graph is empty.
    pub fn is_empty(&self) -> (r: bool)
        ensures
            r == (self.spec_len() == 0),
    {
        self.modules.len() == 0
    }
}

impl Default for ModuleGraph {
    /// An empty graph.
    fn default() -> (r: Self)
        ensures
            r.wf(),
            r.spec_len() == 0,
    {
        ModuleGraph::new()
    }
}

fn contains_id(v: &Vec<ModuleId>, x: ModuleId) -> (r: bool)
    ensures
        r == v@.contains(x),
{
    let mut i: usize = 0;
    while i < v.len()
        invariant
            i <= v.len(),
            forall|k: int| 0 <= k < i ==> v@[k] != x,
        decreases v.len() - i,
    {
        if v[i] == x {
            return true;
        }
        i = i + 1;
    }
    false
}

/// A duplicate-free sequence of IDs below `n` holds at most `n` of them.
proof fn lemma_bounded_distinct_len(q: Seq<ModuleId>, n: nat)
    requires
        q.no_duplicates(),
        forall|k: int| 0 <= k < q.len() ==> (q[k] as nat) < n,
    ensures
        q.len() <= n,
{
    let qi = q.map_values(|x: ModuleId| x as int);
    assert(qi.no_duplicates()) by {
        assert forall|i: int, j: int|
            0 <= i < qi.len() && 0 <= j < qi.len() && i != j implies qi[i] != qi[j] by {
            assert(q[i] != q[j]);
        }
    }
    qi.unique_seq_to_set();
    lemma_int_range(0, n as int);
    assert(qi.to_set() <= set_int_range(0, n as int)) by {
        assert forall|x: int| qi.to_set().contains(x) implies set_int_range(
            0,
            n as int,
        ).contains(x) by {
            let ix = choose|ix: int| 0 <= ix < qi.len() && qi[ix] == x;
            assert((q[ix] as nat) < n);
        }
    }
    lemma_len_subset(qi.to_set(), set_int_range(0, n as int));
}

} // verus!
