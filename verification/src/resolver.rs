//! Module resolution: mapping an import specifier and its importer to a
//! concrete file of the snapshot, or to "external".
//!
//! Relative and absolute specifiers resolve against the importer's
//! directory: the exact path first, then each extension of a fixed priority
//! list appended, then `index.<ext>` under the path as a directory. Bare
//! specifiers look for a package directory under `node_modules`, walking the
//! importer's ancestors outward; a bare specifier that matches nothing is
//! external, not an error.

use vstd::prelude::*;

verus! {

use crate::config::{Config, join_under, join_under_chars};
use crate::extract::{extract_spec, find_char_from};
use crate::fsview::FsSnapshot;
use crate::graph::{find_last, last_index_of, slice_chars, ModuleType};
use crate::json::{json_string_field, json_string_field_of};
use crate::strutil::{chars_to_string, push_chars, push_str_chars, str_to_chars};

/// The directory holding a path: what stands before the last `/`.
pub open spec fn parent_of(p: Seq<char>) -> Seq<char> {
    let j = last_index_of(p, '/');
    if j < 0 {
        "."@
    } else if j == 0 {
        "/"@
    } else {
        p.take(j)
    }
}

/// The directory holding a path.
pub fn parent_chars(p: &Vec<char>) -> (r: Vec<char>)
    ensures
        r@ == parent_of(p@),
{
    match find_last(p, '/') {
        None => str_to_chars("."),
        Some(j) => {
            if j == 0 {
                str_to_chars("/")
            } else {
                slice_chars(p, 0, j)
            }
        },
    }
}

/// The extension priority list: the first existing candidate wins.
pub open spec fn ext_at(k: int) -> Seq<char> {
    if k == 0 {
        "js"@
    } else if k == 1 {
        "ts"@
    } else if k == 2 {
        "jsx"@
    } else if k == 3 {
        "tsx"@
    } else if k == 4 {
        "mjs"@
    } else if k == 5 {
        "cjs"@
    } else {
        "json"@
    }
}

fn ext_vec(k: usize) -> (r: Vec<char>)
    requires
        k < 7,
    ensures
        r@ == ext_at(k as int),
{
    if k == 0 {
        str_to_chars("js")
    } else if k == 1 {
        str_to_chars("ts")
    } else if k == 2 {
        str_to_chars("jsx")
    } else if k == 3 {
        str_to_chars("tsx")
    } else if k == 4 {
        str_to_chars("mjs")
    } else if k == 5 {
        str_to_chars("cjs")
    } else {
        str_to_chars("json")
    }
}

/// A candidate with an extension appended.
pub open spec fn with_ext(target: Seq<char>, k: int) -> Seq<char> {
    target + seq!['.'] + ext_at(k)
}

/// A candidate index file under the target as a directory.
pub open spec fn with_index_ext(target: Seq<char>, k: int) -> Seq<char> {
    target + "/index."@ + ext_at(k)
}

/// The first extension whose candidate file exists, from position `k` on;
/// -1 when none does.
pub open spec fn first_ext_match(fs: FsSnapshot, target: Seq<char>, k: int) -> int
    decreases 7 - k,
{
    if k < 0 || k >= 7 {
        -1
    } else if fs.contains_file(with_ext(target, k)) {
        k
    } else {
        first_ext_match(fs, target, k + 1)
    }
}

/// The first extension whose index-file candidate exists, from `k` on;
/// -1 when none does.
pub open spec fn first_index_match(fs: FsSnapshot, target: Seq<char>, k: int) -> int
    decreases 7 - k,
{
    if k < 0 || k >= 7 {
        -1
    } else if fs.contains_file(with_index_ext(target, k)) {
        k
    } else {
        first_index_match(fs, target, k + 1)
    }
}

/// Relative resolution against a base directory: the exact joined path, then
/// extensions in priority order, then index files when the path is a
/// directory; the first match wins.
pub open spec fn resolve_relative_spec(fs: FsSnapshot, specifier: Seq<char>, base: Seq<char>) -> Option<
    Seq<char>,
> {
    let target = join_under(base, specifier);
    if fs.contains_file(target) {
        Some(target)
    } else {
        let k = first_ext_match(fs, target, 0);
        if k >= 0 {
            Some(with_ext(target, k))
        } else if fs.contains_dir(target) {
            let m = first_index_match(fs, target, 0);
            if m >= 0 {
                Some(with_index_ext(target, m))
            } else {
                None
            }
        } else {
            None
        }
    }
}

fn resolve_relative_chars(fs: &FsSnapshot, specifier: &Vec<char>, base: &Vec<char>) -> (r: Option<
    String,
>)
    ensures
        match r {
            Some(p) => resolve_relative_spec(*fs, specifier@, base@) == Some(p@),
            None => resolve_relative_spec(*fs, specifier@, base@) is None,
        },
{
    let target = join_under_chars(base, specifier);
    let target_str = chars_to_string(&target);
    if fs.is_file(target_str.as_str()) {
        return Some(target_str);
    }
    let mut k: usize = 0;
    while k < 7
        invariant
            target@ == join_under(base@, specifier@),
            !fs.contains_file(target@),
            k <= 7,
            first_ext_match(*fs, target@, 0) == first_ext_match(*fs, target@, k as int),
        decreases 7 - k,
    {
        let mut cand = crate::utils::copy_chars(&target);
        cand.push('.');
        let ext = ext_vec(k);
        push_chars(&mut cand, &ext);
        assert(cand@ =~= with_ext(target@, k as int));
        let cand_str = chars_to_string(&cand);
        if fs.is_file(cand_str.as_str()) {
            return Some(cand_str);
        }
        k = k + 1;
    }
    if fs.is_dir(target_str.as_str()) {
        let mut m: usize = 0;
        while m < 7
            invariant
                target@ == join_under(base@, specifier@),
                fs.contains_dir(target@),
                !fs.contains_file(target@),
                first_ext_match(*fs, target@, 0) == -1,
                m <= 7,
                first_index_match(*fs, target@, 0) == first_index_match(*fs, target@, m as int),
            decreases 7 - m,
        {
            let mut cand = crate::utils::copy_chars(&target);
            push_str_chars(&mut cand, "/index.");
            let ext = ext_vec(m);
            push_chars(&mut cand, &ext);
            assert(cand@ =~= with_index_ext(target@, m as int));
            let cand_str = chars_to_string(&cand);
            if fs.is_file(cand_str.as_str()) {
                return Some(cand_str);
            }
            m = m + 1;
        }
        None
    } else {
        None
    }
}

/// The package identity of a bare specifier: the first two `/`-separated
/// segments for a scoped name, the first segment otherwise; the whole
/// specifier when there is no such split.
pub open spec fn package_name_of(sp: Seq<char>) -> Seq<char> {
    if sp.len() > 0 && sp[0] == '@' {
        let s1 = find_char_from(sp, 0, '/');
        if s1 >= 0 {
            let s2 = find_char_from(sp, s1 + 1, '/');
            if s2 >= 0 {
                sp.take(s2)
            } else {
                sp
            }
        } else {
            sp
        }
    } else {
        let s1 = find_char_from(sp, 0, '/');
        if s1 >= 0 {
            sp.take(s1)
        } else {
            sp
        }
    }
}

/// What follows the package name in a bare specifier, if anything.
pub open spec fn subpath_of(sp: Seq<char>) -> Option<Seq<char>> {
    let n = package_name_of(sp).len() as int;
    if n < sp.len() {
        Some(sp.subrange(n + 1, sp.len() as int))
    } else {
        None
    }
}

fn split_package(sp: &Vec<char>) -> (r: (Vec<char>, Option<Vec<char>>))
    ensures
        r.0@ == package_name_of(sp@),
        match r.1 {
            Some(sub) => subpath_of(sp@) == Some(sub@),
            None => subpath_of(sp@) is None,
        },
{
    let name_end: usize = if sp.len() > 0 && sp[0] == '@' {
        match crate::extract::e_find_char(sp, 0, '/') {
            Some(s1) => {
                match crate::extract::e_find_char(sp, s1 + 1, '/') {
                    Some(s2) => s2,
                    None => sp.len(),
                }
            },
            None => sp.len(),
        }
    } else {
        match crate::extract::e_find_char(sp, 0, '/') {
            Some(s1) => s1,
            None => sp.len(),
        }
    };
    let name = slice_chars(sp, 0, name_end);
    proof {
        assert(sp@.take(sp@.len() as int) =~= sp@);
        assert(name@ == package_name_of(sp@));
    }
    if name_end < sp.len() {
        let sub = slice_chars(sp, name_end + 1, sp.len());
        (name, Some(sub))
    } else {
        (name, None)
    }
}

/// Resolution inside one `node_modules` directory: the package directory
/// must exist; a subpath resolves like a relative specifier rooted there;
/// otherwise the manifest's `module` entry is preferred when it names an
/// existing file, then its `main` entry, then `index.js`.
pub open spec fn resolve_in_node_modules_spec(fs: FsSnapshot, sp: Seq<char>, nm: Seq<char>) -> Option<
    Seq<char>,
> {
    if !fs.contains_dir(nm) {
        None
    } else {
        let name = package_name_of(sp);
        let pkg = join_under(nm, name);
        if !fs.contains_dir(pkg) {
            None
        } else {
            match subpath_of(sp) {
                Some(sub) => resolve_relative_spec(fs, sub, pkg),
                None => {
                    let pj = join_under(pkg, "package.json"@);
                    if fs.contains_file(pj) {
                        let content = fs.content_of(pj);
                        let module_entry = json_string_field_of(content, "module"@);
                        if module_entry is Some && fs.contains_file(
                            join_under(pkg, module_entry->0),
                        ) {
                            Some(join_under(pkg, module_entry->0))
                        } else {
                            match json_string_field_of(content, "main"@) {
                                Some(main_entry) => resolve_relative_spec(fs, main_entry, pkg),
                                None => resolve_relative_spec(fs, "index.js"@, pkg),
                            }
                        }
                    } else {
                        resolve_relative_spec(fs, "index.js"@, pkg)
                    }
                },
            }
        }
    }
}

fn resolve_in_node_modules_chars(fs: &FsSnapshot, sp: &Vec<char>, nm: &Vec<char>) -> (r: Option<
    String,
>)
    requires
        fs.wf(),
    ensures
        match r {
            Some(p) => resolve_in_node_modules_spec(*fs, sp@, nm@) == Some(p@),
            None => resolve_in_node_modules_spec(*fs, sp@, nm@) is None,
        },
{
    let nm_str = chars_to_string(nm);
    if !fs.is_dir(nm_str.as_str()) {
        return None;
    }
    let (name, sub) = split_package(sp);
    let pkg = join_under_chars(nm, &name);
    let pkg_str = chars_to_string(&pkg);
    if !fs.is_dir(pkg_str.as_str()) {
        return None;
    }
    match sub {
        Some(subv) => resolve_relative_chars(fs, &subv, &pkg),
        None => {
            let pjv = str_to_chars("package.json");
            let pj = join_under_chars(&pkg, &pjv);
            let pj_str = chars_to_string(&pj);
            match fs.read(pj_str.as_str()) {
                Some(content) => {
                    match json_string_field(content.as_str(), "module") {
                        Some(module_entry) => {
                            let mv = str_to_chars(module_entry.as_str());
                            let mp = join_under_chars(&pkg, &mv);
                            let mp_str = chars_to_string(&mp);
                            if fs.is_file(mp_str.as_str()) {
                                return Some(mp_str);
                            }
                            match json_string_field(content.as_str(), "main") {
                                Some(main_entry) => {
                                    let mnv = str_to_chars(main_entry.as_str());
                                    resolve_relative_chars(fs, &mnv, &pkg)
                                },
                                None => {
                                    let ijs = str_to_chars("index.js");
                                    resolve_relative_chars(fs, &ijs, &pkg)
                                },
                            }
                        },
                        None => {
                            match json_string_field(content.as_str(), "main") {
                                Some(main_entry) => {
                                    let mnv = str_to_chars(main_entry.as_str());
                                    resolve_relative_chars(fs, &mnv, &pkg)
                                },
                                None => {
                                    let ijs = str_to_chars("index.js");
                                    resolve_relative_chars(fs, &ijs, &pkg)
                                },
                            }
                        },
                    }
                },
                None => {
                    let ijs = str_to_chars("index.js");
                    resolve_relative_chars(fs, &ijs, &pkg)
                },
            }
        },
    }
}

/// Bare resolution: try each ancestor directory's `node_modules`, from the
/// importer's directory outward, first hit wins.
pub open spec fn resolve_bare_spec(fs: FsSnapshot, sp: Seq<char>, dir: Seq<char>) -> Option<
    Seq<char>,
>
    decreases dir.len(),
{
    let attempt = resolve_in_node_modules_spec(fs, sp, join_under(dir, "node_modules"@));
    if attempt is Some {
        attempt
    } else {
        let p = parent_of(dir);
        if p.len() < dir.len() {
            resolve_bare_spec(fs, sp, p)
        } else {
            None
        }
    }
}

fn resolve_bare_chars(fs: &FsSnapshot, sp: &Vec<char>, dir0: Vec<char>) -> (r: Option<String>)
    requires
        fs.wf(),
    ensures
        match r {
            Some(p) => resolve_bare_spec(*fs, sp@, dir0@) == Some(p@),
            None => resolve_bare_spec(*fs, sp@, dir0@) is None,
        },
{
    let ghost d0 = dir0@;
    let mut dir = dir0;
    loop
        invariant
            fs.wf(),
            d0 == dir0@,
            resolve_bare_spec(*fs, sp@, d0) == resolve_bare_spec(*fs, sp@, dir@),
        decreases dir@.len(),
    {
        let nmv = str_to_chars("node_modules");
        let nm = join_under_chars(&dir, &nmv);
        let attempt = resolve_in_node_modules_chars(fs, sp, &nm);
        match attempt {
            Some(p) => {
                return Some(p);
            },
            None => {
                let p = parent_chars(&dir);
                if p.len() < dir.len() {
                    dir = p;
                } else {
                    return None;
                }
            },
        }
    }
}

/// A specifier that does not start with `.` or `/`: conventionally a package
/// name, resolved only through package lookup.
pub open spec fn is_bare_spec(s: Seq<char>) -> bool {
    !(s.len() > 0 && (s[0] == '.' || s[0] == '/'))
}

/// Whether a specifier is bare.
pub fn is_bare_specifier(s: &str) -> (r: bool)
    ensures
        r == is_bare_spec(s@),
{
    let v = str_to_chars(s);
    !(v.len() > 0 && (v[0] == '.' || v[0] == '/'))
}

/// What `Resolver::resolve` returns: relative and absolute specifiers
/// resolve against the importer's directory; bare specifiers through package
/// lookup in ancestor `node_modules` directories; `None` means unresolved —
/// external for a bare specifier, a broken import otherwise.
pub open spec fn resolve_spec(fs: FsSnapshot, specifier: Seq<char>, importer: Seq<char>) -> Option<
    Seq<char>,
> {
    if is_bare_spec(specifier) {
        resolve_bare_spec(fs, specifier, parent_of(importer))
    } else {
        resolve_relative_spec(fs, specifier, parent_of(importer))
    }
}

/// Module resolver.
pub struct Resolver {
    /// Project configuration.
    pub config: Config,
}

impl Resolver {
    /// Create a new resolver.
    pub fn new(config: Config) -> (r: Self)
        ensures
            r.config == config,
    {
        Resolver { config }
    }

    /// Extract import/require dependencies from source code, in source
    /// order, duplicates removed; non-JavaScript module types carry none.
    pub fn extract_dependencies(&self, source: &str, _file_path: &str, module_type: &ModuleType) -> (r:
        Vec<String>)
        ensures
            r@.map_values(|x: String| x@) == extract_spec(source@, *module_type),
    {
        crate::extract::extract_dependencies_from(source, module_type)
    }

    /// Resolve an import specifier against the snapshot to the file it
    /// names, or to `None`: external for a bare specifier, unresolved
    /// otherwise.
    pub fn resolve(&self, fs: &FsSnapshot, specifier: &str, from: &str) -> (r: Option<String>)
        requires
            fs.wf(),
        ensures
            match r {
                Some(p) => resolve_spec(*fs, specifier@, from@) == Some(p@),
                None => resolve_spec(*fs, specifier@, from@) is None,
            },
    {
        let sp = str_to_chars(specifier);
        let fromv = str_to_chars(from);
        let base = parent_chars(&fromv);
        if sp.len() > 0 && (sp[0] == '.' || sp[0] == '/') {
            resolve_relative_chars(fs, &sp, &base)
        } else {
            resolve_bare_chars(fs, &sp, base)
        }
    }
}

} // verus!
