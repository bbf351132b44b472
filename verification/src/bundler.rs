//! The core bundler: graph construction from entrypoints, the transform
//! phase, chunk generation and bundle assembly.
//!
//! The whole build is a pure function of the configuration and the file
//! snapshot: graph construction works a queue of discovered module paths,
//! inserting each module before its dependencies are walked, so cyclic
//! imports terminate and re-discovery of a path always hits the dedup path
//! instead of duplicating the module.

use vstd::prelude::*;

verus! {

use vstd::set_lib::{lemma_int_range, lemma_len_subset, set_int_range};
use vstd::string::StringExecFns;
use crate::chunk::{Chunk, ChunkType};
use crate::config::Config;
use crate::errors::BuildError;
use crate::extract::extract_spec;
use crate::fsview::FsSnapshot;
use crate::graph::{detect_type_spec, Module, ModuleGraph, ModuleId};
use crate::resolver::{is_bare_spec, resolve_spec, Resolver};
use crate::strutil::{chars_to_string, push_str_chars, str_to_chars};

/// The views of a list of dependency specifiers.
pub open spec fn dep_views(deps: Seq<String>) -> Seq<Seq<char>> {
    deps.map_values(|d: String| d@)
}

/// A module agrees with the snapshot: its path names a file whose content is
/// the module's source, its type follows from the path, and its dependency
/// list is exactly what extraction finds in the source.
pub open spec fn module_ok(g: ModuleGraph, fs: FsSnapshot, i: int) -> bool {
    let m = g.module_at(i);
    &&& fs.contains_file(m.path@)
    &&& m.source@ == fs.content_of(m.path@)
    &&& m.module_type == detect_type_spec(m.path@)
    &&& dep_views(m.dependencies@) == extract_spec(m.source@, m.module_type)
}

/// Every module of the graph agrees with the snapshot.
pub open spec fn graph_matches_fs(g: ModuleGraph, fs: FsSnapshot) -> bool {
    forall|i: int| 0 <= i < g.spec_len() ==> module_ok(g, fs, i)
}

/// The paths a module's edges point at, in edge order.
pub open spec fn edge_paths(g: ModuleGraph, i: int) -> Seq<Seq<char>> {
    g.edges_at(i).map_values(|id: ModuleId| g.path_at(id as int))
}

/// The paths a module's specifiers resolve to, in specifier order,
/// duplicates removed; unresolved specifiers contribute nothing.
pub open spec fn resolved_dep_paths(
    fs: FsSnapshot,
    deps: Seq<Seq<char>>,
    importer: Seq<char>,
    j: int,
    acc: Seq<Seq<char>>,
) -> Seq<Seq<char>>
    decreases deps.len() - j,
{
    if j < 0 || j >= deps.len() {
        acc
    } else {
        match resolve_spec(fs, deps[j], importer) {
            Some(p) => resolved_dep_paths(
                fs,
                deps,
                importer,
                j + 1,
                if acc.contains(p) {
                    acc
                } else {
                    acc.push(p)
                },
            ),
            None => resolved_dep_paths(fs, deps, importer, j + 1, acc),
        }
    }
}

/// A module's dependencies are fully worked in: every unresolved specifier
/// is bare (external), every resolved path is a module of the graph, and the
/// module's edges point at exactly the resolved paths, in order.
pub open spec fn deps_resolved(g: ModuleGraph, fs: FsSnapshot, i: int) -> bool {
    let m = g.module_at(i);
    let dv = dep_views(m.dependencies@);
    &&& (forall|j: int|
        0 <= j < dv.len() && resolve_spec(fs, #[trigger] dv[j], m.path@) is None ==> is_bare_spec(
            dv[j],
        ))
    &&& (forall|j: int|
        0 <= j < dv.len() && resolve_spec(fs, #[trigger] dv[j], m.path@) is Some ==> g.has_path(
            resolve_spec(fs, dv[j], m.path@)->0,
        ))
    &&& edge_paths(g, i) == resolved_dep_paths(fs, dv, m.path@, 0, Seq::empty())
}

/// Every module of the graph has its dependencies worked in.
pub open spec fn graph_deps_resolved(g: ModuleGraph, fs: FsSnapshot) -> bool {
    forall|i: int| 0 <= i < g.spec_len() ==> deps_resolved(g, fs, i)
}

/// The entry-path set of an entrypoint list (name → canonical path pairs).
pub open spec fn is_entry_path(entries: Seq<(String, String)>, p: Seq<char>) -> bool {
    exists|k: int| 0 <= k < entries.len() && #[trigger] entries[k].1@ == p
}

/// The dependency specifiers of the module a snapshot path holds.
pub open spec fn deps_of_path(fs: FsSnapshot, p: Seq<char>) -> Seq<Seq<char>> {
    extract_spec(fs.content_of(p), detect_type_spec(p))
}

/// Some specifier of the module at `p` resolves to `q`.
pub open spec fn resolves_to(fs: FsSnapshot, p: Seq<char>, q: Seq<char>) -> bool {
    exists|j: int|
        0 <= j < deps_of_path(fs, p).len() && resolve_spec(
            fs,
            #[trigger] deps_of_path(fs, p)[j],
            p,
        ) == Some(q)
}

/// The module at `p` holds a broken import: a specifier that is not bare
/// and resolves to nothing.
pub open spec fn has_broken_import(fs: FsSnapshot, p: Seq<char>) -> bool {
    exists|j: int|
        0 <= j < deps_of_path(fs, p).len() && resolve_spec(
            fs,
            #[trigger] deps_of_path(fs, p)[j],
            p,
        ) is None && !is_bare_spec(deps_of_path(fs, p)[j])
}

/// A chain of imports out of the entry set: it starts at an entry path, and
/// each link is a file of the snapshot with a specifier resolving to the
/// next link.
pub open spec fn import_chain(
    fs: FsSnapshot,
    entries: Seq<(String, String)>,
    chain: Seq<Seq<char>>,
) -> bool {
    &&& chain.len() >= 1
    &&& is_entry_path(entries, chain[0])
    &&& forall|k: int|
        0 <= k < chain.len() - 1 ==> fs.contains_file(#[trigger] chain[k]) && resolves_to(
            fs,
            chain[k],
            chain[k + 1],
        )
}

/// Graph construction is owed failure exactly when some import chain out of
/// an entry reaches a file the snapshot lacks, or a module with a broken
/// import.
pub open spec fn failure_reachable(fs: FsSnapshot, entries: Seq<(String, String)>) -> bool {
    exists|chain: Seq<Seq<char>>|
        import_chain(fs, entries, chain) && (!fs.contains_file(chain.last())
            || has_broken_import(fs, chain.last()))
}

/// Copies of the strings of a vector.
fn clone_strings(v: &Vec<String>) -> (r: Vec<String>)
    ensures
        r@.len() == v@.len(),
        forall|k: int| 0 <= k < v@.len() ==> #[trigger] r@[k]@ == v@[k]@,
{
    let mut out: Vec<String> = Vec::new();
    let mut i: usize = 0;
    while i < v.len()
        invariant
            i <= v.len(),
            out@.len() == i,
            forall|k: int| 0 <= k < i ==> #[trigger] out@[k]@ == v@[k]@,
        decreases v.len() - i,
    {
        out.push(v[i].clone());
        i = i + 1;
    }
    out
}

/// Read, classify and extract one module and append it to the graph.
fn insert_module_from_fs(g: &mut ModuleGraph, fs: &FsSnapshot, path: &str, entry_flag: bool) -> (r:
    Result<ModuleId, BuildError>)
    requires
        old(g).wf(),
        fs.wf(),
        !old(g).has_path(path@),
    ensures
        r is Ok <==> fs.contains_file(path@),
        match r {
            Ok(id) => {
                &&& final(g).wf()
                &&& id as int == old(g).spec_len()
                &&& final(g).spec_len() == old(g).spec_len() + 1
                &&& (forall|i: int|
                    0 <= i < old(g).spec_len() ==> final(g).module_at(i) == old(g).module_at(i))
                &&& (forall|i: int|
                    0 <= i < old(g).spec_len() ==> final(g).edges_at(i) == old(g).edges_at(i))
                &&& final(g).path_at(id as int) == path@
                &&& final(g).module_at(id as int).is_entry == entry_flag
                &&& final(g).module_at(id as int).transformed is None
                &&& module_ok(*final(g), *fs, id as int)
                &&& final(g).edges_at(id as int) == Seq::<ModuleId>::empty()
            },
            Err(e) => {
                &&& *final(g) == *old(g)
                &&& e matches BuildError::FileMissing { path: p } && p@ == path@
            },
        },
{
    let source = match fs.read(path) {
        Some(s) => s,
        None => {
            let mut p = String::new();
            p.append(path);
            return Err(BuildError::FileMissing { path: p });
        },
    };
    let module_type = Module::detect_type(path);
    let dependencies = crate::extract::extract_dependencies_from(source.as_str(), &module_type);
    let mut path_s = String::new();
    path_s.append(path);
    let module = Module {
        path: path_s,
        source,
        module_type,
        is_entry: entry_flag,
        dependencies,
        transformed: None,
    };
    let id = g.add_module(module);
    Ok(id)
}

/// A duplicate-free family of paths that are all keys of the snapshot is no
/// larger than the snapshot.
proof fn lemma_graph_len_bound(g: ModuleGraph, fs: FsSnapshot)
    requires
        g.wf(),
        fs.wf(),
        graph_matches_fs(g, fs),
    ensures
        g.spec_len() <= fs.entries@.len(),
{
    let n = g.spec_len() as int;
    let idxs = Seq::<int>::new(n as nat, |i: int| fs.index_of(g.path_at(i)));
    assert forall|i: int| 0 <= i < n implies 0 <= #[trigger] idxs[i] < fs.entries@.len() by {
        assert(module_ok(g, fs, i));
        let k = fs.index_of(g.path_at(i));
        assert(fs.contains_file(g.path_at(i)));
        assert(0 <= k < fs.entries@.len() && fs.entries@[k].0@ == g.path_at(i));
    }
    assert(idxs.no_duplicates()) by {
        assert forall|a: int, b: int|
            0 <= a < idxs.len() && 0 <= b < idxs.len() && a != b implies idxs[a] != idxs[b] by {
            assert(module_ok(g, fs, a));
            assert(module_ok(g, fs, b));
            assert(fs.contains_file(g.path_at(a)));
            assert(fs.contains_file(g.path_at(b)));
            let ka = fs.index_of(g.path_at(a));
            let kb = fs.index_of(g.path_at(b));
            assert(fs.entries@[ka].0@ == g.path_at(a));
            assert(fs.entries@[kb].0@ == g.path_at(b));
            if a < b {
                assert(g.path_at(a) != g.path_at(b));
            } else {
                assert(g.path_at(b) != g.path_at(a));
            }
        }
    }
    idxs.unique_seq_to_set();
    lemma_int_range(0, fs.entries@.len() as int);
    assert(idxs.to_set() <= set_int_range(0, fs.entries@.len() as int)) by {
        assert forall|x: int| idxs.to_set().contains(x) implies set_int_range(
            0,
            fs.entries@.len() as int,
        ).contains(x) by {
            let ix = choose|ix: int| 0 <= ix < idxs.len() && idxs[ix] == x;
        }
    }
    lemma_len_subset(idxs.to_set(), set_int_range(0, fs.entries@.len() as int));
}

/// A graph extension keeps every old module, path and held path.
proof fn lemma_extension_preserves(pre: ModuleGraph, post: ModuleGraph)
    requires
        post.spec_len() >= pre.spec_len(),
        forall|i: int| 0 <= i < pre.spec_len() ==> post.module_at(i) == pre.module_at(i),
    ensures
        forall|i: int| 0 <= i < pre.spec_len() ==> post.path_at(i) == pre.path_at(i),
        forall|pth: Seq<char>| #[trigger] pre.has_path(pth) ==> post.has_path(pth),
{
    assert forall|i: int| 0 <= i < pre.spec_len() implies post.path_at(i) == pre.path_at(i) by {
        assert(post.module_at(i) == pre.module_at(i));
    }
    assert forall|pth: Seq<char>| #[trigger] pre.has_path(pth) implies post.has_path(pth) by {
        let w = choose|w: int| 0 <= w < pre.spec_len() && pre.path_at(w) == pth;
        assert(post.module_at(w) == pre.module_at(w));
        assert(post.path_at(w) == pth);
    }
}

/// An edge row holds a target ID exactly when the row's paths hold the
/// target's path.
proof fn lemma_edge_contains_iff(g: ModuleGraph, id: ModuleId, tid: ModuleId)
    requires
        g.wf(),
        (id as int) < g.spec_len(),
        (tid as int) < g.spec_len(),
    ensures
        g.edges_at(id as int).contains(tid) <==> edge_paths(g, id as int).contains(
            g.path_at(tid as int),
        ),
{
    let row = g.edges_at(id as int);
    let ep = edge_paths(g, id as int);
    if row.contains(tid) {
        let k = choose|k: int| 0 <= k < row.len() && row[k] == tid;
        assert(ep[k] == g.path_at(tid as int));
    }
    if ep.contains(g.path_at(tid as int)) {
        let k = choose|k: int| 0 <= k < ep.len() && ep[k] == g.path_at(tid as int);
        let other = row[k];
        assert((other as int) < g.spec_len());
        if other != tid {
            if (other as int) < tid as int {
                assert(g.path_at(other as int) != g.path_at(tid as int));
            } else {
                assert(g.path_at(tid as int) != g.path_at(other as int));
            }
        }
        assert(row[k] == tid);
        assert(row.contains(tid));
    }
}

/// Resolve, insert and wire in every dependency of the module at `id`,
/// returning the paths of the modules this walk newly inserted, in insertion
/// order.
fn process_module_deps(g: &mut ModuleGraph, fs: &FsSnapshot, rv: &Resolver, id: ModuleId) -> (r:
    Result<Vec<String>, BuildError>)
    requires
        old(g).wf(),
        fs.wf(),
        graph_matches_fs(*old(g), *fs),
        (id as int) < old(g).spec_len(),
        old(g).edges_at(id as int) == Seq::<ModuleId>::empty(),
    ensures
        final(g).wf(),
        match r {
            Ok(news) => {
                &&& final(g).wf()
                &&& graph_matches_fs(*final(g), *fs)
                &&& final(g).spec_len() >= old(g).spec_len()
                &&& (forall|i: int|
                    0 <= i < old(g).spec_len() ==> final(g).module_at(i) == old(g).module_at(i))
                &&& (forall|i: int|
                    0 <= i < old(g).spec_len() && i != id as int ==> final(g).edges_at(i) == old(
                        g,
                    ).edges_at(i))
                &&& news@.len() == final(g).spec_len() - old(g).spec_len()
                &&& (forall|t: int| #![trigger final(g).module_at(t)]
                    old(g).spec_len() <= t < final(g).spec_len() ==> {
                        &&& final(g).path_at(t) == news@[t - old(g).spec_len()]@
                        &&& !(final(g).module_at(t).is_entry)
                        &&& final(g).module_at(t).transformed is None
                        &&& final(g).edges_at(t) == Seq::<ModuleId>::empty()
                        &&& resolves_to(*fs, old(g).path_at(id as int), final(g).path_at(t))
                    })
                &&& deps_resolved(*final(g), *fs, id as int)
            },
            Err(e) => match e {
                BuildError::FileMissing { path } => !fs.contains_file(path@) && resolves_to(
                    *fs,
                    old(g).path_at(id as int),
                    path@,
                ),
                BuildError::UnresolvedImport { specifier, importer } => resolve_spec(
                    *fs,
                    specifier@,
                    importer@,
                ) is None && !is_bare_spec(specifier@) && importer@ == old(g).path_at(id as int)
                    && has_broken_import(*fs, importer@),
                _ => false,
            },
        },
{
    let p = g.modules[id].path.clone();
    let deps = clone_strings(&g.modules[id].dependencies);
    let ghost dv = dep_views(old(g).module_at(id as int).dependencies@);
    proof {
        assert(p@ == g.path_at(id as int));
        assert(forall|k: int| 0 <= k < dv.len() ==> #[trigger] dv[k] == deps@[k]@);
        assert(edge_paths(*g, id as int) =~= Seq::<Seq<char>>::empty());
        assert(module_ok(*g, *fs, id as int));
        assert(dv == deps_of_path(*fs, p@));
    }
    let mut news: Vec<String> = Vec::new();
    let mut j: usize = 0;
    while j < deps.len()
        invariant
            fs.wf(),
            g.wf(),
            j <= deps@.len(),
            graph_matches_fs(*g, *fs),
            (id as int) < old(g).spec_len(),
            g.spec_len() >= old(g).spec_len(),
            g.path_at(id as int) == p@,
            dv.len() == deps@.len(),
            forall|k: int| 0 <= k < dv.len() ==> #[trigger] dv[k] == deps@[k]@,
            dv == dep_views(g.module_at(id as int).dependencies@),
            dv == deps_of_path(*fs, p@),
            p@ == old(g).path_at(id as int),
            forall|i: int|
                0 <= i < old(g).spec_len() ==> g.module_at(i) == old(g).module_at(i),
            forall|i: int|
                0 <= i < old(g).spec_len() && i != id as int ==> g.edges_at(i) == old(g).edges_at(
                    i,
                ),
            news@.len() == g.spec_len() - old(g).spec_len(),
            forall|t: int| #![trigger g.module_at(t)]
                old(g).spec_len() <= t < g.spec_len() ==> {
                    &&& g.path_at(t) == news@[t - old(g).spec_len()]@
                    &&& !(g.module_at(t).is_entry)
                    &&& g.module_at(t).transformed is None
                    &&& g.edges_at(t) == Seq::<ModuleId>::empty()
                    &&& resolves_to(*fs, p@, g.path_at(t))
                },
            forall|jj: int|
                0 <= jj < j && resolve_spec(*fs, #[trigger] dv[jj], p@) is None ==> is_bare_spec(
                    dv[jj],
                ),
            forall|jj: int|
                0 <= jj < j && resolve_spec(*fs, #[trigger] dv[jj], p@) is Some ==> g.has_path(
                    resolve_spec(*fs, dv[jj], p@)->0,
                ),
            resolved_dep_paths(*fs, dv, p@, 0, Seq::empty()) == resolved_dep_paths(
                *fs,
                dv,
                p@,
                j as int,
                edge_paths(*g, id as int),
            ),
        decreases deps@.len() - j,
    {
        let resolved = rv.resolve(fs, deps[j].as_str(), p.as_str());
        match resolved {
            Some(target) => {
                proof {
                    assert(deps_of_path(*fs, p@)[j as int] == dv[j as int]);
                    assert(resolve_spec(*fs, deps_of_path(*fs, p@)[j as int], p@) == Some(
                        target@,
                    ));
                    assert(resolves_to(*fs, p@, target@));
                }
                let ghost pre = *g;
                let ghost prenews = news@;
                let tid = match g.get_module_id(target.as_str()) {
                    Some(t) => t,
                    None => {
                        match insert_module_from_fs(g, fs, target.as_str(), false) {
                            Ok(t) => {
                                proof {
                                    assert forall|i: int|
                                        0 <= i < g.spec_len() implies module_ok(*g, *fs, i) by {
                                        if i < pre.spec_len() {
                                            assert(module_ok(pre, *fs, i));
                                            assert(g.module_at(i) == pre.module_at(i));
                                        }
                                    }
                                    assert(edge_paths(*g, id as int) =~= edge_paths(
                                        pre,
                                        id as int,
                                    )) by {
                                        assert(g.edges_at(id as int) == pre.edges_at(id as int));
                                        assert forall|e: int|
                                            0 <= e < pre.edges_at(id as int).len()
                                                implies edge_paths(*g, id as int)[e]
                                            == edge_paths(pre, id as int)[e] by {
                                            let tt = pre.edges_at(id as int)[e];
                                            assert((tt as int) < pre.spec_len());
                                            assert(g.module_at(tt as int) == pre.module_at(
                                                tt as int,
                                            ));
                                        }
                                    }
                                    lemma_extension_preserves(pre, *g);
                                }
                                news.push(target.clone());
                                proof {
                                    assert(news@[news@.len() - 1]@ == target@);
                                    assert forall|t2: int| #![trigger g.module_at(t2)]
                                        old(g).spec_len() <= t2 < g.spec_len() implies {
                                        &&& g.path_at(t2) == news@[t2 - old(g).spec_len()]@
                                        &&& !(g.module_at(t2).is_entry)
                                        &&& g.module_at(t2).transformed is None
                                        &&& g.edges_at(t2) == Seq::<ModuleId>::empty()
                                        &&& resolves_to(*fs, p@, g.path_at(t2))
                                    } by {
                                        if t2 < pre.spec_len() {
                                            assert(pre.module_at(t2) == pre.module_at(t2));
                                            assert(g.module_at(t2) == pre.module_at(t2));
                                            assert(g.edges_at(t2) == pre.edges_at(t2));
                                            assert(pre.path_at(t2) == prenews[t2 - old(
                                                g,
                                            ).spec_len()]@);
                                            assert(news@[t2 - old(g).spec_len()] == prenews[t2
                                                - old(g).spec_len()]);
                                            assert(resolves_to(*fs, p@, pre.path_at(t2)));
                                            assert(g.path_at(t2) == pre.path_at(t2));
                                        } else {
                                            assert(t2 == pre.spec_len());
                                            assert(g.path_at(t2) == target@);
                                        }
                                    }
                                }
                                t
                            },
                            Err(e) => {
                                proof {
                                    assert(p@ == old(g).path_at(id as int));
                                }
                                return Err(e);
                            },
                        }
                    },
                };
                proof {
                    assert(g.path_at(tid as int) == target@);
                    assert(g.has_path(target@));
                }
                let ghost before_add = *g;
                g.add_dependency(id, tid);
                proof {
                    assert(g.modules@ == before_add.modules@);
                    assert forall|i: int|
                        0 <= i < g.spec_len() implies g.module_at(i) == before_add.module_at(
                        i,
                    ) by {}
                    assert forall|i: int| 0 <= i < g.spec_len() implies module_ok(*g, *fs, i) by {
                        assert(module_ok(before_add, *fs, i));
                        assert(g.module_at(i) == before_add.module_at(i));
                    }
                    lemma_extension_preserves(before_add, *g);
                    assert forall|t2: int| #![trigger g.module_at(t2)]
                        old(g).spec_len() <= t2 < g.spec_len() implies {
                        &&& g.path_at(t2) == news@[t2 - old(g).spec_len()]@
                        &&& !(g.module_at(t2).is_entry)
                        &&& g.module_at(t2).transformed is None
                        &&& g.edges_at(t2) == Seq::<ModuleId>::empty()
                        &&& resolves_to(*fs, p@, g.path_at(t2))
                    } by {
                        assert(before_add.path_at(t2) == news@[t2 - old(g).spec_len()]@);
                        assert(!(before_add.module_at(t2).is_entry));
                        assert(before_add.module_at(t2).transformed is None);
                        assert(before_add.edges_at(t2) == Seq::<ModuleId>::empty());
                        assert(resolves_to(*fs, p@, before_add.path_at(t2)));
                        assert(g.module_at(t2) == before_add.module_at(t2));
                        assert(t2 != id as int);
                        assert(g.edges_at(t2) == before_add.edges_at(t2));
                    }
                    lemma_edge_contains_iff(before_add, id, tid);
                    let pre_ep = edge_paths(before_add, id as int);
                    assert(pre_ep == edge_paths(pre, id as int)) by {
                        assert(pre_ep =~= edge_paths(pre, id as int)) by {
                            assert forall|e: int|
                                0 <= e < before_add.edges_at(id as int).len() implies pre_ep[e]
                                == edge_paths(pre, id as int)[e] by {
                                let tt = pre.edges_at(id as int)[e];
                                assert((tt as int) < pre.spec_len());
                                assert(before_add.module_at(tt as int) == pre.module_at(
                                    tt as int,
                                ));
                            }
                            assert(before_add.edges_at(id as int) == pre.edges_at(id as int));
                        }
                    }
                    if before_add.edges_at(id as int).contains(tid) {
                        assert(g.edges_at(id as int) == before_add.edges_at(id as int));
                        assert(edge_paths(*g, id as int) =~= pre_ep);
                        assert(pre_ep.contains(target@));
                    } else {
                        assert(g.edges_at(id as int) == before_add.edges_at(id as int).push(tid));
                        assert(edge_paths(*g, id as int) =~= pre_ep.push(target@));
                        assert(!pre_ep.contains(target@));
                    }
                    assert(resolve_spec(*fs, dv[j as int], p@) == Some(target@));
                    assert(resolved_dep_paths(*fs, dv, p@, j as int, pre_ep)
                        == resolved_dep_paths(
                        *fs,
                        dv,
                        p@,
                        j as int + 1,
                        edge_paths(*g, id as int),
                    ));
                }
            },
            None => {
                if crate::resolver::is_bare_specifier(deps[j].as_str()) {
                    // external: no edge, no error
                    proof {
                        assert(resolve_spec(*fs, dv[j as int], p@) is None);
                        assert(is_bare_spec(dv[j as int]));
                        assert(resolved_dep_paths(
                            *fs,
                            dv,
                            p@,
                            j as int,
                            edge_paths(*g, id as int),
                        ) == resolved_dep_paths(
                            *fs,
                            dv,
                            p@,
                            j as int + 1,
                            edge_paths(*g, id as int),
                        ));
                    }
                } else {
                    let mut sp = String::new();
                    sp.append(deps[j].as_str());
                    let mut imp = String::new();
                    imp.append(p.as_str());
                    proof {
                        assert(deps_of_path(*fs, p@)[j as int] == dv[j as int]);
                        assert(resolve_spec(*fs, deps_of_path(*fs, p@)[j as int], p@) is None);
                        assert(!is_bare_spec(deps_of_path(*fs, p@)[j as int]));
                        assert(has_broken_import(*fs, p@));
                        assert(imp@ == old(g).path_at(id as int));
                    }
                    return Err(BuildError::UnresolvedImport { specifier: sp, importer: imp });
                }
            },
        }
        j = j + 1;
    }
    proof {
        assert(resolved_dep_paths(*fs, dv, p@, dv.len() as int, edge_paths(*g, id as int))
            == edge_paths(*g, id as int));
        assert(deps_resolved(*g, *fs, id as int));
    }
    Ok(news)
}

/// Build the module graph: insert every entrypoint, then work a queue of
/// discovered modules, resolving each module's specifiers, adding edges, and
/// inserting newly discovered modules until none remain.
/// What a finished graph construction guarantees: a well-formed graph whose
/// modules match the snapshot, with every dependency worked in, every entry
/// path present, the entry flag exactly on entry paths, and no transform
/// run yet.
pub open spec fn built_graph_ok(g: ModuleGraph, fs: FsSnapshot, entries: Seq<(String, String)>) -> bool {
    &&& g.wf()
    &&& graph_matches_fs(g, fs)
    &&& graph_deps_resolved(g, fs)
    &&& (forall|k: int| 0 <= k < entries.len() ==> g.has_path(#[trigger] entries[k].1@))
    &&& (forall|i: int|
        0 <= i < g.spec_len() ==> (g.module_at(i).is_entry <==> is_entry_path(
            entries,
            g.path_at(i),
        )))
    &&& (forall|i: int| 0 <= i < g.spec_len() ==> g.module_at(i).transformed is None)
}

/// What each construction error testifies to in the snapshot.
pub open spec fn build_error_cause(e: BuildError, fs: FsSnapshot, entries: Seq<(String, String)>) -> bool {
    match e {
        BuildError::MissingEntrypoint { name, path } => exists|k: int|
            0 <= k < entries.len() && #[trigger] entries[k].0@ == name@ && entries[k].1@
                == path@ && !fs.contains_file(path@),
        BuildError::FileMissing { path } => !fs.contains_file(path@),
        BuildError::UnresolvedImport { specifier, importer } => resolve_spec(
            fs,
            specifier@,
            importer@,
        ) is None && !is_bare_spec(specifier@),
        _ => false,
    }
}

#[verifier::rlimit(80)]
pub fn build_graph(g: &mut ModuleGraph, fs: &FsSnapshot, rv: &Resolver, entries: &Vec<(String, String)>) -> (r:
    Result<(), BuildError>)
    requires
        old(g).wf(),
        old(g).spec_len() == 0,
        fs.wf(),
    ensures
        final(g).wf(),
        r is Ok <==> !failure_reachable(*fs, entries@),
        r is Ok ==> built_graph_ok(*final(g), *fs, entries@),
        r matches Err(e) ==> build_error_cause(e, *fs, entries@),
{
    // Insert every entrypoint first, so the first path to reach a module —
    // an entry path — wins the entry flag. Each queued path carries a ghost
    // import chain witnessing how an entry reaches it.
    let mut queue: Vec<String> = Vec::new();
    let ghost mut chains: Seq<Seq<Seq<char>>> = Seq::empty();
    let mut k: usize = 0;
    while k < entries.len()
        invariant
            fs.wf(),
            g.wf(),
            k <= entries@.len(),
            chains.len() == queue@.len(),
            forall|q: int|
                0 <= q < queue@.len() ==> import_chain(*fs, entries@, #[trigger] chains[q])
                    && chains[q].last() == queue@[q]@,
            graph_matches_fs(*g, *fs),
            forall|i: int|
                0 <= i < g.spec_len() ==> (g.module_at(i).is_entry && is_entry_path(
                    entries@,
                    g.path_at(i),
                ) && g.module_at(i).transformed is None),
            forall|j: int| 0 <= j < k ==> g.has_path(#[trigger] entries@[j].1@),
            forall|q: int| 0 <= q < queue@.len() ==> g.has_path(#[trigger] queue@[q]@),
            forall|q1: int, q2: int|
                0 <= q1 < q2 < queue@.len() ==> queue@[q1]@ != queue@[q2]@,
            forall|i: int| #![trigger g.path_at(i)]
                0 <= i < g.spec_len() ==> exists|q: int|
                    0 <= q < queue@.len() && queue@[q]@ == g.path_at(i),
            forall|i: int| 0 <= i < g.spec_len() ==> g.edges_at(i) == Seq::<ModuleId>::empty(),
        decreases entries@.len() - k,
    {
        match g.get_module_id(entries[k].1.as_str()) {
            Some(_) => {},
            None => {
                let ghost pre = *g;
                let ghost preq = queue@;
                match insert_module_from_fs(g, fs, entries[k].1.as_str(), true) {
                    Ok(id) => {
                        proof {
                            assert(g.path_at(id as int) == entries@[k as int].1@);
                            assert(is_entry_path(entries@, g.path_at(id as int)));
                            assert forall|i: int|
                                0 <= i < g.spec_len() implies module_ok(*g, *fs, i) by {
                                if i < pre.spec_len() {
                                    assert(module_ok(pre, *fs, i));
                                    assert(g.module_at(i) == pre.module_at(i));
                                }
                            }
                            lemma_extension_preserves(pre, *g);
                        }
                        queue.push(entries[k].1.clone());
                        proof {
                            let single: Seq<Seq<char>> = seq![entries@[k as int].1@];
                            assert(is_entry_path(entries@, single[0]));
                            assert(import_chain(*fs, entries@, single));
                            chains = chains.push(single);
                            assert(chains[chains.len() - 1].last() == queue@[queue@.len()
                                - 1]@);
                            assert(queue@[queue@.len() - 1]@ == g.path_at(id as int));
                            assert forall|q1: int, q2: int|
                                0 <= q1 < q2 < queue@.len() implies queue@[q1]@ != queue@[q2]@ by {
                                if q2 < preq.len() {
                                    assert(preq[q1]@ != preq[q2]@);
                                } else {
                                    assert(pre.has_path(preq[q1]@));
                                    assert(!pre.has_path(queue@[q2]@));
                                }
                            }
                            assert forall|i: int| #![trigger g.path_at(i)]
                                0 <= i < g.spec_len() implies exists|q: int|
                                0 <= q < queue@.len() && queue@[q]@ == g.path_at(i) by {
                                if i < pre.spec_len() {
                                    let q = choose|q: int|
                                        0 <= q < preq.len() && #[trigger] preq[q]@ == pre.path_at(
                                            i,
                                        );
                                    assert(queue@[q]@ == g.path_at(i));
                                } else {
                                    assert(queue@[queue@.len() - 1]@ == g.path_at(i));
                                }
                            }
                        }
                    },
                    Err(_) => {
                        let mut nm = String::new();
                        nm.append(entries[k].0.as_str());
                        let mut pm = String::new();
                        pm.append(entries[k].1.as_str());
                        proof {
                            let ki = k as int;
                            assert(0 <= ki < entries@.len() && entries@[ki].0@ == nm@
                                && entries@[ki].1@ == pm@ && !fs.contains_file(pm@));
                            let single: Seq<Seq<char>> = seq![pm@];
                            assert(is_entry_path(entries@, single[0]));
                            assert(import_chain(*fs, entries@, single));
                            assert(!fs.contains_file(single.last()));
                            assert(failure_reachable(*fs, entries@));
                        }
                        return Err(BuildError::MissingEntrypoint { name: nm, path: pm });
                    },
                }
            },
        }
        k = k + 1;
    }

    proof {
        lemma_graph_len_bound(*g, *fs);
    }

    // Work the queue: each queued path is a module already in the graph
    // whose specifiers have not been walked yet.
    let mut head: usize = 0;
    while head < queue.len()
        invariant
            fs.wf(),
            g.wf(),
            head <= queue@.len(),
            chains.len() == queue@.len(),
            forall|q: int|
                0 <= q < queue@.len() ==> import_chain(*fs, entries@, #[trigger] chains[q])
                    && chains[q].last() == queue@[q]@,
            graph_matches_fs(*g, *fs),
            g.spec_len() <= fs.entries@.len(),
            forall|i: int|
                0 <= i < g.spec_len() ==> (g.module_at(i).is_entry <==> is_entry_path(
                    entries@,
                    g.path_at(i),
                )),
            forall|i: int| 0 <= i < g.spec_len() ==> g.module_at(i).transformed is None,
            forall|j: int| 0 <= j < entries@.len() ==> g.has_path(#[trigger] entries@[j].1@),
            forall|q: int| 0 <= q < queue@.len() ==> g.has_path(#[trigger] queue@[q]@),
            forall|q1: int, q2: int|
                0 <= q1 < q2 < queue@.len() ==> queue@[q1]@ != queue@[q2]@,
            forall|i: int, q: int|
                #![trigger queue@[q], g.path_at(i)]
                0 <= i < g.spec_len() && head <= q < queue@.len() && queue@[q]@
                    == g.path_at(i) ==> g.edges_at(i) == Seq::<ModuleId>::empty(),
            forall|i: int|
                0 <= i < g.spec_len() ==> (exists|q: int|
                    head <= q < queue@.len() && #[trigger] queue@[q]@ == g.path_at(i))
                    || deps_resolved(*g, *fs, i),
        decreases fs.entries@.len() - g.spec_len(), queue@.len() - head,
    {
        let ghost pre = *g;
        let ghost preq = queue@;
        let ghost prechains = chains;
        let ghost c = chains[head as int];
        let p = queue[head].clone();
        let id = match g.get_module_id(p.as_str()) {
            Some(id) => id,
            None => {
                proof {
                    assert(g.has_path(queue@[head as int]@));
                    assert(false);
                }
                0
            },
        };
        proof {
            assert(queue@[head as int]@ == g.path_at(id as int));
            assert(g.edges_at(id as int) == Seq::<ModuleId>::empty());
        }
        proof {
            assert(module_ok(pre, *fs, id as int));
            assert(c.last() == p@);
        }
        match process_module_deps(g, fs, rv, id) {
            Ok(news) => {
                let mut n: usize = 0;
                while n < news.len()
                    invariant
                        n <= news@.len(),
                        queue@.len() == preq.len() + n,
                        forall|q: int| 0 <= q < preq.len() ==> queue@[q] == preq[q],
                        forall|q: int|
                            preq.len() <= q < queue@.len() ==> #[trigger] queue@[q]@ == news@[q
                                - preq.len()]@,
                    decreases news@.len() - n,
                {
                    queue.push(news[n].clone());
                    n = n + 1;
                }
                proof {
                    // extend the witness chains: each newly queued module is
                    // one resolution step from the popped one
                    chains = chains + Seq::new(news@.len(), |n2: int| c.push(news@[n2]@));
                    assert forall|q: int|
                        0 <= q < queue@.len() implies import_chain(
                        *fs,
                        entries@,
                        #[trigger] chains[q],
                    ) && chains[q].last() == queue@[q]@ by {
                        if q < preq.len() {
                            assert(chains[q] == prechains[q]);
                            assert(queue@[q] == preq[q]);
                            assert(import_chain(*fs, entries@, prechains[q]));
                        } else {
                            let n2 = q - preq.len();
                            assert(chains[q] == c.push(news@[n2]@));
                            assert(import_chain(*fs, entries@, c));
                            assert(fs.contains_file(p@));
                            assert(news@.len() == g.spec_len() - pre.spec_len());
                            assert(pre.spec_len() <= pre.spec_len() + n2 < g.spec_len());
                            assert(g.module_at(pre.spec_len() + n2) == g.module_at(
                                pre.spec_len() + n2,
                            ));
                            assert(!(g.module_at(pre.spec_len() + n2).is_entry));
                            assert(g.path_at(pre.spec_len() + n2) == news@[n2]@);
                            assert(resolves_to(*fs, pre.path_at(id as int), g.path_at(
                                pre.spec_len() + n2,
                            )));
                            assert(resolves_to(*fs, p@, news@[n2]@));
                            let cq = chains[q];
                            assert forall|k2: int|
                                0 <= k2 < cq.len() - 1 implies fs.contains_file(
                                #[trigger] cq[k2],
                            ) && resolves_to(*fs, cq[k2], cq[k2 + 1]) by {
                                if k2 < c.len() - 1 {
                                    assert(cq[k2] == c[k2]);
                                    assert(cq[k2 + 1] == c[k2 + 1]);
                                    assert(fs.contains_file(c[k2]) && resolves_to(
                                        *fs,
                                        c[k2],
                                        c[k2 + 1],
                                    ));
                                } else {
                                    assert(k2 == c.len() - 1);
                                    assert(cq[k2] == c.last());
                                    assert(cq[k2 + 1] == news@[n2]@);
                                }
                            }
                            assert(import_chain(*fs, entries@, cq));
                            assert(cq.last() == news@[n2]@);
                            assert(queue@[q]@ == news@[n2]@);
                        }
                    }
                    lemma_extension_preserves(pre, *g);
                    // entry flags persist, and a newly discovered module is
                    // never an entry: entry paths were all present already
                    assert forall|i: int|
                        0 <= i < g.spec_len() implies (g.module_at(i).is_entry <==> is_entry_path(
                        entries@,
                        g.path_at(i),
                    )) by {
                        if i < pre.spec_len() {
                            assert(g.module_at(i) == pre.module_at(i));
                            assert(g.path_at(i) == pre.path_at(i));
                        } else {
                            assert(g.module_at(i) == g.module_at(i));
                            assert(!g.module_at(i).is_entry);
                            if is_entry_path(entries@, g.path_at(i)) {
                                let ke = choose|ke: int|
                                    0 <= ke < entries@.len() && #[trigger] entries@[ke].1@
                                        == g.path_at(i);
                                assert(pre.has_path(entries@[ke].1@));
                                let w = choose|w: int|
                                    0 <= w < pre.spec_len() && pre.path_at(w) == entries@[ke].1@;
                                assert(g.path_at(w) == g.path_at(i));
                                assert(w < i);
                                assert(g.path_at(w) != g.path_at(i));
                            }
                        }
                    }
                    assert forall|i: int|
                        0 <= i < g.spec_len() implies g.module_at(i).transformed is None by {
                        if i < pre.spec_len() {
                            assert(g.module_at(i) == pre.module_at(i));
                        }
                    }
                    assert forall|jx: int|
                        0 <= jx < entries@.len() implies g.has_path(#[trigger] entries@[jx].1@) by {
                        assert(pre.has_path(entries@[jx].1@));
                    }
                    assert forall|q: int|
                        0 <= q < queue@.len() implies g.has_path(#[trigger] queue@[q]@) by {
                        if q < preq.len() {
                            assert(pre.has_path(preq[q]@));
                        } else {
                            let t = pre.spec_len() + (q - preq.len());
                            assert(queue@[q]@ == g.path_at(t));
                        }
                    }
                    // queue entries stay pairwise distinct: the new entries
                    // are paths that were not in the graph, while the old
                    // entries all were
                    assert forall|q1: int, q2: int|
                        0 <= q1 < q2 < queue@.len() implies queue@[q1]@ != queue@[q2]@ by {
                        if q2 < preq.len() {
                            assert(preq[q1]@ != preq[q2]@);
                        } else {
                            let t2 = pre.spec_len() + (q2 - preq.len());
                            assert(queue@[q2]@ == g.path_at(t2));
                            if q1 < preq.len() {
                                assert(pre.has_path(preq[q1]@));
                                let w = choose|w: int|
                                    0 <= w < pre.spec_len() && pre.path_at(w) == preq[q1]@;
                                assert(g.path_at(w) == preq[q1]@);
                                if g.path_at(w) == g.path_at(t2) {
                                    assert(w < t2);
                                    assert(g.path_at(w) != g.path_at(t2));
                                }
                            } else {
                                let t1 = pre.spec_len() + (q1 - preq.len());
                                assert(queue@[q1]@ == g.path_at(t1));
                                assert(t1 < t2);
                                assert(g.path_at(t1) != g.path_at(t2));
                            }
                        }
                    }
                    // a module whose path is still pending has no edges yet
                    assert forall|i: int, q: int|
                        #![trigger queue@[q], g.path_at(i)]
                        0 <= i < g.spec_len() && head + 1 <= q < queue@.len()
                            && queue@[q]@ == g.path_at(i) implies g.edges_at(i)
                        == Seq::<ModuleId>::empty() by {
                        if i < pre.spec_len() {
                            assert(g.path_at(i) == pre.path_at(i));
                            if q < preq.len() {
                                assert(preq[q]@ == pre.path_at(i));
                                assert(pre.edges_at(i) == Seq::<ModuleId>::empty());
                                if i == id as int {
                                    assert(preq[q]@ != preq[head as int]@);
                                    assert(false);
                                }
                                assert(g.edges_at(i) == pre.edges_at(i));
                            } else {
                                let t = pre.spec_len() + (q - preq.len());
                                assert(queue@[q]@ == g.path_at(t));
                                if i != t {
                                    if i < t {
                                        assert(g.path_at(i) != g.path_at(t));
                                    } else {
                                        assert(g.path_at(t) != g.path_at(i));
                                    }
                                    assert(false);
                                }
                            }
                        }
                    }
                    // every graph module is either still pending on the queue
                    // or fully worked in
                    assert forall|i: int|
                        0 <= i < g.spec_len() implies (exists|q: int|
                        head + 1 <= q < queue@.len() && #[trigger] queue@[q]@ == g.path_at(i))
                        || deps_resolved(*g, *fs, i) by {
                        if i < pre.spec_len() {
                            if i == id as int {
                                assert(deps_resolved(*g, *fs, i));
                            } else {
                                if exists|q: int|
                                    head <= q < preq.len() && #[trigger] preq[q]@ == pre.path_at(
                                        i,
                                    ) {
                                    let q = choose|q: int|
                                        head <= q < preq.len() && #[trigger] preq[q]@
                                            == pre.path_at(i);
                                    if q == head {
                                        // the popped path is this module's path:
                                        // then i == id by uniqueness
                                        assert(preq[q]@ == p@);
                                        assert(pre.path_at(i) == pre.path_at(id as int));
                                        if i < id as int {
                                            assert(pre.path_at(i) != pre.path_at(id as int));
                                        } else {
                                            assert(pre.path_at(id as int) != pre.path_at(i));
                                        }
                                        assert(false);
                                    } else {
                                        assert(queue@[q]@ == g.path_at(i));
                                    }
                                } else {
                                    assert(deps_resolved(pre, *fs, i));
                                    lemma_deps_resolved_preserved(pre, *g, *fs, i);
                                }
                            }
                        } else {
                            let q = preq.len() + (i - pre.spec_len());
                            assert(queue@[q]@ == g.path_at(i));
                            assert(head + 1 <= q);
                        }
                    }
                    lemma_graph_len_bound(*g, *fs);
                }
                head = head + 1;
            },
            Err(e) => {
                proof {
                    match &e {
                        BuildError::FileMissing { path: pm } => {
                            let cq = c.push(pm@);
                            assert(resolves_to(*fs, pre.path_at(id as int), pm@));
                            assert(pre.path_at(id as int) == p@);
                            assert forall|k2: int|
                                0 <= k2 < cq.len() - 1 implies fs.contains_file(
                                #[trigger] cq[k2],
                            ) && resolves_to(*fs, cq[k2], cq[k2 + 1]) by {
                                if k2 < c.len() - 1 {
                                    assert(cq[k2] == c[k2]);
                                    assert(cq[k2 + 1] == c[k2 + 1]);
                                    assert(fs.contains_file(c[k2]) && resolves_to(
                                        *fs,
                                        c[k2],
                                        c[k2 + 1],
                                    ));
                                } else {
                                    assert(k2 == c.len() - 1);
                                    assert(cq[k2] == c.last());
                                    assert(cq[k2 + 1] == pm@);
                                }
                            }
                            assert(import_chain(*fs, entries@, cq));
                            assert(cq.last() == pm@ && !fs.contains_file(cq.last()));
                            assert(failure_reachable(*fs, entries@));
                        },
                        BuildError::UnresolvedImport { specifier: _, importer: imp } => {
                            assert(imp@ == pre.path_at(id as int));
                            assert(pre.path_at(id as int) == p@);
                            assert(import_chain(*fs, entries@, c));
                            assert(has_broken_import(*fs, c.last()));
                            assert(failure_reachable(*fs, entries@));
                        },
                        _ => {},
                    }
                }
                return Err(e);
            },
        }
    }
    proof {
        assert forall|i: int| 0 <= i < g.spec_len() implies deps_resolved(*g, *fs, i) by {
            if exists|q: int| head <= q < queue@.len() && #[trigger] queue@[q]@ == g.path_at(i) {
                let q = choose|q: int|
                    head <= q < queue@.len() && #[trigger] queue@[q]@ == g.path_at(i);
                assert(false);
            }
        }
        lemma_no_failure(*g, *fs, entries@);
    }
    Ok(())
}

/// An import chain's last link names a module of a fully built graph: the
/// chain starts at an entry, which the graph holds, and every resolution
/// step stays inside it.
proof fn lemma_chain_end_in_graph(
    g: ModuleGraph,
    fs: FsSnapshot,
    entries: Seq<(String, String)>,
    chain: Seq<Seq<char>>,
)
    requires
        g.wf(),
        graph_matches_fs(g, fs),
        graph_deps_resolved(g, fs),
        forall|k: int| 0 <= k < entries.len() ==> g.has_path(#[trigger] entries[k].1@),
        import_chain(fs, entries, chain),
    ensures
        g.has_path(chain.last()),
    decreases chain.len(),
{
    if chain.len() == 1 {
        let ke = choose|ke: int| 0 <= ke < entries.len() && #[trigger] entries[ke].1@ == chain[0];
        assert(g.has_path(entries[ke].1@));
        assert(chain.last() == chain[0]);
    } else {
        let c2 = chain.drop_last();
        assert forall|k2: int|
            0 <= k2 < c2.len() - 1 implies fs.contains_file(#[trigger] c2[k2]) && resolves_to(
            fs,
            c2[k2],
            c2[k2 + 1],
        ) by {
            assert(c2[k2] == chain[k2]);
            assert(c2[k2 + 1] == chain[k2 + 1]);
            assert(fs.contains_file(chain[k2]) && resolves_to(fs, chain[k2], chain[k2 + 1]));
        }
        assert(c2[0] == chain[0]);
        assert(import_chain(fs, entries, c2));
        lemma_chain_end_in_graph(g, fs, entries, c2);
        let prev = chain[chain.len() - 2];
        assert(c2.last() == prev);
        let w = choose|w: int| 0 <= w < g.spec_len() && g.path_at(w) == prev;
        assert(module_ok(g, fs, w));
        assert(deps_resolved(g, fs, w));
        let dvw = dep_views(g.module_at(w).dependencies@);
        assert(dvw == deps_of_path(fs, prev));
        assert(fs.contains_file(chain[chain.len() - 2]) && resolves_to(
            fs,
            chain[chain.len() - 2],
            chain[chain.len() - 1],
        ));
        let j = choose|j: int|
            0 <= j < deps_of_path(fs, prev).len() && resolve_spec(
                fs,
                #[trigger] deps_of_path(fs, prev)[j],
                prev,
            ) == Some(chain.last());
        assert(resolve_spec(fs, dvw[j], g.module_at(w).path@) is Some);
        assert(g.has_path(resolve_spec(fs, dvw[j], g.module_at(w).path@)->0));
    }
}

/// A fully built graph leaves no failure reachable: every import chain ends
/// at a module it holds, whose file the snapshot holds and whose unresolved
/// specifiers are all bare.
proof fn lemma_no_failure(g: ModuleGraph, fs: FsSnapshot, entries: Seq<(String, String)>)
    requires
        g.wf(),
        graph_matches_fs(g, fs),
        graph_deps_resolved(g, fs),
        forall|k: int| 0 <= k < entries.len() ==> g.has_path(#[trigger] entries[k].1@),
    ensures
        !failure_reachable(fs, entries),
{
    if failure_reachable(fs, entries) {
        let chain = choose|chain: Seq<Seq<char>>|
            import_chain(fs, entries, chain) && (!fs.contains_file(chain.last())
                || has_broken_import(fs, chain.last()));
        lemma_chain_end_in_graph(g, fs, entries, chain);
        let w = choose|w: int| 0 <= w < g.spec_len() && g.path_at(w) == chain.last();
        assert(module_ok(g, fs, w));
        assert(fs.contains_file(chain.last()));
        assert(has_broken_import(fs, chain.last()));
        let dvw = dep_views(g.module_at(w).dependencies@);
        assert(dvw == deps_of_path(fs, chain.last()));
        assert(deps_resolved(g, fs, w));
        let j = choose|j: int|
            0 <= j < deps_of_path(fs, chain.last()).len() && resolve_spec(
                fs,
                #[trigger] deps_of_path(fs, chain.last())[j],
                chain.last(),
            ) is None && !is_bare_spec(deps_of_path(fs, chain.last())[j]);
        assert(resolve_spec(fs, dvw[j], g.module_at(w).path@) is None);
        assert(is_bare_spec(dvw[j]));
        assert(false);
    }
}

/// Read one module through the plugin chain's load hooks, falling back to
/// the snapshot, classify it by the loader hint or the path, extract its
/// specifiers and add it to the graph.
fn load_module_via(
    g: &mut ModuleGraph,
    fs: &FsSnapshot,
    pm: &crate::plugins::PluginManager,
    path: &str,
    entry_flag: bool,
) -> (r: Result<ModuleId, BuildError>)
    requires
        old(g).wf(),
        fs.wf(),
    ensures
        final(g).wf(),
        old(g).spec_len() <= final(g).spec_len() <= old(g).spec_len() + 1,
        r is Err ==> *final(g) == *old(g),
        r is Ok && old(g).has_path(path@) ==> *final(g) == *old(g),
        r is Ok && !old(g).has_path(path@) ==> {
            &&& final(g).spec_len() == old(g).spec_len() + 1
            &&& (forall|i: int|
                0 <= i < old(g).spec_len() ==> final(g).module_at(i) == old(g).module_at(i))
            &&& (forall|i: int|
                0 <= i < old(g).spec_len() ==> final(g).edges_at(i) == old(g).edges_at(i))
            &&& final(g).module_at(old(g).spec_len() as int).is_entry == entry_flag
            &&& final(g).module_at(old(g).spec_len() as int).transformed is None
            &&& final(g).edges_at(old(g).spec_len() as int) == Seq::<ModuleId>::empty()
        },
        r matches Ok(id) ==> (id as int) < final(g).spec_len() && final(g).path_at(id as int)
            == path@,
{
    let loaded: (String, Option<String>) = match pm.load(path) {
        Ok(crate::plugins::LoadResult::Loaded { content, loader }) => (content, loader),
        Ok(crate::plugins::LoadResult::Skip) => {
            match fs.read(path) {
                Some(source) => (source, None),
                None => {
                    let mut p = String::new();
                    p.append(path);
                    return Err(BuildError::FileMissing { path: p });
                },
            }
        },
        Err(message) => {
            return Err(BuildError::PluginFailed { message });
        },
    };
    let (source, hint) = loaded;
    let module_type = match &hint {
        Some(h) => crate::graph::ModuleType::from_extension(h.as_str()),
        None => Module::detect_type(path),
    };
    let dependencies = crate::extract::extract_dependencies_from(source.as_str(), &module_type);
    let mut path_s = String::new();
    path_s.append(path);
    let module = Module {
        path: path_s,
        source,
        module_type,
        is_entry: entry_flag,
        dependencies,
        transformed: None,
    };
    let id = g.add_module(module);
    Ok(id)
}

/// Wire one resolved dependency: reuse the module the target path already
/// names, or load and queue it, then add the edge.
fn wire_dep(
    g: &mut ModuleGraph,
    fs: &FsSnapshot,
    pm: &crate::plugins::PluginManager,
    queue: &mut Vec<String>,
    from: ModuleId,
    target: &str,
) -> (r: Result<(), BuildError>)
    requires
        old(g).wf(),
        fs.wf(),
        (from as int) < old(g).spec_len(),
    ensures
        final(g).wf(),
        final(g).spec_len() >= old(g).spec_len(),
        final(queue)@.len() >= old(queue)@.len(),
        final(queue)@.len() - old(queue)@.len() <= final(g).spec_len() - old(g).spec_len(),
        forall|i: int|
            0 <= i < old(g).spec_len() ==> final(g).module_at(i) == old(g).module_at(i),
        forall|i: int|
            0 <= i < old(g).spec_len() && i != from as int ==> final(g).edges_at(i) == old(
                g,
            ).edges_at(i),
        r is Ok ==> final(g).has_path(target@) && exists|tid: ModuleId|
            (tid as int) < final(g).spec_len() && final(g).path_at(tid as int) == target@
                && final(g).edges_at(from as int).contains(tid),
{
    let tid = match g.get_module_id(target) {
        Some(t) => t,
        None => {
            match load_module_via(g, fs, pm, target, false) {
                Ok(t) => {
                    let mut ts = String::new();
                    ts.append(target);
                    queue.push(ts);
                    t
                },
                Err(e) => {
                    return Err(e);
                },
            }
        },
    };
    let ghost before_add = *g;
    g.add_dependency(from, tid);
    proof {
        assert(g.path_at(tid as int) == before_add.path_at(tid as int));
        assert(g.path_at(tid as int) == target@);
        if before_add.edges_at(from as int).contains(tid) {
            assert(g.edges_at(from as int) == before_add.edges_at(from as int));
        } else {
            assert(g.edges_at(from as int) == before_add.edges_at(from as int).push(tid));
            assert(g.edges_at(from as int)[g.edges_at(from as int).len() - 1] == tid);
        }
        assert(g.edges_at(from as int).contains(tid));
    }
    Ok(())
}

/// Build the module graph with a plugin chain in front of the built-in
/// resolver and loader: for each specifier the first plugin answer that is
/// not `Skip` decides — a resolved path is taken as the module's canonical
/// path, `External` adds no edge — and only when every plugin skips do the
/// built-in resolver and the snapshot run. An empty chain hands the whole
/// build to `build_graph`, with everything it proves. What a non-empty
/// chain answers is the plugins' own; whatever they answer, the graph stays
/// well-formed, a failing hook aborts the build, and the walk terminates
/// (plugins can invent modules, but the arena they fill is finite).
pub fn build_graph_with_plugins(
    g: &mut ModuleGraph,
    fs: &FsSnapshot,
    rv: &Resolver,
    pm: &crate::plugins::PluginManager,
    entries: &Vec<(String, String)>,
) -> (r: Result<(), BuildError>)
    requires
        old(g).wf(),
        old(g).spec_len() == 0,
        fs.wf(),
    ensures
        final(g).wf(),
        pm.plugins@.len() == 0 ==> {
            &&& (r is Ok <==> !failure_reachable(*fs, entries@))
            &&& (r is Ok ==> built_graph_ok(*final(g), *fs, entries@))
            &&& (r matches Err(e) ==> build_error_cause(e, *fs, entries@))
        },
{
    if pm.plugins.len() == 0 {
        // an empty chain answers nothing: the built-in pipeline runs whole,
        // with everything it proves
        return build_graph(g, fs, rv, entries);
    }
    let mut queue: Vec<String> = Vec::new();
    let mut k: usize = 0;
    while k < entries.len()
        invariant
            g.wf(),
            fs.wf(),
            pm.plugins@.len() != 0,
            k <= entries@.len(),
        decreases entries@.len() - k,
    {
        match g.get_module_id(entries[k].1.as_str()) {
            Some(_) => {},
            None => {
                match load_module_via(g, fs, pm, entries[k].1.as_str(), true) {
                    Ok(_) => {
                        queue.push(entries[k].1.clone());
                    },
                    Err(e) => {
                        return Err(e);
                    },
                }
            },
        }
        k = k + 1;
    }
    let mut head: usize = 0;
    while head < queue.len()
        invariant
            g.wf(),
            fs.wf(),
            pm.plugins@.len() != 0,
            head <= queue@.len(),
            g.spec_len() <= usize::MAX,
        decreases usize::MAX - g.spec_len(), queue@.len() - head,
    {
        let ghost pre_glen = g.spec_len();
        let ghost pre_qlen = queue@.len();
        let p = queue[head].clone();
        let id = match g.get_module_id(p.as_str()) {
            Some(id) => id,
            None => {
                head = head + 1;
                continue ;
            },
        };
        let deps = clone_strings(&g.modules[id].dependencies);
        let mut j: usize = 0;
        while j < deps.len()
            invariant
                g.wf(),
                fs.wf(),
                pm.plugins@.len() != 0,
                j <= deps@.len(),
                head < queue@.len(),
                (id as int) < g.spec_len(),
                g.spec_len() >= pre_glen,
                queue@.len() - pre_qlen <= g.spec_len() - pre_glen,
            decreases deps@.len() - j,
        {
            let answer = match pm.resolve_id(deps[j].as_str(), Some(p.as_str())) {
                Ok(a) => a,
                Err(message) => {
                    return Err(BuildError::PluginFailed { message });
                },
            };
            match answer {
                crate::plugins::ResolveResult::External => {},
                crate::plugins::ResolveResult::Resolved(target) => {
                    match wire_dep(g, fs, pm, &mut queue, id, target.as_str()) {
                        Ok(_) => {},
                        Err(e) => {
                            return Err(e);
                        },
                    }
                },
                crate::plugins::ResolveResult::Skip => {
                    match rv.resolve(fs, deps[j].as_str(), p.as_str()) {
                        Some(target) => {
                            match wire_dep(g, fs, pm, &mut queue, id, target.as_str()) {
                                Ok(_) => {},
                                Err(e) => {
                                    return Err(e);
                                },
                            }
                        },
                        None => {
                            if !crate::resolver::is_bare_specifier(deps[j].as_str()) {
                                let mut sp = String::new();
                                sp.append(deps[j].as_str());
                                let mut imp = String::new();
                                imp.append(p.as_str());
                                return Err(BuildError::UnresolvedImport {
                                    specifier: sp,
                                    importer: imp,
                                });
                            }
                        },
                    }
                },
            }
            j = j + 1;
        }
        head = head + 1;
        // reading the length ties the graph's size back under the machine
        // bound the loop measure rests on
        let module_count = g.len();
        proof {
            assert(g.spec_len() == module_count as nat);
        }
    }
    Ok(())
}

/// Dependencies stay worked in through the transform phase: filling
/// `transformed` changes no path, specifier list or edge.
proof fn lemma_deps_resolved_after_transform(pre: ModuleGraph, post: ModuleGraph, fs: FsSnapshot)
    requires
        pre.wf(),
        post.wf(),
        post.spec_len() == pre.spec_len(),
        post.edges@ == pre.edges@,
        forall|i: int| #![trigger post.module_at(i)]
            0 <= i < pre.spec_len() ==> post.module_at(i) == (Module {
                transformed: Some(post.module_at(i).transformed->0),
                ..pre.module_at(i)
            }),
        graph_deps_resolved(pre, fs),
    ensures
        graph_deps_resolved(post, fs),
{
    assert forall|i: int| 0 <= i < post.spec_len() implies deps_resolved(post, fs, i) by {
        assert(post.module_at(i) == (Module {
            transformed: Some(post.module_at(i).transformed->0),
            ..pre.module_at(i)
        }));
        assert(post.module_at(i).path == pre.module_at(i).path);
        assert(post.module_at(i).dependencies == pre.module_at(i).dependencies);
        assert(deps_resolved(pre, fs, i));
        let m = pre.module_at(i);
        let dv = dep_views(m.dependencies@);
        assert forall|j: int|
            0 <= j < dv.len() && resolve_spec(fs, #[trigger] dv[j], m.path@) is Some
            implies post.has_path(resolve_spec(fs, dv[j], m.path@)->0) by {
            assert(pre.has_path(resolve_spec(fs, dv[j], m.path@)->0));
            let w = choose|w: int|
                0 <= w < pre.spec_len() && pre.path_at(w) == resolve_spec(fs, dv[j], m.path@)->0;
            assert(post.module_at(w) == (Module {
                transformed: Some(post.module_at(w).transformed->0),
                ..pre.module_at(w)
            }));
            assert(post.path_at(w) == pre.path_at(w));
        }
        assert(edge_paths(post, i) =~= edge_paths(pre, i)) by {
            assert(post.edges_at(i) == pre.edges_at(i));
            assert forall|e: int|
                0 <= e < post.edges_at(i).len() implies #[trigger] edge_paths(post, i)[e]
                == edge_paths(pre, i)[e] by {
                let t = pre.edges_at(i)[e];
                assert((t as int) < pre.spec_len());
                assert(post.module_at(t as int) == (Module {
                    transformed: Some(post.module_at(t as int).transformed->0),
                    ..pre.module_at(t as int)
                }));
                assert(post.path_at(t as int) == pre.path_at(t as int));
            }
        }
    }
}

/// Dependencies stay worked in when a graph only grows: the module, its
/// edges and every path they mention are unchanged.
proof fn lemma_deps_resolved_preserved(pre: ModuleGraph, post: ModuleGraph, fs: FsSnapshot, i: int)
    requires
        pre.wf(),
        post.wf(),
        0 <= i < pre.spec_len(),
        post.spec_len() >= pre.spec_len(),
        post.module_at(i) == pre.module_at(i),
        post.edges_at(i) == pre.edges_at(i),
        forall|t: int| 0 <= t < pre.spec_len() ==> post.module_at(t) == pre.module_at(t),
        deps_resolved(pre, fs, i),
    ensures
        deps_resolved(post, fs, i),
{
    let m = pre.module_at(i);
    let dv = dep_views(m.dependencies@);
    assert forall|j: int|
        0 <= j < dv.len() && resolve_spec(fs, #[trigger] dv[j], m.path@) is Some implies post.has_path(
        resolve_spec(fs, dv[j], m.path@)->0,
    ) by {
        assert(pre.has_path(resolve_spec(fs, dv[j], m.path@)->0));
        let w = choose|w: int|
            0 <= w < pre.spec_len() && pre.path_at(w) == resolve_spec(fs, dv[j], m.path@)->0;
        assert(post.module_at(w) == pre.module_at(w));
        assert(post.path_at(w) == resolve_spec(fs, dv[j], m.path@)->0);
    }
    assert(edge_paths(post, i) =~= edge_paths(pre, i)) by {
        assert forall|e: int|
            0 <= e < post.edges_at(i).len() implies #[trigger] edge_paths(post, i)[e]
            == edge_paths(pre, i)[e] by {
            let t = pre.edges_at(i)[e];
            assert((t as int) < pre.spec_len());
            assert(post.module_at(t as int) == pre.module_at(t as int));
            assert(post.path_at(t as int) == pre.path_at(t as int));
        }
    }
}

// ---------------------------------------------------------------------------
// Minification
// ---------------------------------------------------------------------------

/// The minification scan: strings pass through, comments drop, runs of
/// whitespace collapse to one space unless one is already at the end of the
/// output. `prev` is the previously examined character, as escape handling
/// and comment-close detection see it.
pub open spec fn minify_rec(
    s: Seq<char>,
    i: int,
    in_str: Option<char>,
    in_line: bool,
    in_block: bool,
    prev: char,
    acc: Seq<char>,
) -> Seq<char>
    decreases s.len() - i,
{
    if i < 0 || i >= s.len() {
        acc
    } else {
        let c = s[i];
        if in_line {
            if c == '\n' {
                minify_rec(s, i + 1, in_str, false, false, prev, acc.push('\n'))
            } else {
                minify_rec(s, i + 1, in_str, true, false, prev, acc)
            }
        } else if in_block {
            if prev == '*' && c == '/' {
                minify_rec(s, i + 1, in_str, false, false, c, acc)
            } else {
                minify_rec(s, i + 1, in_str, false, true, c, acc)
            }
        } else if in_str is Some {
            let closes = c == in_str->0 && prev != '\\';
            minify_rec(
                s,
                i + 1,
                if closes {
                    None
                } else {
                    in_str
                },
                false,
                false,
                c,
                acc.push(c),
            )
        } else if c == '"' || c == '\'' || c == '`' {
            minify_rec(s, i + 1, Some(c), false, false, c, acc.push(c))
        } else if c == '/' && i + 1 < s.len() && s[i + 1] == '/' {
            minify_rec(s, i + 2, None, true, false, prev, acc)
        } else if c == '/' && i + 1 < s.len() && s[i + 1] == '*' {
            minify_rec(s, i + 2, None, false, true, prev, acc)
        } else if crate::extract::is_ws(c) {
            let acc2 = if acc.len() > 0 && (acc.last() == ' ' || acc.last() == '\n') {
                acc
            } else {
                acc.push(' ')
            };
            minify_rec(s, i + 1, None, false, false, c, acc2)
        } else {
            minify_rec(s, i + 1, None, false, false, c, acc.push(c))
        }
    }
}

/// What minification returns for a whole text.
pub open spec fn minify_spec(s: Seq<char>) -> Seq<char> {
    minify_rec(s, 0, None, false, false, ' ', Seq::empty())
}

fn minify_exec(
    s: &Vec<char>,
    i: usize,
    in_str: Option<char>,
    in_line: bool,
    in_block: bool,
    prev: char,
    acc: Vec<char>,
) -> (r: Vec<char>)
    requires
        i <= s.len(),
    ensures
        r@ == minify_rec(s@, i as int, in_str, in_line, in_block, prev, acc@),
    decreases s.len() - i,
{
    if i >= s.len() {
        return acc;
    }
    let c = s[i];
    if in_line {
        if c == '\n' {
            let mut acc2 = acc;
            acc2.push('\n');
            minify_exec(s, i + 1, in_str, false, false, prev, acc2)
        } else {
            minify_exec(s, i + 1, in_str, true, false, prev, acc)
        }
    } else if in_block {
        if prev == '*' && c == '/' {
            minify_exec(s, i + 1, in_str, false, false, c, acc)
        } else {
            minify_exec(s, i + 1, in_str, false, true, c, acc)
        }
    } else if in_str.is_some() {
        let q = match in_str {
            Some(q) => q,
            None => ' ',
        };
        let closes = c == q && prev != '\\';
        let mut acc2 = acc;
        acc2.push(c);
        minify_exec(
            s,
            i + 1,
            if closes {
                None
            } else {
                in_str
            },
            false,
            false,
            c,
            acc2,
        )
    } else if c == '"' || c == '\'' || c == '`' {
        let mut acc2 = acc;
        acc2.push(c);
        minify_exec(s, i + 1, Some(c), false, false, c, acc2)
    } else if c == '/' && i + 1 < s.len() && s[i + 1] == '/' {
        minify_exec(s, i + 2, None, true, false, prev, acc)
    } else if c == '/' && i + 1 < s.len() && s[i + 1] == '*' {
        minify_exec(s, i + 2, None, false, true, prev, acc)
    } else if crate::extract::e_is_ws(c) {
        let mut acc2 = acc;
        if acc2.len() > 0 && (acc2[acc2.len() - 1] == ' ' || acc2[acc2.len() - 1] == '\n') {
        } else {
            acc2.push(' ');
        }
        minify_exec(s, i + 1, None, false, false, c, acc2)
    } else {
        let mut acc2 = acc;
        acc2.push(c);
        minify_exec(s, i + 1, None, false, false, c, acc2)
    }
}

/// Minify JavaScript text: drop comments, collapse whitespace, keep strings.
pub fn minify_code(code: &str) -> (r: String)
    ensures
        r@ == minify_spec(code@),
{
    let chars = str_to_chars(code);
    let out = minify_exec(&chars, 0, None, false, false, ' ', Vec::new());
    chars_to_string(&out)
}

// ---------------------------------------------------------------------------
// Bundle assembly
// ---------------------------------------------------------------------------

/// The fixed runtime preamble: a private module registry and a memoizing
/// `require` over it.
pub open spec fn runtime_header_spec() -> Seq<char> {
    "// Component Runtime\n(function() {\n  var __component_modules__ = {};\n  var __component_cache__ = {};\n  \n  function __component_require__(moduleId) {\n    if (__component_cache__[moduleId]) {\n      return __component_cache__[moduleId].exports;\n    }\n    \n    var module = { exports: {} };\n    __component_cache__[moduleId] = module;\n    \n    var moduleFn = __component_modules__[moduleId];\n    if (moduleFn) {\n      moduleFn(module, module.exports, __component_require__);\n    }\n    \n    return module.exports;\n  }\n  \n  window.__component_modules__ = __component_modules__;\n  window.__component_require__ = __component_require__;\n})();\n"@
}

/// Generate the module runtime header.
pub fn generate_runtime_header() -> (r: String)
    ensures
        r@ == runtime_header_spec(),
{
    let mut s = String::new();
    s.append(
        "// Component Runtime\n(function() {\n  var __component_modules__ = {};\n  var __component_cache__ = {};\n  \n  function __component_require__(moduleId) {\n    if (__component_cache__[moduleId]) {\n      return __component_cache__[moduleId].exports;\n    }\n    \n    var module = { exports: {} };\n    __component_cache__[moduleId] = module;\n    \n    var moduleFn = __component_modules__[moduleId];\n    if (moduleFn) {\n      moduleFn(module, module.exports, __component_require__);\n    }\n    \n    return module.exports;\n  }\n  \n  window.__component_modules__ = __component_modules__;\n  window.__component_require__ = __component_require__;\n})();\n",
    );
    s
}

/// The code a module contributes: its transformed text when the transform
/// phase has run, its raw source otherwise.
pub open spec fn module_code_spec(m: Module) -> Seq<char> {
    match m.transformed {
        Some(t) => t@,
        None => m.source@,
    }
}

/// One factory registration: the module's code as a function under its path.
pub open spec fn factory_spec(m: Module) -> Seq<char> {
    "\n// Module: "@ + m.path@ + "\n__component_modules__[\""@ + m.path@
        + "\"] = function(module, exports, require) {\n"@ + module_code_spec(m) + "\n};\n"@
}

/// The factory registrations of a chunk's modules, in chunk order; an ID
/// that names no module contributes nothing.
pub open spec fn factories_from(g: ModuleGraph, ids: Seq<ModuleId>, k: int, acc: Seq<char>) -> Seq<
    char,
>
    decreases ids.len() - k,
{
    if k < 0 || k >= ids.len() {
        acc
    } else if (ids[k] as int) < g.spec_len() {
        factories_from(g, ids, k + 1, acc + factory_spec(g.module_at(ids[k] as int)))
    } else {
        factories_from(g, ids, k + 1, acc)
    }
}

/// The closing `require` of an entry chunk: the first module is executed.
pub open spec fn entry_tail_spec(g: ModuleGraph, ids: Seq<ModuleId>, is_entry: bool) -> Seq<char> {
    if is_entry && ids.len() >= 1 && (ids[0] as int) < g.spec_len() {
        "\n// Execute entry point\n__component_require__(\""@ + g.path_at(ids[0] as int)
            + "\");\n"@
    } else {
        Seq::empty()
    }
}

/// A chunk's unminified text: runtime header, factories, entry tail.
pub open spec fn chunk_output_spec(g: ModuleGraph, ids: Seq<ModuleId>, is_entry: bool) -> Seq<
    char,
> {
    runtime_header_spec() + factories_from(g, ids, 0, Seq::empty()) + entry_tail_spec(
        g,
        ids,
        is_entry,
    )
}

/// A chunk's final text: its output, minified when asked for.
pub open spec fn bundle_text_spec(
    g: ModuleGraph,
    ids: Seq<ModuleId>,
    is_entry: bool,
    minify_on: bool,
) -> Seq<char> {
    if minify_on {
        minify_spec(chunk_output_spec(g, ids, is_entry))
    } else {
        chunk_output_spec(g, ids, is_entry)
    }
}

/// Emit a chunk's unminified text.
pub fn emit_chunk(g: &ModuleGraph, chunk: &Chunk) -> (r: String)
    ensures
        r@ == chunk_output_spec(*g, chunk.module_ids@, chunk.chunk_type is Entry),
{
    let mut out: Vec<char> = Vec::new();
    let header = generate_runtime_header();
    push_str_chars(&mut out, header.as_str());
    proof {
        assert(out@ =~= runtime_header_spec());
        assert(out@.skip(runtime_header_spec().len() as int) =~= Seq::<char>::empty());
        assert(out@.subrange(0, runtime_header_spec().len() as int) =~= runtime_header_spec());
    }
    let ghost ids = chunk.module_ids@;
    let mut k: usize = 0;
    while k < chunk.module_ids.len()
        invariant
            ids == chunk.module_ids@,
            k <= ids.len(),
            out@.len() >= runtime_header_spec().len(),
            out@.subrange(0, runtime_header_spec().len() as int) == runtime_header_spec(),
            factories_from(*g, ids, 0, Seq::empty()) == factories_from(
                *g,
                ids,
                k as int,
                out@.skip(runtime_header_spec().len() as int),
            ),
        decreases ids.len() - k,
    {
        let ghost pre = out@;
        let id = chunk.module_ids[k];
        match g.get_module(id) {
            Some(m) => {
                push_str_chars(&mut out, "\n// Module: ");
                push_str_chars(&mut out, m.path.as_str());
                push_str_chars(&mut out, "\n__component_modules__[\"");
                push_str_chars(&mut out, m.path.as_str());
                push_str_chars(&mut out, "\"] = function(module, exports, require) {\n");
                match &m.transformed {
                    Some(t) => {
                        push_str_chars(&mut out, t.as_str());
                    },
                    None => {
                        push_str_chars(&mut out, m.source.as_str());
                    },
                }
                push_str_chars(&mut out, "\n};\n");
                proof {
                    assert(out@ =~= pre + factory_spec(g.module_at(id as int)));
                    assert(out@.skip(runtime_header_spec().len() as int) =~= pre.skip(
                        runtime_header_spec().len() as int,
                    ) + factory_spec(g.module_at(id as int)));
                    assert(out@.subrange(0, runtime_header_spec().len() as int) =~= pre.subrange(
                        0,
                        runtime_header_spec().len() as int,
                    ));
                }
            },
            None => {},
        }
        k = k + 1;
    }
    let ghost body = out@;
    proof {
        assert(factories_from(*g, ids, ids.len() as int, body.skip(
            runtime_header_spec().len() as int,
        )) == body.skip(runtime_header_spec().len() as int));
        assert(body =~= runtime_header_spec() + factories_from(*g, ids, 0, Seq::empty()));
    }
    let is_entry = match chunk.chunk_type {
        ChunkType::Entry => true,
        _ => false,
    };
    if is_entry && chunk.module_ids.len() >= 1 {
        let first = chunk.module_ids[0];
        match g.get_module(first) {
            Some(m) => {
                push_str_chars(&mut out, "\n// Execute entry point\n__component_require__(\"");
                push_str_chars(&mut out, m.path.as_str());
                push_str_chars(&mut out, "\");\n");
                proof {
                    assert(out@ =~= body + entry_tail_spec(*g, ids, true));
                }
            },
            None => {},
        }
    }
    proof {
        assert(out@ =~= chunk_output_spec(*g, ids, chunk.chunk_type is Entry));
    }
    chars_to_string(&out)
}

/// The cache-busting filename part: a dot and the first eight hex digits of
/// the final text's SHA-256.
pub open spec fn hash_part_spec(text: Seq<char>) -> Seq<char> {
    seq!['.'] + crate::utils::hex_lower(
        crate::utils::sha256_of(vstd::utf8::encode_utf8(text)).take(4),
    )
}

/// A bundle's filename: the chunk name, the hash part when hashing is on,
/// and the `.js` extension.
pub open spec fn bundle_filename_spec(name: Seq<char>, text: Seq<char>, hash_on: bool) -> Seq<
    char,
> {
    name + (if hash_on {
        hash_part_spec(text)
    } else {
        Seq::<char>::empty()
    }) + ".js"@
}

fn hash_part(text: &str) -> (r: Vec<char>)
    ensures
        r@ == hash_part_spec(text@),
{
    let bytes = text.as_bytes();
    let digest = crate::utils::sha256(bytes);
    let mut first: Vec<u8> = Vec::new();
    let mut i: usize = 0;
    while i < 4
        invariant
            i <= 4,
            digest@.len() == 32,
            digest@ == crate::utils::sha256_of(vstd::utf8::encode_utf8(text@)),
            first@ == digest@.take(i as int),
        decreases 4 - i,
    {
        first.push(digest[i]);
        assert(first@ == digest@.take(i + 1));
        i = i + 1;
    }
    let hexed = crate::utils::hex_encode(first.as_slice());
    let mut out: Vec<char> = Vec::new();
    out.push('.');
    push_str_chars(&mut out, hexed.as_str());
    assert(out@ =~= hash_part_spec(text@));
    out
}

// ---------------------------------------------------------------------------
// The transform phase
// ---------------------------------------------------------------------------

/// Fill every module's transformed code, in ID order. Fails exactly like the
/// transformer does: on a JSON module whose text is not valid JSON.
pub fn transform_modules(g: &mut ModuleGraph, tf: &crate::transform::Transformer) -> (r: Result<
    (),
    BuildError,
>)
    requires
        old(g).wf(),
    ensures
        match r {
            Ok(_) => {
                &&& final(g).wf()
                &&& final(g).spec_len() == old(g).spec_len()
                &&& final(g).edges@ == old(g).edges@
                &&& (forall|i: int| #![trigger final(g).module_at(i)]
                    0 <= i < old(g).spec_len() ==> final(g).module_at(i) == (Module {
                        transformed: Some(final(g).module_at(i).transformed->0),
                        ..old(g).module_at(i)
                    }) && final(g).module_at(i).transformed is Some && final(g).module_at(
                        i,
                    ).transformed->0@ == crate::transform::transform_ok_spec(
                        tf.config.features.jsx,
                        old(g).module_at(i).source@,
                        old(g).module_at(i).module_type,
                    ))
            },
            Err(e) => e matches BuildError::InvalidJson { path } && exists|i: int|
                0 <= i < old(g).spec_len() && old(g).module_at(i).module_type is Json
                    && !crate::json::json_valid(old(g).module_at(i).source@) && path@ == old(
                    g,
                ).path_at(i),
        },
{
    let n = g.len();
    let mut i: usize = 0;
    while i < n
        invariant
            g.wf(),
            n == old(g).spec_len(),
            g.spec_len() == old(g).spec_len(),
            g.edges@ == old(g).edges@,
            i <= n,
            forall|k: int| #![trigger g.module_at(k)]
                i <= k < n ==> g.module_at(k) == old(g).module_at(k),
            forall|k: int| #![trigger g.module_at(k)]
                0 <= k < i ==> g.module_at(k) == (Module {
                    transformed: Some(g.module_at(k).transformed->0),
                    ..old(g).module_at(k)
                }) && g.module_at(k).transformed is Some && g.module_at(k).transformed->0@
                    == crate::transform::transform_ok_spec(
                    tf.config.features.jsx,
                    old(g).module_at(k).source@,
                    old(g).module_at(k).module_type,
                ),
        decreases n - i,
    {
        let source = g.modules[i].source.clone();
        let path = g.modules[i].path.clone();
        let mt = g.modules[i].module_type;
        match tf.transform(source.as_str(), path.as_str(), &mt) {
            Ok(code) => {
                let ghost pre = *g;
                g.set_transformed(i, code);
                proof {
                    assert forall|k: int| #![trigger g.module_at(k)]
                        i + 1 <= k < n implies g.module_at(k) == old(g).module_at(k) by {
                        assert(g.module_at(k) == pre.module_at(k));
                    }
                }
            },
            Err(e) => {
                proof {
                    let ii = i as int;
                    assert(g.module_at(ii) == old(g).module_at(ii));
                    assert(source@ == old(g).module_at(ii).source@);
                    assert(mt == old(g).module_at(ii).module_type);
                    assert(path@ == old(g).path_at(ii));
                    assert(0 <= ii < old(g).spec_len() && old(g).module_at(
                        ii,
                    ).module_type is Json && !crate::json::json_valid(
                        old(g).module_at(ii).source@,
                    ) && path@ == old(g).path_at(ii));
                }
                return Err(e);
            },
        }
        i = i + 1;
    }
    Ok(())
}

// ---------------------------------------------------------------------------
// Chunk generation
// ---------------------------------------------------------------------------

/// One `Entry`-typed chunk per entrypoint, its module list the modules
/// reachable from the entry, in deterministic breadth-first order.
pub fn generate_chunks(g: &ModuleGraph, entries: &Vec<(String, String)>) -> (r: Vec<Chunk>)
    requires
        g.wf(),
        forall|k: int| 0 <= k < entries@.len() ==> g.has_path(#[trigger] entries@[k].1@),
    ensures
        r@.len() == entries@.len(),
        forall|k: int| #![trigger r@[k]]
            0 <= k < r@.len() ==> {
                &&& r@[k].name@ == entries@[k].0@
                &&& r@[k].chunk_type is Entry
                &&& r@[k].module_ids@.len() >= 1
                &&& r@[k].module_ids@.no_duplicates()
                &&& (r@[k].module_ids@[0] as int) < g.spec_len()
                &&& g.path_at(r@[k].module_ids@[0] as int) == entries@[k].1@
                &&& r@[k].module_ids@ == g.bfs_spec(r@[k].module_ids@[0])
                &&& (forall|x: ModuleId|
                    r@[k].module_ids@.contains(x) <==> g.reachable(r@[k].module_ids@[0], x))
            },
{
    let mut out: Vec<Chunk> = Vec::new();
    let mut k: usize = 0;
    while k < entries.len()
        invariant
            g.wf(),
            forall|j: int| 0 <= j < entries@.len() ==> g.has_path(#[trigger] entries@[j].1@),
            k <= entries@.len(),
            out@.len() == k,
            forall|j: int| #![trigger out@[j]]
                0 <= j < k ==> {
                    &&& out@[j].name@ == entries@[j].0@
                    &&& out@[j].chunk_type is Entry
                    &&& out@[j].module_ids@.len() >= 1
                    &&& out@[j].module_ids@.no_duplicates()
                    &&& (out@[j].module_ids@[0] as int) < g.spec_len()
                    &&& g.path_at(out@[j].module_ids@[0] as int) == entries@[j].1@
                    &&& out@[j].module_ids@ == g.bfs_spec(out@[j].module_ids@[0])
                    &&& (forall|x: ModuleId|
                        out@[j].module_ids@.contains(x) <==> g.reachable(
                            out@[j].module_ids@[0],
                            x,
                        ))
                },
        decreases entries@.len() - k,
    {
        let eid = match g.get_module_id(entries[k].1.as_str()) {
            Some(id) => id,
            None => {
                proof {
                    assert(g.has_path(entries@[k as int].1@));
                    assert(false);
                }
                0
            },
        };
        let ids = g.get_reachable_modules(eid);
        let ghost preout = out@;
        let c = Chunk::entry(entries[k].0.clone(), ids);
        let ghost cv = c;
        out.push(c);
        proof {
            assert(out@[out@.len() - 1] == cv);
            assert(cv.module_ids@[0] == eid);
            assert forall|j: int| #![trigger out@[j]]
                0 <= j < k + 1 implies {
                &&& out@[j].name@ == entries@[j].0@
                &&& out@[j].chunk_type is Entry
                &&& out@[j].module_ids@.len() >= 1
                &&& out@[j].module_ids@.no_duplicates()
                &&& (out@[j].module_ids@[0] as int) < g.spec_len()
                &&& g.path_at(out@[j].module_ids@[0] as int) == entries@[j].1@
                &&& out@[j].module_ids@ == g.bfs_spec(out@[j].module_ids@[0])
                &&& (forall|x: ModuleId|
                    out@[j].module_ids@.contains(x) <==> g.reachable(out@[j].module_ids@[0], x))
            } by {
                if j < k {
                    assert(out@[j] == preout[j]);
                } else {
                    assert(out@[j] == cv);
                }
            }
        }
        k = k + 1;
    }
    out
}

// ---------------------------------------------------------------------------
// Writing bundles and the manifest
// ---------------------------------------------------------------------------

/// Information about a generated bundle.
#[derive(Debug, Clone)]
pub struct BundleInfo {
    /// Output file path.
    pub output_path: String,
    /// Bundle size in bytes.
    pub size: usize,
    /// Source map path (none: source maps are not generated).
    pub sourcemap_path: Option<String>,
    /// The bundle's final text, as it is to be written.
    pub content: String,
}

/// Result of a build operation.
#[derive(Debug)]
pub struct BuildResult {
    /// Generated bundles, one per entry chunk, in entrypoint order.
    pub bundles: Vec<BundleInfo>,
    /// Asset manifest: emitted filename mapped to itself.
    pub manifest: Vec<(String, String)>,
}

/// Assemble the final text, name and size of every chunk, in chunk order.
pub fn write_bundles(
    g: &ModuleGraph,
    chunks: &Vec<Chunk>,
    minify_on: bool,
    hash_on: bool,
    outdir: &str,
) -> (r: Vec<BundleInfo>)
    ensures
        r@.len() == chunks@.len(),
        forall|k: int| #![trigger r@[k]]
            0 <= k < r@.len() ==> {
                let text = bundle_text_spec(
                    *g,
                    chunks@[k].module_ids@,
                    chunks@[k].chunk_type is Entry,
                    minify_on,
                );
                &&& r@[k].content@ == text
                &&& r@[k].output_path@ == outdir@ + seq!['/'] + bundle_filename_spec(
                    chunks@[k].name@,
                    text,
                    hash_on,
                )
                &&& r@[k].size == vstd::utf8::encode_utf8(text).len() as usize
                &&& r@[k].sourcemap_path is None
            },
{
    let mut out: Vec<BundleInfo> = Vec::new();
    let mut k: usize = 0;
    while k < chunks.len()
        invariant
            k <= chunks@.len(),
            out@.len() == k,
            forall|j: int| #![trigger out@[j]]
                0 <= j < k ==> {
                    let text = bundle_text_spec(
                        *g,
                        chunks@[j].module_ids@,
                        chunks@[j].chunk_type is Entry,
                        minify_on,
                    );
                    &&& out@[j].content@ == text
                    &&& out@[j].output_path@ == outdir@ + seq!['/'] + bundle_filename_spec(
                        chunks@[j].name@,
                        text,
                        hash_on,
                    )
                    &&& out@[j].size == vstd::utf8::encode_utf8(text).len() as usize
                    &&& out@[j].sourcemap_path is None
                },
        decreases chunks@.len() - k,
    {
        let raw = emit_chunk(g, &chunks[k]);
        let final_code = if minify_on {
            minify_code(raw.as_str())
        } else {
            raw
        };
        let mut name_chars: Vec<char> = str_to_chars(chunks[k].name.as_str());
        if hash_on {
            let hp = hash_part(final_code.as_str());
            crate::strutil::push_chars(&mut name_chars, &hp);
        }
        crate::strutil::push_str_chars(&mut name_chars, ".js");
        let mut path_chars: Vec<char> = str_to_chars(outdir);
        path_chars.push('/');
        crate::strutil::push_chars(&mut path_chars, &name_chars);
        let size = final_code.as_str().len();
        let ghost preout = out@;
        let info = BundleInfo {
            output_path: chars_to_string(&path_chars),
            size,
            sourcemap_path: None,
            content: final_code,
        };
        let ghost iv = info;
        proof {
            let text = bundle_text_spec(
                *g,
                chunks@[k as int].module_ids@,
                chunks@[k as int].chunk_type is Entry,
                minify_on,
            );
            assert(iv.content@ == text);
            assert(iv.output_path@ =~= outdir@ + seq!['/'] + bundle_filename_spec(
                chunks@[k as int].name@,
                text,
                hash_on,
            ));
        }
        out.push(info);
        proof {
            assert forall|j: int| #![trigger out@[j]]
                0 <= j < k + 1 implies {
                let text = bundle_text_spec(
                    *g,
                    chunks@[j].module_ids@,
                    chunks@[j].chunk_type is Entry,
                    minify_on,
                );
                &&& out@[j].content@ == text
                &&& out@[j].output_path@ == outdir@ + seq!['/'] + bundle_filename_spec(
                    chunks@[j].name@,
                    text,
                    hash_on,
                )
                &&& out@[j].size == vstd::utf8::encode_utf8(text).len() as usize
                &&& out@[j].sourcemap_path is None
            } by {
                if j < k {
                    assert(out@[j] == preout[j]);
                } else {
                    assert(out@[j] == iv);
                }
            }
        }
        k = k + 1;
    }
    out
}

/// The filename component of an output path: what follows the last `/`.
pub open spec fn filename_of(path: Seq<char>) -> Seq<char> {
    path.subrange(crate::graph::last_index_of(path, '/') + 1, path.len() as int)
}

/// The manifest pairs of a bundle list: each emitted filename mapped to
/// itself, in bundle order.
pub fn manifest_pairs(bundles: &Vec<BundleInfo>) -> (r: Vec<(String, String)>)
    ensures
        r@.len() == bundles@.len(),
        forall|k: int| #![trigger r@[k]]
            0 <= k < r@.len() ==> r@[k].0@ == filename_of(bundles@[k].output_path@) && r@[k].1@
                == filename_of(bundles@[k].output_path@),
{
    let mut out: Vec<(String, String)> = Vec::new();
    let mut k: usize = 0;
    while k < bundles.len()
        invariant
            k <= bundles@.len(),
            out@.len() == k,
            forall|j: int| #![trigger out@[j]]
                0 <= j < k ==> out@[j].0@ == filename_of(bundles@[j].output_path@) && out@[j].1@
                    == filename_of(bundles@[j].output_path@),
        decreases bundles@.len() - k,
    {
        let pv = str_to_chars(bundles[k].output_path.as_str());
        let start: usize = match crate::graph::find_last(&pv, '/') {
            Some(i) => i + 1,
            None => 0,
        };
        let name = crate::graph::slice_chars(&pv, start, pv.len());
        proof {
            assert(name@ == filename_of(bundles@[k as int].output_path@));
        }
        let n1 = chars_to_string(&name);
        let n2 = chars_to_string(&name);
        let ghost preout = out@;
        let pr = (n1, n2);
        let ghost prv = pr;
        out.push(pr);
        proof {
            assert forall|j: int| #![trigger out@[j]]
                0 <= j < k + 1 implies out@[j].0@ == filename_of(bundles@[j].output_path@)
                && out@[j].1@ == filename_of(bundles@[j].output_path@) by {
                if j < k {
                    assert(out@[j] == preout[j]);
                } else {
                    assert(out@[j] == prv);
                }
            }
        }
        k = k + 1;
    }
    out
}

/// A character in a JSON string, escaped where JSON demands it.
pub open spec fn json_escaped_char(c: char) -> Seq<char> {
    if c == '"' {
        seq!['\\', '"']
    } else if c == '\\' {
        seq!['\\', '\\']
    } else {
        seq![c]
    }
}

/// A whole JSON string body, escaped.
pub open spec fn json_escape(s: Seq<char>, i: int, acc: Seq<char>) -> Seq<char>
    decreases s.len() - i,
{
    if i < 0 || i >= s.len() {
        acc
    } else {
        json_escape(s, i + 1, acc + json_escaped_char(s[i]))
    }
}

fn json_escape_exec(s: &Vec<char>) -> (r: Vec<char>)
    ensures
        r@ == json_escape(s@, 0, Seq::empty()),
{
    let mut out: Vec<char> = Vec::new();
    let mut i: usize = 0;
    while i < s.len()
        invariant
            i <= s.len(),
            json_escape(s@, 0, Seq::empty()) == json_escape(s@, i as int, out@),
        decreases s.len() - i,
    {
        let ghost pre = out@;
        let c = s[i];
        if c == '"' {
            out.push('\\');
            out.push('"');
        } else if c == '\\' {
            out.push('\\');
            out.push('\\');
        } else {
            out.push(c);
        }
        proof {
            assert(out@ =~= pre + json_escaped_char(s@[i as int]));
        }
        i = i + 1;
    }
    out
}

/// The manifest entries as JSON object members, in pair order.
pub open spec fn manifest_entries_spec(
    pairs: Seq<(Seq<char>, Seq<char>)>,
    k: int,
    acc: Seq<char>,
) -> Seq<char>
    decreases pairs.len() - k,
{
    if k < 0 || k >= pairs.len() {
        acc
    } else {
        let sep: Seq<char> = if k == 0 {
            "\n  \""@
        } else {
            ",\n  \""@
        };
        manifest_entries_spec(
            pairs,
            k + 1,
            acc + sep + json_escape(pairs[k].0, 0, Seq::empty()) + "\": \""@ + json_escape(
                pairs[k].1,
                0,
                Seq::empty(),
            ) + "\""@,
        )
    }
}

/// The views of manifest pairs.
pub open spec fn pair_views(pairs: Seq<(String, String)>) -> Seq<(Seq<char>, Seq<char>)> {
    pairs.map_values(|p: (String, String)| (p.0@, p.1@))
}

/// The manifest as a flat JSON object of string pairs, in pair order.
pub open spec fn manifest_json_spec(pairs: Seq<(Seq<char>, Seq<char>)>) -> Seq<char> {
    if pairs.len() == 0 {
        "{}"@
    } else {
        "{"@ + manifest_entries_spec(pairs, 0, Seq::empty()) + "\n}"@
    }
}

/// Serialize the manifest as JSON, with the pairs in their given order.
pub fn manifest_json(pairs: &Vec<(String, String)>) -> (r: String)
    ensures
        r@ == manifest_json_spec(pair_views(pairs@)),
{
    let ghost pv = pair_views(pairs@);
    if pairs.len() == 0 {
        let mut s = String::new();
        s.append("{}");
        return s;
    }
    let mut out: Vec<char> = Vec::new();
    out.push('{');
    assert(out@ =~= "{"@) by {
        reveal_strlit("{");
    }
    let mut k: usize = 0;
    while k < pairs.len()
        invariant
            pv == pair_views(pairs@),
            pv.len() == pairs@.len(),
            k <= pairs@.len(),
            out@.len() >= 1,
            out@.subrange(0, 1) == "{"@,
            manifest_entries_spec(pv, 0, Seq::empty()) == manifest_entries_spec(
                pv,
                k as int,
                out@.skip(1),
            ),
        decreases pairs@.len() - k,
    {
        let ghost pre = out@;
        if k == 0 {
            push_str_chars(&mut out, "\n  \"");
        } else {
            push_str_chars(&mut out, ",\n  \"");
        }
        let kv = str_to_chars(pairs[k].0.as_str());
        let ke = json_escape_exec(&kv);
        crate::strutil::push_chars(&mut out, &ke);
        push_str_chars(&mut out, "\": \"");
        let vv = str_to_chars(pairs[k].1.as_str());
        let ve = json_escape_exec(&vv);
        crate::strutil::push_chars(&mut out, &ve);
        push_str_chars(&mut out, "\"");
        proof {
            let sep: Seq<char> = if k == 0 {
                "\n  \""@
            } else {
                ",\n  \""@
            };
            assert(pv[k as int].0 == pairs@[k as int].0@);
            assert(pv[k as int].1 == pairs@[k as int].1@);
            assert(out@ =~= pre + sep + json_escape(pv[k as int].0, 0, Seq::empty()) + "\": \""@
                + json_escape(pv[k as int].1, 0, Seq::empty()) + "\""@);
            assert(out@.skip(1) =~= pre.skip(1) + sep + json_escape(pv[k as int].0, 0, Seq::empty())
                + "\": \""@ + json_escape(pv[k as int].1, 0, Seq::empty()) + "\""@);
            assert(out@.subrange(0, 1) =~= pre.subrange(0, 1));
        }
        k = k + 1;
    }
    let ghost body = out@;
    push_str_chars(&mut out, "\n}");
    proof {
        assert(manifest_entries_spec(pv, pv.len() as int, body.skip(1)) == body.skip(1));
        assert(body =~= "{"@ + body.skip(1));
        assert(out@ =~= "{"@ + manifest_entries_spec(pv, 0, Seq::empty()) + "\n}"@);
    }
    chars_to_string(&out)
}

// ---------------------------------------------------------------------------
// The bundler
// ---------------------------------------------------------------------------

/// The output directory a build uses: the option's override, or the
/// configured directory under the project root.
pub open spec fn used_outdir_spec(config: Config, options: crate::cli::BuildOptions) -> Seq<char> {
    match options.outdir {
        Some(d) => d@,
        None => crate::config::join_under(config.root@, config.output.dir@),
    }
}

/// A bundle serves an entrypoint: its content is the bundle text of some
/// duplicate-free module list holding exactly what is reachable from the
/// entry module, entry first, and its path, size and (absent) source map
/// follow from that text.
pub open spec fn bundle_for_entry(
    g: ModuleGraph,
    name: Seq<char>,
    entry_path: Seq<char>,
    minify_on: bool,
    hash_on: bool,
    outdir: Seq<char>,
    b: BundleInfo,
) -> bool {
    exists|ids: Seq<ModuleId>|
        {
            &&& ids.len() >= 1
            &&& ids.no_duplicates()
            &&& (ids[0] as int) < g.spec_len()
            &&& g.path_at(ids[0] as int) == entry_path
            &&& ids == g.bfs_spec(ids[0])
            &&& (forall|x: ModuleId| ids.contains(x) <==> g.reachable(ids[0], x))
            &&& b.content@ == bundle_text_spec(g, ids, true, minify_on)
            &&& b.output_path@ == outdir + seq!['/'] + bundle_filename_spec(
                name,
                b.content@,
                hash_on,
            )
            &&& b.size == vstd::utf8::encode_utf8(b.content@).len() as usize
            &&& b.sourcemap_path is None
        }
}

/// The main bundler.
pub struct Bundler {
    /// Project configuration.
    pub config: Config,
    /// Build options.
    pub options: crate::cli::BuildOptions,
    /// Module resolver.
    pub resolver: Resolver,
    /// Code transformer.
    pub transformer: crate::transform::Transformer,
    /// Module graph.
    pub graph: ModuleGraph,
}

impl Bundler {
    /// Create a new bundler instance over an empty graph.
    pub fn new(config: Config, options: crate::cli::BuildOptions) -> (r: Self)
        ensures
            r.graph.wf(),
            r.graph.spec_len() == 0,
            r.config == config,
            r.options == options,
            r.transformer.config.features.jsx == config.features.jsx,
    {
        let rconf = config.duplicate();
        let tconf = config.duplicate();
        Bundler {
            resolver: Resolver::new(rconf),
            transformer: crate::transform::Transformer::new(tconf),
            graph: ModuleGraph::new(),
            config,
            options,
        }
    }

    /// Build the project against a file snapshot: construct the module
    /// graph from the entrypoints, transform every module, cut one entry
    /// chunk per entrypoint and assemble its bundle text, filename and
    /// manifest entry. Nothing is produced on failure.
    pub fn build(&mut self, fs: &FsSnapshot) -> (r: Result<BuildResult, BuildError>)
        requires
            old(self).graph.wf(),
            old(self).graph.spec_len() == 0,
            fs.wf(),
        ensures
            final(self).config == old(self).config,
            final(self).options == old(self).options,
            final(self).transformer == old(self).transformer,
            match r {
                Ok(res) => {
                    &&& final(self).graph.wf()
                    &&& graph_matches_fs(final(self).graph, *fs)
                    &&& graph_deps_resolved(final(self).graph, *fs)
                    &&& (forall|k: int|
                        0 <= k < old(self).config.entrypoints@.len() ==> final(self).graph.has_path(#[trigger] old(self).config.entry_abs(k)))
                    &&& (forall|i: int| #![trigger final(self).graph.module_at(i)]
                        0 <= i < final(self).graph.spec_len() ==> (final(self).graph.module_at(
                            i,
                        ).is_entry <==> exists|k: int|
                            0 <= k < old(self).config.entrypoints@.len() && final(self).graph.path_at(i) == #[trigger] old(self).config.entry_abs(k)))
                    &&& (forall|i: int| #![trigger final(self).graph.module_at(i)]
                        0 <= i < final(self).graph.spec_len() ==> final(self).graph.module_at(
                            i,
                        ).transformed is Some && final(self).graph.module_at(i).transformed->0@
                            == crate::transform::transform_ok_spec(
                            final(self).transformer.config.features.jsx,
                            final(self).graph.module_at(i).source@,
                            final(self).graph.module_at(i).module_type,
                        ))
                    &&& res.bundles@.len() == old(self).config.entrypoints@.len()
                    &&& (forall|k: int| #![trigger res.bundles@[k]]
                        0 <= k < res.bundles@.len() ==> bundle_for_entry(
                            final(self).graph,
                            old(self).config.entrypoints@[k].0@,
                            old(self).config.entry_abs(k),
                            old(self).options.minify,
                            old(self).config.output.hash,
                            used_outdir_spec(old(self).config, old(self).options),
                            res.bundles@[k],
                        ))
                    &&& res.manifest@.len() == res.bundles@.len()
                    &&& (forall|k: int| #![trigger res.manifest@[k]]
                        0 <= k < res.manifest@.len() ==> res.manifest@[k].0@ == filename_of(
                            res.bundles@[k].output_path@,
                        ) && res.manifest@[k].1@ == filename_of(res.bundles@[k].output_path@))
                },
                Err(e) => match e {
                    BuildError::MissingEntrypoint { name, path } => exists|k: int|
                        0 <= k < old(self).config.entrypoints@.len()
                            && #[trigger] old(self).config.entrypoints@[k].0@ == name@ && path@
                            == old(self).config.entry_abs(k) && !fs.contains_file(path@),
                    BuildError::FileMissing { path } => !fs.contains_file(path@),
                    BuildError::UnresolvedImport { specifier, importer } => resolve_spec(
                        *fs,
                        specifier@,
                        importer@,
                    ) is None && !is_bare_spec(specifier@),
                    BuildError::InvalidJson { path } => fs.contains_file(path@)
                        && detect_type_spec(path@) is Json && !crate::json::json_valid(
                        fs.content_of(path@),
                    ),
                    _ => false,
                },
            },
    {
        let entries = self.config.all_entrypoints();
        proof {
            assert forall|k: int| #![trigger entries@[k]]
                0 <= k < entries@.len() implies entries@[k].0@ == old(self).config.entrypoints@[k].0@ && entries@[k].1@ == old(self).config.entry_abs(k) by {
                assert(entries@[k].1@ == self.config.entry_abs(k));
                assert(entries@[k].0@ == self.config.entrypoints@[k].0@);
            }
        }
        match build_graph(&mut self.graph, fs, &self.resolver, &entries) {
            Ok(_) => {},
            Err(e) => {
                proof {
                    match &e {
                        BuildError::MissingEntrypoint { name: nm, path: pm } => {
                            let k = choose|k: int|
                                0 <= k < entries@.len() && #[trigger] entries@[k].0@ == nm@
                                    && entries@[k].1@ == pm@ && !fs.contains_file(pm@);
                            assert(old(self).config.entrypoints@[k].0@ == nm@);
                            assert(old(self).config.entry_abs(k) == pm@);
                        },
                        _ => {},
                    }
                }
                return Err(e);
            },
        }
        let ghost built = self.graph;
        match transform_modules(&mut self.graph, &self.transformer) {
            Ok(_) => {},
            Err(e) => {
                proof {
                    match &e {
                        BuildError::InvalidJson { path: pm } => {
                            let i = choose|i: int|
                                0 <= i < built.spec_len() && built.module_at(
                                    i,
                                ).module_type is Json && !crate::json::json_valid(
                                    built.module_at(i).source@,
                                ) && pm@ == built.path_at(i);
                            assert(module_ok(built, *fs, i));
                        },
                        _ => {},
                    }
                }
                return Err(e);
            },
        }
        proof {
            // the transform phase kept every field the graph description
            // speaks of; only `transformed` was filled in
            lemma_deps_resolved_after_transform(built, self.graph, *fs);
            assert forall|i: int| 0 <= i < self.graph.spec_len() implies module_ok(
                self.graph,
                *fs,
                i,
            ) by {
                assert(self.graph.module_at(i) == (Module {
                    transformed: Some(self.graph.module_at(i).transformed->0),
                    ..built.module_at(i)
                }));
                assert(module_ok(built, *fs, i));
            }
            assert forall|k: int|
                0 <= k < entries@.len() implies self.graph.has_path(
                #[trigger] entries@[k].1@,
            ) by {
                assert(built.has_path(entries@[k].1@));
                let w = choose|w: int|
                    0 <= w < built.spec_len() && built.path_at(w) == entries@[k].1@;
                assert(self.graph.module_at(w) == (Module {
                    transformed: Some(self.graph.module_at(w).transformed->0),
                    ..built.module_at(w)
                }));
                assert(self.graph.path_at(w) == entries@[k].1@);
            }
            assert forall|k: int|
                0 <= k < old(self).config.entrypoints@.len() implies self.graph.has_path(
                #[trigger] old(self).config.entry_abs(k),
            ) by {
                assert(entries@[k].1@ == old(self).config.entry_abs(k));
                assert(self.graph.has_path(entries@[k].1@));
            }
            assert forall|i: int| #![trigger self.graph.module_at(i)]
                0 <= i < self.graph.spec_len() implies (self.graph.module_at(i).is_entry
                <==> exists|k: int|
                0 <= k < old(self).config.entrypoints@.len() && self.graph.path_at(i)
                    == #[trigger] old(self).config.entry_abs(k)) by {
                assert(self.graph.module_at(i) == (Module {
                    transformed: Some(self.graph.module_at(i).transformed->0),
                    ..built.module_at(i)
                }));
                assert(built.module_at(i).is_entry <==> is_entry_path(
                    entries@,
                    built.path_at(i),
                ));
                if self.graph.module_at(i).is_entry {
                    let ke = choose|ke: int|
                        0 <= ke < entries@.len() && #[trigger] entries@[ke].1@ == built.path_at(
                            i,
                        );
                    assert(entries@[ke].1@ == old(self).config.entry_abs(ke));
                    assert(self.graph.path_at(i) == old(self).config.entry_abs(ke));
                } else {
                    if exists|k: int|
                        0 <= k < old(self).config.entrypoints@.len() && self.graph.path_at(i)
                            == #[trigger] old(self).config.entry_abs(k) {
                        let ke = choose|ke: int|
                            0 <= ke < old(self).config.entrypoints@.len() && self.graph.path_at(
                                i,
                            ) == #[trigger] old(self).config.entry_abs(ke);
                        assert(entries@[ke].1@ == old(self).config.entry_abs(ke));
                        assert(is_entry_path(entries@, built.path_at(i)));
                        assert(false);
                    }
                }
            }
        }
        let chunks = generate_chunks(&self.graph, &entries);
        let outdir = match &self.options.outdir {
            Some(d) => d.clone(),
            None => self.config.output_dir(),
        };
        proof {
            assert(outdir@ == used_outdir_spec(old(self).config, old(self).options));
        }
        let bundles = write_bundles(
            &self.graph,
            &chunks,
            self.options.minify,
            self.config.output.hash,
            outdir.as_str(),
        );
        let manifest = manifest_pairs(&bundles);
        proof {
            assert forall|k: int| #![trigger bundles@[k]]
                0 <= k < bundles@.len() implies bundle_for_entry(
                self.graph,
                old(self).config.entrypoints@[k].0@,
                old(self).config.entry_abs(k),
                old(self).options.minify,
                old(self).config.output.hash,
                used_outdir_spec(old(self).config, old(self).options),
                bundles@[k],
            ) by {
                let ids = chunks@[k].module_ids@;
                assert(chunks@[k].name@ == entries@[k].0@);
                assert(entries@[k].0@ == old(self).config.entrypoints@[k].0@);
                assert(entries@[k].1@ == old(self).config.entry_abs(k));
                assert(self.graph.path_at(ids[0] as int) == old(self).config.entry_abs(k));
                assert(bundles@[k].content@ == bundle_text_spec(
                    self.graph,
                    ids,
                    true,
                    old(self).options.minify,
                ));
            }
        }
        Ok(BuildResult { bundles, manifest })
    }
}

// ---------------------------------------------------------------------------
// Bundle determinism
// ---------------------------------------------------------------------------

/// Two modules hold the same data, field view for field view.
pub open spec fn module_view_eq(m1: Module, m2: Module) -> bool {
    &&& m1.path@ == m2.path@
    &&& m1.source@ == m2.source@
    &&& m1.module_type == m2.module_type
    &&& m1.is_entry == m2.is_entry
    &&& dep_views(m1.dependencies@) == dep_views(m2.dependencies@)
    &&& (match (m1.transformed, m2.transformed) {
        (Some(a), Some(b)) => a@ == b@,
        (None, None) => true,
        _ => false,
    })
}

/// Two graphs hold the same modules, data for data, and the same edges.
pub open spec fn graph_view_eq(g1: ModuleGraph, g2: ModuleGraph) -> bool {
    &&& g1.spec_len() == g2.spec_len()
    &&& (forall|i: int|
        0 <= i < g1.spec_len() ==> module_view_eq(g1.module_at(i), g2.module_at(i)))
    &&& (forall|i: int| 0 <= i < g1.spec_len() ==> g1.edges_at(i) == g2.edges_at(i))
}

/// Equal module data and edges walk identically: the traversal order is a
/// function of what the graph holds.
proof fn lemma_bfs_congruent(g1: ModuleGraph, g2: ModuleGraph, q: Seq<ModuleId>, head: int)
    requires
        graph_view_eq(g1, g2),
    ensures
        g1.bfs_from(q, head) == g2.bfs_from(q, head),
    decreases
            (if g1.spec_len() >= q.len() {
                g1.spec_len() - q.len()
            } else {
                0
            }),
            q.len() - head,
{
    if 0 <= head && head < q.len() {
        if (q[head] as int) < g1.spec_len() {
            assert(g1.edges_at(q[head] as int) == g2.edges_at(q[head] as int));
        }
        let next = if (q[head] as int) < g1.spec_len() {
            ModuleGraph::bfs_edges(g1.edges_at(q[head] as int), 0, q)
        } else {
            q
        };
        if next.len() == q.len() {
            lemma_bfs_congruent(g1, g2, next, head + 1);
        } else if q.len() < next.len() && next.len() <= g1.spec_len() {
            lemma_bfs_congruent(g1, g2, next, head + 1);
        }
    }
}

proof fn lemma_factories_eq(
    g1: ModuleGraph,
    g2: ModuleGraph,
    ids: Seq<ModuleId>,
    k: int,
    acc: Seq<char>,
)
    requires
        graph_view_eq(g1, g2),
    ensures
        factories_from(g1, ids, k, acc) == factories_from(g2, ids, k, acc),
    decreases ids.len() - k,
{
    if 0 <= k < ids.len() {
        if (ids[k] as int) < g1.spec_len() {
            assert(module_view_eq(g1.module_at(ids[k] as int), g2.module_at(ids[k] as int)));
            assert(factory_spec(g1.module_at(ids[k] as int)) == factory_spec(
                g2.module_at(ids[k] as int),
            ));
            lemma_factories_eq(g1, g2, ids, k + 1, acc + factory_spec(g1.module_at(ids[k] as int)));
        } else {
            lemma_factories_eq(g1, g2, ids, k + 1, acc);
        }
    }
}

/// Bundle determinism: graphs holding the same module data produce, for the
/// same chunk order and switches, byte-identical bundle text — and with it
/// the same content hash and output filename.
pub proof fn lemma_bundle_determinism(
    g1: ModuleGraph,
    g2: ModuleGraph,
    ids: Seq<ModuleId>,
    is_entry: bool,
    minify_on: bool,
    name: Seq<char>,
    hash_on: bool,
)
    requires
        graph_view_eq(g1, g2),
    ensures
        forall|start: ModuleId| #[trigger] g1.bfs_spec(start) == g2.bfs_spec(start),
        bundle_text_spec(g1, ids, is_entry, minify_on) == bundle_text_spec(
            g2,
            ids,
            is_entry,
            minify_on,
        ),
        bundle_filename_spec(name, bundle_text_spec(g1, ids, is_entry, minify_on), hash_on)
            == bundle_filename_spec(
            name,
            bundle_text_spec(g2, ids, is_entry, minify_on),
            hash_on,
        ),
{
    assert forall|start: ModuleId| #[trigger] g1.bfs_spec(start) == g2.bfs_spec(start) by {
        lemma_bfs_congruent(g1, g2, seq![start], 0);
    }
    lemma_factories_eq(g1, g2, ids, 0, Seq::empty());
    if ids.len() >= 1 && (ids[0] as int) < g1.spec_len() {
        assert(module_view_eq(g1.module_at(ids[0] as int), g2.module_at(ids[0] as int)));
        assert(g1.path_at(ids[0] as int) == g2.path_at(ids[0] as int));
    }
    assert(entry_tail_spec(g1, ids, is_entry) == entry_tail_spec(g2, ids, is_entry));
    assert(chunk_output_spec(g1, ids, is_entry) == chunk_output_spec(g2, ids, is_entry));
}

} // verus!
