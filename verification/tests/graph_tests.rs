//! Tests for the module graph: type detection, insertion, deduplication and
//! reachability.

use component::graph::{Module, ModuleGraph, ModuleType};

fn module(path: &str, source: &str, is_entry: bool) -> Module {
    Module {
        path: path.to_string(),
        source: source.to_string(),
        module_type: ModuleType::JavaScript,
        is_entry,
        dependencies: vec![],
        transformed: None,
    }
}

#[test]
fn test_module_type_detection() {
    assert_eq!(ModuleType::from_extension("js"), ModuleType::JavaScript);
    assert_eq!(ModuleType::from_extension("ts"), ModuleType::TypeScript);
    assert_eq!(ModuleType::from_extension("jsx"), ModuleType::Jsx);
    assert_eq!(ModuleType::from_extension("tsx"), ModuleType::Tsx);
    assert_eq!(ModuleType::from_extension("css"), ModuleType::Css);
    assert_eq!(ModuleType::from_extension("json"), ModuleType::Json);
    assert_eq!(ModuleType::from_extension("xyz"), ModuleType::Unknown);
}

#[test]
fn test_module_graph_basic() {
    let mut graph = ModuleGraph::new();

    let m = Module {
        path: "/test/main.js".to_string(),
        source: "console.log('test')".to_string(),
        module_type: ModuleType::JavaScript,
        is_entry: true,
        dependencies: vec![],
        transformed: None,
    };

    let id = graph.add_module(m);
    assert_eq!(graph.len(), 1);
    assert!(graph.get_module(id).is_some());
    assert_eq!(graph.get_module_id("/test/main.js"), Some(id));
}

#[test]
fn test_add_module_dedup() {
    // adding the same canonical path twice yields the same ID and does not
    // increase the module count
    let mut graph = ModuleGraph::new();
    let first = graph.add_module(module("/app/a.js", "first", true));
    let second = graph.add_module(module("/app/a.js", "second", false));
    assert_eq!(first, second);
    assert_eq!(graph.len(), 1);
    // the first insertion's record is kept
    assert_eq!(graph.get_module(first).unwrap().source, "first");
    assert!(graph.get_module(first).unwrap().is_entry);
}

#[test]
fn test_detect_type_from_path() {
    assert_eq!(Module::detect_type("/a/b/c.ts"), ModuleType::TypeScript);
    assert_eq!(Module::detect_type("/a/b/c.mod.css"), ModuleType::Css);
    assert_eq!(Module::detect_type("/a/b/noext"), ModuleType::Unknown);
    assert_eq!(Module::detect_type("/a/b/.hidden"), ModuleType::Unknown);
}

#[test]
fn test_reachability() {
    // entry E with E->A, E->B, B->C: the reachable set from E is exactly
    // {E, A, B, C}, each once
    let mut graph = ModuleGraph::new();
    let e = graph.add_module(module("/g/e.js", "", true));
    let a = graph.add_module(module("/g/a.js", "", false));
    let b = graph.add_module(module("/g/b.js", "", false));
    let c = graph.add_module(module("/g/c.js", "", false));
    let d = graph.add_module(module("/g/d.js", "", false));
    graph.add_dependency(e, a);
    graph.add_dependency(e, b);
    graph.add_dependency(b, c);
    // d stays unreachable
    let reached = graph.get_reachable_modules(e);
    assert_eq!(reached.len(), 4);
    assert_eq!(reached[0], e);
    assert!(reached.contains(&a));
    assert!(reached.contains(&b));
    assert!(reached.contains(&c));
    assert!(!reached.contains(&d));
    let mut seen = reached.clone();
    seen.sort();
    seen.dedup();
    assert_eq!(seen.len(), 4);
}

#[test]
fn test_reachability_cycle() {
    // a cycle A->B->A terminates and visits each module once
    let mut graph = ModuleGraph::new();
    let a = graph.add_module(module("/g/a.js", "", true));
    let b = graph.add_module(module("/g/b.js", "", false));
    graph.add_dependency(a, b);
    graph.add_dependency(b, a);
    let reached = graph.get_reachable_modules(a);
    assert_eq!(reached.len(), 2);
    assert_eq!(reached[0], a);
    assert!(reached.contains(&b));
}

#[test]
fn test_edge_dedup_and_entry_modules() {
    let mut graph = ModuleGraph::new();
    let a = graph.add_module(module("/g/a.js", "", true));
    let b = graph.add_module(module("/g/b.js", "", false));
    graph.add_dependency(a, b);
    graph.add_dependency(a, b);
    assert_eq!(graph.get_dependencies(a), vec![b]);
    assert_eq!(graph.get_entry_modules(), vec![a]);
    assert_eq!(graph.all_module_ids(), vec![a, b]);
    assert!(!graph.is_empty());
}
