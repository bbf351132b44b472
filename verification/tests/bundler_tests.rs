//! End-to-end build tests: graph construction over a file snapshot, chunking,
//! bundle assembly, determinism and the failure taxonomy.

use component::bundler::{build_graph, build_graph_with_plugins, minify_code, Bundler};
use component::plugins::{PluginManager, VirtualPlugin};
use component::cli::BuildOptions;
use component::config::{Config, DevConfig, FeaturesConfig, OutputConfig, ProjectConfig};
use component::errors::BuildError;
use component::fsview::FsSnapshot;
use component::graph::ModuleGraph;
use component::resolver::Resolver;

fn fs_with(files: &[(&str, &str)]) -> FsSnapshot {
    let mut fs = FsSnapshot::new();
    for (p, c) in files {
        fs.insert(p.to_string(), c.to_string());
    }
    fs
}

fn config_with(root: &str, entries: &[(&str, &str)]) -> Config {
    Config {
        project: ProjectConfig { name: "demo".to_string(), version: "0.1.0".to_string() },
        entrypoints: entries.iter().map(|(n, p)| (n.to_string(), p.to_string())).collect(),
        output: OutputConfig {
            dir: "dist".to_string(),
            public_url: "/".to_string(),
            hash: true,
            manifest: true,
        },
        features: FeaturesConfig::default(),
        dev: DevConfig::default(),
        root: root.to_string(),
    }
}

fn options() -> BuildOptions {
    BuildOptions { outdir: None, minify: false, sourcemap: false, target: "es2020".to_string() }
}

#[test]
fn test_cycle_termination() {
    // modules A -> B -> A: construction terminates, both appear exactly
    // once, with edges both ways
    let fs = fs_with(&[
        ("/src/a.js", "import './b';"),
        ("/src/b.js", "import './a';"),
    ]);
    let mut graph = ModuleGraph::new();
    let resolver = Resolver::new(Config::default_config());
    let entries = vec![("a".to_string(), "/src/a.js".to_string())];
    build_graph(&mut graph, &fs, &resolver, &entries).unwrap();
    assert_eq!(graph.len(), 2);
    let a = graph.get_module_id("/src/a.js").unwrap();
    let b = graph.get_module_id("/src/b.js").unwrap();
    assert_eq!(graph.get_dependencies(a), vec![b]);
    assert_eq!(graph.get_dependencies(b), vec![a]);
}

#[test]
fn test_bare_import_adds_no_module() {
    let fs = fs_with(&[("/src/a.js", "import 'react';\nconsole.log(1);")]);
    let mut graph = ModuleGraph::new();
    let resolver = Resolver::new(Config::default_config());
    let entries = vec![("a".to_string(), "/src/a.js".to_string())];
    build_graph(&mut graph, &fs, &resolver, &entries).unwrap();
    assert_eq!(graph.len(), 1);
    let a = graph.get_module_id("/src/a.js").unwrap();
    assert!(graph.get_dependencies(a).is_empty());
}

#[test]
fn test_end_to_end_build() {
    // entry main.js imports ./a statically and ./b dynamically; b imports a:
    // three modules, edges main->a, main->b, b->a, one entry chunk, one
    // output file holding three factories and the entry require
    let fs = fs_with(&[
        ("/app/main.js", "import './a';\nimport('./b');"),
        ("/app/a.js", "console.log('a');"),
        ("/app/b.js", "import './a';\nexport const b = 1;"),
    ]);
    let config = config_with("/app", &[("main", "main.js")]);
    let mut bundler = Bundler::new(config, options());
    let result = bundler.build(&fs).unwrap();

    assert_eq!(bundler.graph.len(), 3);
    let main = bundler.graph.get_module_id("/app/main.js").unwrap();
    let a = bundler.graph.get_module_id("/app/a.js").unwrap();
    let b = bundler.graph.get_module_id("/app/b.js").unwrap();
    assert_eq!(bundler.graph.get_dependencies(main), vec![a, b]);
    assert_eq!(bundler.graph.get_dependencies(b), vec![a]);
    assert!(bundler.graph.get_module(main).unwrap().is_entry);
    assert!(!bundler.graph.get_module(a).unwrap().is_entry);

    assert_eq!(result.bundles.len(), 1);
    let bundle = &result.bundles[0];
    assert_eq!(bundle.content.matches("__component_modules__[\"").count(), 3);
    assert!(bundle.content.contains("__component_modules__[\"/app/main.js\"]"));
    assert!(bundle.content.contains("__component_modules__[\"/app/a.js\"]"));
    assert!(bundle.content.contains("__component_modules__[\"/app/b.js\"]"));
    assert!(bundle.content.contains("__component_require__(\"/app/main.js\");"));
    assert!(bundle.output_path.starts_with("/app/dist/main."));
    assert!(bundle.output_path.ends_with(".js"));
    assert_eq!(bundle.size, bundle.content.len());

    assert_eq!(result.manifest.len(), 1);
    assert_eq!(result.manifest[0].0, result.manifest[0].1);
    assert!(result.manifest[0].0.starts_with("main."));
}

#[test]
fn test_build_determinism() {
    // building the same fixed snapshot twice produces byte-identical output
    // and identical hashed filenames
    let files = [
        ("/app/main.js", "import './a';\nimport './style.css';"),
        ("/app/a.js", "export const a = 1;"),
        ("/app/style.css", "body { color: red; }"),
    ];
    let fs1 = fs_with(&files);
    let fs2 = fs_with(&files);
    let mut b1 = Bundler::new(config_with("/app", &[("main", "main.js")]), options());
    let mut b2 = Bundler::new(config_with("/app", &[("main", "main.js")]), options());
    let r1 = b1.build(&fs1).unwrap();
    let r2 = b2.build(&fs2).unwrap();
    assert_eq!(r1.bundles.len(), r2.bundles.len());
    assert_eq!(r1.bundles[0].content, r2.bundles[0].content);
    assert_eq!(r1.bundles[0].output_path, r2.bundles[0].output_path);
    assert_eq!(r1.manifest, r2.manifest);
}

#[test]
fn test_missing_entrypoint_error() {
    let fs = fs_with(&[]);
    let config = config_with("/app", &[("main", "main.js")]);
    assert!(matches!(config.validate(&fs), Err(BuildError::MissingEntrypoint { .. })));
    let mut bundler = Bundler::new(config, options());
    match bundler.build(&fs) {
        Err(BuildError::MissingEntrypoint { name, path }) => {
            assert_eq!(name, "main");
            assert_eq!(path, "/app/main.js");
        },
        _ => panic!("expected a missing-entrypoint failure"),
    }
}

#[test]
fn test_no_entrypoints_error() {
    let fs = fs_with(&[]);
    let config = config_with("/app", &[]);
    assert!(matches!(config.validate(&fs), Err(BuildError::NoEntrypoints)));
}

#[test]
fn test_unresolved_relative_import_fails() {
    let fs = fs_with(&[("/app/main.js", "import './missing';")]);
    let config = config_with("/app", &[("main", "main.js")]);
    let mut bundler = Bundler::new(config, options());
    match bundler.build(&fs) {
        Err(BuildError::UnresolvedImport { specifier, importer }) => {
            assert_eq!(specifier, "./missing");
            assert_eq!(importer, "/app/main.js");
        },
        _ => panic!("expected an unresolved-import failure"),
    }
}

#[test]
fn test_invalid_json_module_fails() {
    let fs = fs_with(&[
        ("/app/main.js", "import './data.json';"),
        ("/app/data.json", "{broken"),
    ]);
    let config = config_with("/app", &[("main", "main.js")]);
    let mut bundler = Bundler::new(config, options());
    match bundler.build(&fs) {
        Err(BuildError::InvalidJson { path }) => assert_eq!(path, "/app/data.json"),
        _ => panic!("expected an invalid-JSON failure"),
    }
}

#[test]
fn test_error_description() {
    let e = BuildError::FileMissing { path: "/x.js".to_string() };
    assert_eq!(e.describe(), "failed to read module: /x.js");
}

#[test]
fn test_unhashed_filenames() {
    let fs = fs_with(&[("/app/main.js", "console.log(1);")]);
    let mut config = config_with("/app", &[("main", "main.js")]);
    config.output.hash = false;
    let mut bundler = Bundler::new(config, options());
    let result = bundler.build(&fs).unwrap();
    assert_eq!(result.bundles[0].output_path, "/app/dist/main.js");
    assert_eq!(result.manifest[0].0, "main.js");
}

#[test]
fn test_outdir_override() {
    let fs = fs_with(&[("/app/main.js", "console.log(1);")]);
    let mut config = config_with("/app", &[("main", "main.js")]);
    config.output.hash = false;
    let mut opts = options();
    opts.outdir = Some("/out".to_string());
    let mut bundler = Bundler::new(config, opts);
    let result = bundler.build(&fs).unwrap();
    assert_eq!(result.bundles[0].output_path, "/out/main.js");
}

#[test]
fn test_minify_strips_comments_and_whitespace() {
    assert_eq!(minify_code("a  b"), "a b");
    let out = minify_code("var a = 1; // note\nvar b = 2; /* gone */ var c;");
    assert!(!out.contains("note"));
    assert!(!out.contains("gone"));
    assert!(out.contains("var a = 1;"));
    assert!(out.contains("var b = 2;"));
    // strings keep their spacing and comment-like content
    assert_eq!(minify_code("x = \"a  // b\";"), "x = \"a  // b\";");
}

#[test]
fn test_minified_build() {
    let fs = fs_with(&[("/app/main.js", "// banner\nconsole.log( 1 );")]);
    let mut config = config_with("/app", &[("main", "main.js")]);
    config.output.hash = false;
    let mut opts = options();
    opts.minify = true;
    let mut bundler = Bundler::new(config, opts);
    let result = bundler.build(&fs).unwrap();
    assert!(!result.bundles[0].content.contains("banner"));
}

#[test]
fn test_manifest_json_shape() {
    let pairs = vec![
        ("main.abc.js".to_string(), "main.abc.js".to_string()),
        ("admin.def.js".to_string(), "admin.def.js".to_string()),
    ];
    let json = component::bundler::manifest_json(&pairs);
    assert_eq!(
        json,
        "{\n  \"main.abc.js\": \"main.abc.js\",\n  \"admin.def.js\": \"admin.def.js\"\n}"
    );
    assert_eq!(component::bundler::manifest_json(&vec![]), "{}");
}

#[test]
fn test_build_with_plugins_virtual_module() {
    // the first plugin skips, the second resolves and loads a virtual
    // module; the built-in resolver never sees that specifier, while an
    // ordinary relative import still falls through to it
    let fs = fs_with(&[
        ("/app/main.js", "import 'app-config';\nimport './a';"),
        ("/app/a.js", "console.log('a');"),
    ]);
    let mut manager = PluginManager::new("/app".to_string());
    manager.register(Box::new(VirtualPlugin::new()));
    let mut vp = VirtualPlugin::new();
    vp.add_module("app-config", "export default 42;");
    manager.register(Box::new(vp));

    let mut graph = ModuleGraph::new();
    let resolver = Resolver::new(Config::default_config());
    let entries = vec![("main".to_string(), "/app/main.js".to_string())];
    build_graph_with_plugins(&mut graph, &fs, &resolver, &manager, &entries).unwrap();

    assert_eq!(graph.len(), 3);
    let main = graph.get_module_id("/app/main.js").unwrap();
    let virt = graph.get_module_id("\u{0}virtual:app-config").unwrap();
    let a = graph.get_module_id("/app/a.js").unwrap();
    assert_eq!(graph.get_dependencies(main), vec![virt, a]);
    assert_eq!(graph.get_module(virt).unwrap().source, "export default 42;");
}

#[test]
fn test_build_with_plugins_empty_chain_delegates() {
    // an empty chain runs the built-in pipeline whole, entry check included
    let fs = fs_with(&[]);
    let manager = PluginManager::new("/app".to_string());
    let mut graph = ModuleGraph::new();
    let resolver = Resolver::new(Config::default_config());
    let entries = vec![("main".to_string(), "/app/main.js".to_string())];
    match build_graph_with_plugins(&mut graph, &fs, &resolver, &manager, &entries) {
        Err(BuildError::MissingEntrypoint { name, path }) => {
            assert_eq!(name, "main");
            assert_eq!(path, "/app/main.js");
        },
        _ => panic!("expected a missing-entrypoint failure"),
    }
}

#[test]
fn test_build_with_plugins_failure_aborts() {
    // an entry the snapshot lacks, and no plugin that supplies it
    let fs = fs_with(&[]);
    let mut manager = PluginManager::new("/app".to_string());
    manager.register(Box::new(VirtualPlugin::new()));
    let mut graph = ModuleGraph::new();
    let resolver = Resolver::new(Config::default_config());
    let entries = vec![("main".to_string(), "/app/main.js".to_string())];
    match build_graph_with_plugins(&mut graph, &fs, &resolver, &manager, &entries) {
        Err(BuildError::FileMissing { path }) => assert_eq!(path, "/app/main.js"),
        _ => panic!("expected a missing-file failure"),
    }
}
