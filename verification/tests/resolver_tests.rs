//! Tests for dependency extraction and specifier resolution.

use component::config::Config;
use component::fsview::FsSnapshot;
use component::graph::ModuleType;
use component::resolver::{is_bare_specifier, Resolver};

fn fs_with(files: &[(&str, &str)]) -> FsSnapshot {
    let mut fs = FsSnapshot::new();
    for (p, c) in files {
        fs.insert(p.to_string(), c.to_string());
    }
    fs
}

#[test]
fn test_extract_imports() {
    let source = r#"
            import foo from './foo';
            import { bar } from './bar.js';
            import * as baz from '../baz';
            export { qux } from './qux';
            const x = require('./x');
        "#;

    let resolver = Resolver::new(Config::default_config());
    let deps = resolver.extract_dependencies(source, "/test.js", &ModuleType::JavaScript);

    assert!(deps.contains(&"./foo".to_string()));
    assert!(deps.contains(&"./bar.js".to_string()));
    assert!(deps.contains(&"../baz".to_string()));
    assert!(deps.contains(&"./qux".to_string()));
    assert!(deps.contains(&"./x".to_string()));
}

#[test]
fn test_extract_dynamic_imports() {
    let source = r#"
            const module = import('./dynamic');
            const other = import("./other");
        "#;

    let resolver = Resolver::new(Config::default_config());
    let deps = resolver.extract_dependencies(source, "/test.js", &ModuleType::JavaScript);

    assert!(deps.contains(&"./dynamic".to_string()));
    assert!(deps.contains(&"./other".to_string()));
}

#[test]
fn test_extract_source_order_and_dedup() {
    let source = "import './a';\nimport('./b');\nimport './a';\n";
    let resolver = Resolver::new(Config::default_config());
    let deps = resolver.extract_dependencies(source, "/test.js", &ModuleType::JavaScript);
    assert_eq!(deps, vec!["./a".to_string(), "./b".to_string()]);
}

#[test]
fn test_extract_skips_non_js() {
    let resolver = Resolver::new(Config::default_config());
    let deps = resolver.extract_dependencies("import './a';", "/test.css", &ModuleType::Css);
    assert!(deps.is_empty());
}

#[test]
fn test_resolution_priority() {
    // with siblings x.js and x.ts, the specifier ./x picks x.js: the
    // extension list order decides
    let fs = fs_with(&[("/p/x.js", ""), ("/p/x.ts", ""), ("/p/main.js", "")]);
    let resolver = Resolver::new(Config::default_config());
    let got = resolver.resolve(&fs, "./x", "/p/main.js");
    assert_eq!(got, Some("/p/x.js".to_string()));
}

#[test]
fn test_exact_file_wins() {
    let fs = fs_with(&[("/p/x.ts", ""), ("/p/main.js", "")]);
    let resolver = Resolver::new(Config::default_config());
    assert_eq!(resolver.resolve(&fs, "./x.ts", "/p/main.js"), Some("/p/x.ts".to_string()));
}

#[test]
fn test_directory_index_resolution() {
    // pkg/index.ts with specifier ./pkg (no exact file pkg) resolves to the
    // index file
    let fs = fs_with(&[("/p/pkg/index.ts", ""), ("/p/main.js", "")]);
    let resolver = Resolver::new(Config::default_config());
    let got = resolver.resolve(&fs, "./pkg", "/p/main.js");
    assert_eq!(got, Some("/p/pkg/index.ts".to_string()));
}

#[test]
fn test_bare_specifier_externalized() {
    // a bare specifier with no matching package directory is external:
    // no resolution, no error
    let fs = fs_with(&[("/p/main.js", "")]);
    let resolver = Resolver::new(Config::default_config());
    assert_eq!(resolver.resolve(&fs, "react", "/p/main.js"), None);
    assert!(is_bare_specifier("react"));
    assert!(!is_bare_specifier("./react"));
    assert!(!is_bare_specifier("/react"));
}

#[test]
fn test_bare_resolution_via_manifest_module_field() {
    // the package manifest's ES-module entry is preferred when it names an
    // existing file
    let fs = fs_with(&[
        ("/p/src/main.js", ""),
        ("/p/node_modules/lib/package.json", r#"{"module": "dist/index.mjs", "main": "dist/index.cjs"}"#),
        ("/p/node_modules/lib/dist/index.mjs", ""),
        ("/p/node_modules/lib/dist/index.cjs", ""),
    ]);
    let resolver = Resolver::new(Config::default_config());
    let got = resolver.resolve(&fs, "lib", "/p/src/main.js");
    assert_eq!(got, Some("/p/node_modules/lib/dist/index.mjs".to_string()));
}

#[test]
fn test_bare_resolution_main_field_and_subpath() {
    let fs = fs_with(&[
        ("/p/src/main.js", ""),
        ("/p/node_modules/lib/package.json", r#"{"main": "lib/entry.js"}"#),
        ("/p/node_modules/lib/lib/entry.js", ""),
        ("/p/node_modules/lib/util/helper.js", ""),
    ]);
    let resolver = Resolver::new(Config::default_config());
    assert_eq!(
        resolver.resolve(&fs, "lib", "/p/src/main.js"),
        Some("/p/node_modules/lib/lib/entry.js".to_string())
    );
    assert_eq!(
        resolver.resolve(&fs, "lib/util/helper", "/p/src/main.js"),
        Some("/p/node_modules/lib/util/helper.js".to_string())
    );
}

#[test]
fn test_bare_resolution_index_fallback() {
    // no manifest at all: the package's index.js is the fallback
    let fs = fs_with(&[
        ("/p/src/deep/main.js", ""),
        ("/p/node_modules/plain/index.js", ""),
    ]);
    let resolver = Resolver::new(Config::default_config());
    assert_eq!(
        resolver.resolve(&fs, "plain", "/p/src/deep/main.js"),
        Some("/p/node_modules/plain/index.js".to_string())
    );
}

#[test]
fn test_scoped_package_resolution() {
    let fs = fs_with(&[
        ("/p/main.js", ""),
        ("/p/node_modules/@scope/pkg/index.js", ""),
    ]);
    let resolver = Resolver::new(Config::default_config());
    assert_eq!(
        resolver.resolve(&fs, "@scope/pkg", "/p/main.js"),
        Some("/p/node_modules/@scope/pkg/index.js".to_string())
    );
}

#[test]
fn test_unresolved_relative_is_none() {
    let fs = fs_with(&[("/p/main.js", "")]);
    let resolver = Resolver::new(Config::default_config());
    assert_eq!(resolver.resolve(&fs, "./missing", "/p/main.js"), None);
}

#[test]
fn test_relative_resolution_normalizes_dots() {
    let fs = fs_with(&[("/p/lib/a.js", ""), ("/p/src/main.js", "")]);
    let resolver = Resolver::new(Config::default_config());
    assert_eq!(
        resolver.resolve(&fs, "../lib/a", "/p/src/main.js"),
        Some("/p/lib/a.js".to_string())
    );
}

#[test]
fn test_extract_word_boundaries() {
    // a longer identifier ending in a keyword is not an import form
    let resolver = Resolver::new(Config::default_config());
    let deps = resolver.extract_dependencies(
        "reimport './x';\nconst y = unrequire('./y');",
        "/t.js",
        &ModuleType::JavaScript,
    );
    assert!(deps.is_empty());
}

#[test]
fn test_extract_exports_field_access() {
    // `exports.foo = require(...)` finds the require but no export form
    let resolver = Resolver::new(Config::default_config());
    let deps = resolver.extract_dependencies(
        "exports.foo = require('./dep');",
        "/t.js",
        &ModuleType::JavaScript,
    );
    assert_eq!(deps, vec!["./dep".to_string()]);
}
