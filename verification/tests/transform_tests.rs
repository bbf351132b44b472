//! Tests for the code transforms.

use component::config::Config;
use component::errors::BuildError;
use component::graph::ModuleType;
use component::transform::{strip_typescript_types, transform_jsx_simple, Transformer};

#[test]
fn test_transform_json() {
    let transformer = Transformer::new(Config::default_config());

    let json = r#"{"key": "value", "num": 42}"#;
    let result = transformer.transform(json, "test.json", &ModuleType::Json).unwrap();

    assert!(result.starts_with("module.exports = "));
}

#[test]
fn test_transform_css() {
    let transformer = Transformer::new(Config::default_config());

    let css = "body { color: red; }";
    let result = transformer.transform(css, "test.css", &ModuleType::Css).unwrap();

    assert!(result.contains("document.createElement('style')"));
    assert!(result.contains("body { color: red; }"));
}

#[test]
fn test_transform_json_invalid() {
    let transformer = Transformer::new(Config::default_config());
    let result = transformer.transform("{not json", "bad.json", &ModuleType::Json);
    match result {
        Err(BuildError::InvalidJson { path }) => assert_eq!(path, "bad.json"),
        _ => panic!("expected an invalid-JSON failure"),
    }
}

#[test]
fn test_transform_css_escapes() {
    let transformer = Transformer::new(Config::default_config());
    let css = "a::before { content: `x`; } /* \\ */";
    let result = transformer.transform(css, "t.css", &ModuleType::Css).unwrap();
    assert!(result.contains("\\`x\\`"));
    assert!(result.contains("\\\\"));
}

#[test]
fn test_strip_typescript_annotations() {
    let out = strip_typescript_types("let count: number = 0;");
    assert_eq!(out, "let count= 0;");
}

#[test]
fn test_strip_typescript_keeps_strings() {
    let out = strip_typescript_types("const s = \"a: number\";");
    assert_eq!(out, "const s = \"a: number\";");
}

#[test]
fn test_strip_typescript_type_alias() {
    let out = strip_typescript_types("type Foo = { a: number };\nlet x = 1;");
    assert_eq!(out, "\nlet x = 1;");
}

#[test]
fn test_strip_typescript_interface() {
    let out = strip_typescript_types("interface Foo { a: number }\nlet x = 1;");
    assert_eq!(out, "\nlet x = 1;");
}

#[test]
fn test_jsx_fragment_rewrite() {
    let out = transform_jsx_simple("const f = <></>;");
    assert_eq!(out, "const f = React.createElement(React.Fragment, null);");
}

#[test]
fn test_jsx_disabled_passes_through() {
    // the default configuration keeps JSX off, so Jsx sources pass through
    let transformer = Transformer::new(Config::default_config());
    let src = "const a = <div/>;";
    let out = transformer.transform(src, "a.jsx", &ModuleType::Jsx).unwrap();
    assert_eq!(out, src);
}

#[test]
fn test_transform_javascript_identity() {
    let transformer = Transformer::new(Config::default_config());
    let src = "console.log(1);";
    assert_eq!(transformer.transform(src, "a.js", &ModuleType::JavaScript).unwrap(), src);
}
