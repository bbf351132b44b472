//! Tests for the utilities, scaffolding text, server decisions and the
//! plugin pipeline.

use component::cli::InitCommand;
use component::plugins::{
    first_resolve_answer, JsonPlugin, Plugin, PluginContext, PluginManager, ResolveResult,
    TransformResult, VirtualPlugin,
};
use component::server::{file_change_message, get_content_type, inject_hmr_client, HmrMessage};
use component::utils::{
    clean_path, format_duration, format_size, hash_content, hash_filename, is_subpath,
    path_to_module_id, relative_path,
};

#[test]
fn test_hash_content() {
    let hash = hash_content(b"hello world");
    assert_eq!(hash.len(), 16);
}

#[test]
fn test_hash_content_value() {
    // the leading SHA-256 digest bytes of this text, in lowercase hex
    assert_eq!(hash_content(b"hello world"), "b94d27b9934d3e08");
    assert_ne!(hash_content(b"hello world"), hash_content(b"hello worle"));
}

#[test]
fn test_hash_filename_shape() {
    let name = hash_filename("main", b"code", "js");
    assert!(name.starts_with("main."));
    assert!(name.ends_with(".js"));
    assert_eq!(name.len(), "main.".len() + 16 + ".js".len());
}

#[test]
fn test_clean_path() {
    assert_eq!(clean_path("./foo/bar"), "foo/bar");
    assert_eq!(clean_path("foo/../bar"), "bar");
    assert_eq!(clean_path("/foo/./bar/../baz"), "/foo/baz");
}

#[test]
fn test_format_size() {
    assert_eq!(format_size(512), "512 B");
    assert_eq!(format_size(1024), "1.00 KB");
    assert_eq!(format_size(1536), "1.50 KB");
    assert_eq!(format_size(1048576), "1.00 MB");
}

#[test]
fn test_format_size_gb() {
    assert_eq!(format_size(1073741824), "1.00 GB");
    assert_eq!(format_size(1610612736), "1.50 GB");
}

#[test]
fn test_format_duration() {
    assert_eq!(format_duration(500), "500ms");
    assert_eq!(format_duration(1500), "1.50s");
    assert_eq!(format_duration(65000), "1m 5.00s");
}

#[test]
fn test_path_to_module_id() {
    assert_eq!(path_to_module_id("C:\\app\\main.js"), "C:/app/main.js");
    assert_eq!(path_to_module_id("/app/main.js"), "/app/main.js");
}

#[test]
fn test_is_subpath() {
    assert!(is_subpath("/a/b/c.js", "/a/b"));
    assert!(is_subpath("/a/b", "/a/b"));
    assert!(!is_subpath("/a/bc/d.js", "/a/b"));
    assert!(!is_subpath("/a", "/a/b"));
}

#[test]
fn test_relative_path() {
    // runs pathdiff underneath
    assert_eq!(relative_path("/a/b", "/a/c/d.js"), Some("../c/d.js".to_string()));
    assert_eq!(relative_path("/a/b", "/a/b/c.js"), Some("c.js".to_string()));
    assert_eq!(relative_path("/a/b", "rel"), None);
}

#[test]
fn test_generate_config_text() {
    let cmd = InitCommand {
        name: "demo".to_string(),
        template: "vanilla".to_string(),
        typescript: false,
    };
    let text = cmd.generate_config();
    assert!(text.contains("name = \"demo\""));
    assert!(text.contains("main = \"src/main.js\""));
    assert!(text.contains("jsx = false"));
    let react = InitCommand {
        name: ".".to_string(),
        template: "react".to_string(),
        typescript: true,
    };
    let rt = react.generate_config();
    assert!(rt.contains("name = \"my-app\""));
    assert!(rt.contains("main = \"src/main.tsx\""));
    assert!(rt.contains("jsx = true"));
    assert!(rt.contains("typescript = true"));
}

#[test]
fn test_generate_package_json_text() {
    let cmd = InitCommand {
        name: "demo".to_string(),
        template: "react".to_string(),
        typescript: true,
    };
    let text = cmd.generate_package_json();
    assert!(text.contains("\"name\": \"demo\""));
    assert!(text.contains("\"react\": \"^18.2.0\""));
    assert!(text.contains("\"@types/react\""));
    let plain = InitCommand {
        name: "demo".to_string(),
        template: "vanilla".to_string(),
        typescript: false,
    };
    let pt = plain.generate_package_json();
    assert!(!pt.contains("dependencies"));
}

#[test]
fn test_generate_index_html_text() {
    let cmd = InitCommand {
        name: "demo".to_string(),
        template: "vanilla".to_string(),
        typescript: true,
    };
    let text = cmd.generate_index_html();
    assert!(text.contains("<title>demo</title>"));
    assert!(text.contains("src=\"/src/main.ts\""));
}

#[test]
fn test_get_content_type() {
    assert_eq!(get_content_type("/a/index.html"), "text/html; charset=utf-8");
    assert_eq!(get_content_type("/a/app.js"), "application/javascript; charset=utf-8");
    assert_eq!(get_content_type("/a/style.css"), "text/css; charset=utf-8");
    assert_eq!(get_content_type("/a/logo.svg"), "image/svg+xml");
    assert_eq!(get_content_type("/a/blob.bin"), "application/octet-stream");
    assert_eq!(get_content_type("/a/noext"), "application/octet-stream");
}

#[test]
fn test_inject_hmr_client_before_body() {
    let html = "<html><body><p>x</p></body></html>";
    let out = inject_hmr_client(html);
    assert!(out.contains("__component_hmr"));
    let script_pos = out.find("<script type=\"module\">").unwrap();
    let body_pos = out.rfind("</body>").unwrap();
    assert!(script_pos < body_pos);
    assert!(out.ends_with("</body></html>"));
}

#[test]
fn test_inject_hmr_client_appends_without_body() {
    let html = "<p>x</p>";
    let out = inject_hmr_client(html);
    assert!(out.starts_with("<p>x</p>"));
    assert!(out.contains("__component_hmr"));
}

#[test]
fn test_file_change_messages() {
    match file_change_message("/src/style.css") {
        Some(HmrMessage::CssUpdate { path }) => assert_eq!(path, "/src/style.css"),
        _ => panic!("expected a CSS update"),
    }
    match file_change_message("/src/app.tsx") {
        Some(HmrMessage::FullReload { reason }) => {
            assert_eq!(reason, "File changed: /src/app.tsx")
        },
        _ => panic!("expected a full reload"),
    }
    assert!(file_change_message("/src/readme.md").is_none());
    assert!(file_change_message("/src/image.png").is_none());
}

struct ScriptedResolver {
    answer: ResolveResult,
    calls: std::cell::Cell<usize>,
}

impl Plugin for ScriptedResolver {
    fn name(&self) -> &str {
        "scripted"
    }

    fn build_start(&self, _ctx: &PluginContext) -> Result<(), String> {
        Ok(())
    }

    fn build_end(&self, _ctx: &PluginContext) -> Result<(), String> {
        Ok(())
    }

    fn resolve_id(
        &self,
        _specifier: &str,
        _importer: Option<&str>,
        _ctx: &PluginContext,
    ) -> Result<ResolveResult, String> {
        self.calls.set(self.calls.get() + 1);
        Ok(match &self.answer {
            ResolveResult::Skip => ResolveResult::Skip,
            ResolveResult::Resolved(p) => ResolveResult::Resolved(p.clone()),
            ResolveResult::External => ResolveResult::External,
        })
    }

    fn load(&self, _id: &str, _ctx: &PluginContext) -> Result<component::plugins::LoadResult, String> {
        Ok(component::plugins::LoadResult::Skip)
    }

    fn transform(
        &self,
        _code: &str,
        _id: &str,
        _ctx: &PluginContext,
    ) -> Result<TransformResult, String> {
        Ok(TransformResult::Skip)
    }
}

#[test]
fn test_plugin_resolve_short_circuit() {
    // with three plugins where the first skips and the second resolves,
    // the chain uses the second plugin's path and never consults the third
    let mut manager = PluginManager::new("/app".to_string());
    manager.register(Box::new(ScriptedResolver {
        answer: ResolveResult::Skip,
        calls: std::cell::Cell::new(0),
    }));
    manager.register(Box::new(ScriptedResolver {
        answer: ResolveResult::Resolved("/virtual/x.js".to_string()),
        calls: std::cell::Cell::new(0),
    }));
    manager.register(Box::new(ScriptedResolver {
        answer: ResolveResult::Resolved("/never/used.js".to_string()),
        calls: std::cell::Cell::new(0),
    }));
    match manager.resolve_id("./x", Some("/app/main.js")) {
        Ok(ResolveResult::Resolved(p)) => assert_eq!(p, "/virtual/x.js"),
        _ => panic!("expected the second plugin's path"),
    }
}

#[test]
fn test_first_resolve_answer() {
    let answers = vec![
        ResolveResult::Skip,
        ResolveResult::External,
        ResolveResult::Resolved("late".to_string()),
    ];
    assert!(matches!(first_resolve_answer(&answers), ResolveResult::External));
    assert!(matches!(first_resolve_answer(&vec![]), ResolveResult::Skip));
}

struct Appender {
    tag: &'static str,
    seen: std::cell::RefCell<Vec<String>>,
}

impl Plugin for Appender {
    fn name(&self) -> &str {
        self.tag
    }

    fn build_start(&self, _ctx: &PluginContext) -> Result<(), String> {
        Ok(())
    }

    fn build_end(&self, _ctx: &PluginContext) -> Result<(), String> {
        Ok(())
    }

    fn resolve_id(
        &self,
        _specifier: &str,
        _importer: Option<&str>,
        _ctx: &PluginContext,
    ) -> Result<ResolveResult, String> {
        Ok(ResolveResult::Skip)
    }

    fn load(&self, _id: &str, _ctx: &PluginContext) -> Result<component::plugins::LoadResult, String> {
        Ok(component::plugins::LoadResult::Skip)
    }

    fn transform(
        &self,
        code: &str,
        _id: &str,
        _ctx: &PluginContext,
    ) -> Result<TransformResult, String> {
        self.seen.borrow_mut().push(code.to_string());
        Ok(TransformResult::Transformed { code: format!("{}{}", code, self.tag), map: None })
    }
}

#[test]
fn test_plugin_transform_composition() {
    // the code the second transform plugin sees is exactly the first
    // plugin's output, not the untransformed source
    let mut manager = PluginManager::new("/app".to_string());
    manager.register(Box::new(Appender { tag: "A", seen: std::cell::RefCell::new(vec![]) }));
    manager.register(Box::new(Appender { tag: "B", seen: std::cell::RefCell::new(vec![]) }));
    let (code, map) = manager.transform("x", "/app/m.js").unwrap();
    assert_eq!(code, "xAB");
    assert!(map.is_none());
}

#[test]
fn test_virtual_plugin_roundtrip() {
    let mut vp = VirtualPlugin::new();
    vp.add_module("msg", "export default 'hi';");
    let ctx = PluginContext { root: "/app".to_string() };
    match vp.resolve_id("msg", None, &ctx).unwrap() {
        ResolveResult::Resolved(id) => {
            assert_eq!(id, "\u{0}virtual:msg");
            match vp.load(&id, &ctx).unwrap() {
                component::plugins::LoadResult::Loaded { content, loader } => {
                    assert_eq!(content, "export default 'hi';");
                    assert_eq!(loader.as_deref(), Some("js"));
                },
                _ => panic!("expected the virtual module to load"),
            }
        },
        _ => panic!("expected the virtual module to resolve"),
    }
    assert!(matches!(vp.resolve_id("other", None, &ctx).unwrap(), ResolveResult::Skip));
}

#[test]
fn test_json_plugin_transform() {
    let ctx = PluginContext { root: "/app".to_string() };
    let jp = JsonPlugin;
    match jp.transform("{\"a\": 1}", "/app/d.json", &ctx).unwrap() {
        TransformResult::Transformed { code, .. } => {
            assert_eq!(code, "export default {\"a\": 1};")
        },
        _ => panic!("expected a JSON transform"),
    }
    assert!(matches!(
        jp.transform("code", "/app/d.js", &ctx).unwrap(),
        TransformResult::Skip
    ));
    assert!(jp.transform("{bad", "/app/d.json", &ctx).is_err());
}

#[test]
fn test_format_duration_minute_boundary() {
    assert_eq!(format_duration(60000), "1m 0.00s");
    assert_eq!(format_duration(999), "999ms");
    assert_eq!(format_duration(1000), "1.00s");
}

#[test]
fn test_generate_default_index() {
    let config = component::config::Config::default_config();
    let page = component::server::generate_default_index(&config, false);
    assert!(page.contains("<title>my-app</title>"));
    assert!(page.contains("src=\"/src/main.js\""));
    assert!(!page.contains("__component_hmr"));
    let hot = component::server::generate_default_index(&config, true);
    assert!(hot.contains("__component_hmr"));
}

#[test]
fn test_plugin_manager_load_first_wins() {
    let mut manager = PluginManager::new("/app".to_string());
    manager.register(Box::new(VirtualPlugin::new()));
    let mut vp = VirtualPlugin::new();
    vp.add_module("cfg", "export default 1;");
    manager.register(Box::new(vp));
    match manager.load("\u{0}virtual:cfg") {
        Ok(component::plugins::LoadResult::Loaded { content, loader }) => {
            assert_eq!(content, "export default 1;");
            assert_eq!(loader.as_deref(), Some("js"));
        },
        _ => panic!("expected the registered plugin to load"),
    }
    assert!(matches!(
        manager.load("/on/disk.js"),
        Ok(component::plugins::LoadResult::Skip)
    ));
    let empty = PluginManager::new("/app".to_string());
    assert!(matches!(empty.load("/x.js"), Ok(component::plugins::LoadResult::Skip)));
    assert!(matches!(
        empty.resolve_id("./x", None),
        Ok(ResolveResult::Skip)
    ));
    let (code, map) = empty.transform("unchanged", "/x.js").unwrap();
    assert_eq!(code, "unchanged");
    assert!(map.is_none());
    assert!(empty.run_build_start().is_ok());
    assert!(empty.run_build_end().is_ok());
}
