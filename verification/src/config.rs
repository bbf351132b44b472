//! Configuration for a build: project metadata, entrypoints, output and
//! feature switches, and development-server settings.
//!
//! Front-ends parse a configuration file into these plain values; the
//! pipeline itself never touches a file format.

use vstd::prelude::*;

verus! {

use vstd::string::StringExecFns;
use crate::fsview::FsSnapshot;
use crate::errors::BuildError;
use crate::utils::{clean_path_spec, clean_chars};
use crate::strutil::{str_to_chars, chars_to_string, push_chars};

/// Project metadata.
#[derive(Debug, Clone)]
pub struct ProjectConfig {
    /// Project name.
    pub name: String,
    /// Project version.
    pub version: String,
}

/// The version a project gets when none is configured.
pub fn default_version() -> (r: String)
    ensures
        r@ == "0.1.0"@,
{
    let mut s = String::new();
    s.append("0.1.0");
    s
}

/// Output configuration.
#[derive(Debug, Clone)]
pub struct OutputConfig {
    /// Output directory, relative to the project root.
    pub dir: String,
    /// Public URL prefix for assets.
    pub public_url: String,
    /// Hash bundle filenames for cache busting.
    pub hash: bool,
    /// Write an asset manifest.
    pub manifest: bool,
}

/// The output directory used when none is configured.
pub fn default_output_dir() -> (r: String)
    ensures
        r@ == "dist"@,
{
    let mut s = String::new();
    s.append("dist");
    s
}

/// The public URL prefix used when none is configured.
pub fn default_public_url() -> (r: String)
    ensures
        r@ == "/"@,
{
    let mut s = String::new();
    s.append("/");
    s
}

/// The default of the switches that are on unless turned off.
pub fn default_true() -> (r: bool)
    ensures
        r,
{
    true
}

impl Default for OutputConfig {
    /// Output to `dist/` under `/`, with hashing and a manifest.
    fn default() -> (r: Self)
        ensures
            r.dir@ == "dist"@,
            r.public_url@ == "/"@,
            r.hash,
            r.manifest,
    {
        OutputConfig {
            dir: default_output_dir(),
            public_url: default_public_url(),
            hash: true,
            manifest: true,
        }
    }
}

/// Feature switches.
#[derive(Debug, Clone)]
pub struct FeaturesConfig {
    /// Enable JSX transformation.
    pub jsx: bool,
    /// JSX runtime (classic or automatic).
    pub jsx_runtime: String,
    /// JSX import source for the automatic runtime.
    pub jsx_import_source: String,
    /// Enable TypeScript.
    pub typescript: bool,
    /// Enable CSS modules.
    pub css_modules: bool,
    /// CSS modules pattern for class names.
    pub css_modules_pattern: String,
    /// Enable Tailwind CSS processing.
    pub tailwind: bool,
    /// Enable tree shaking.
    pub tree_shaking: bool,
    /// Enable code splitting.
    pub code_splitting: bool,
}

/// The JSX runtime used when none is configured.
pub fn default_jsx_runtime() -> (r: String)
    ensures
        r@ == "automatic"@,
{
    let mut s = String::new();
    s.append("automatic");
    s
}

/// The JSX import source used when none is configured.
pub fn default_jsx_import_source() -> (r: String)
    ensures
        r@ == "react"@,
{
    let mut s = String::new();
    s.append("react");
    s
}

/// The CSS modules class-name pattern used when none is configured.
pub fn default_css_modules_pattern() -> (r: String)
    ensures
        r@ == "[name]__[local]__[hash:8]"@,
{
    let mut s = String::new();
    s.append("[name]__[local]__[hash:8]");
    s
}

impl Default for FeaturesConfig {
    /// JSX and TypeScript off, tree shaking and code splitting on.
    fn default() -> (r: Self)
        ensures
            !r.jsx,
            r.jsx_runtime@ == "automatic"@,
            r.jsx_import_source@ == "react"@,
            !r.typescript,
            !r.css_modules,
            r.css_modules_pattern@ == "[name]__[local]__[hash:8]"@,
            !r.tailwind,
            r.tree_shaking,
            r.code_splitting,
    {
        FeaturesConfig {
            jsx: false,
            jsx_runtime: default_jsx_runtime(),
            jsx_import_source: default_jsx_import_source(),
            typescript: false,
            css_modules: false,
            css_modules_pattern: default_css_modules_pattern(),
            tailwind: false,
            tree_shaking: true,
            code_splitting: true,
        }
    }
}

/// Proxy configuration for the development server.
#[derive(Debug, Clone)]
pub struct ProxyConfig {
    /// Path prefix to proxy.
    pub path: String,
    /// Target URL.
    pub target: String,
    /// Rewrite path.
    pub rewrite: Option<String>,
}

/// Development server configuration.
#[derive(Debug, Clone)]
pub struct DevConfig {
    /// Port to run the dev server on.
    pub port: u16,
    /// Host to bind to.
    pub host: String,
    /// Open a browser automatically.
    pub open: bool,
    /// Enable hot module replacement.
    pub hmr: bool,
    /// Proxy configuration for API requests.
    pub proxy: Vec<ProxyConfig>,
}

/// The port used when none is configured.
pub fn default_port() -> (r: u16)
    ensures
        r == 3000,
{
    3000
}

/// The host used when none is configured.
pub fn default_host() -> (r: String)
    ensures
        r@ == "localhost"@,
{
    let mut s = String::new();
    s.append("localhost");
    s
}

impl Default for DevConfig {
    /// Port 3000 on localhost, HMR on, no proxies.
    fn default() -> (r: Self)
        ensures
            r.port == 3000,
            r.host@ == "localhost"@,
            !r.open,
            r.hmr,
            r.proxy@.len() == 0,
    {
        DevConfig {
            port: default_port(),
            host: default_host(),
            open: false,
            hmr: true,
            proxy: Vec::new(),
        }
    }
}

/// Joining a relative path under a base directory: an absolute path stands
/// alone; the result is cleaned of `.` and `..` parts either way.
pub open spec fn join_under(base: Seq<char>, rel: Seq<char>) -> Seq<char> {
    if rel.len() > 0 && rel[0] == '/' {
        clean_path_spec(rel)
    } else {
        clean_path_spec(base + seq!['/'] + rel)
    }
}

/// Join a relative path under a base directory, cleaning the result.
pub fn join_under_chars(base: &Vec<char>, rel: &Vec<char>) -> (r: Vec<char>)
    ensures
        r@ == join_under(base@, rel@),
{
    if rel.len() > 0 && rel[0] == '/' {
        clean_chars(rel)
    } else {
        let mut joined: Vec<char> = Vec::new();
        push_chars(&mut joined, base);
        joined.push('/');
        push_chars(&mut joined, rel);
        assert(joined@ =~= base@ + seq!['/'] + rel@);
        clean_chars(&joined)
    }
}

/// Main configuration structure.
#[derive(Debug, Clone)]
pub struct Config {
    /// Project metadata.
    pub project: ProjectConfig,
    /// Entry points for bundling, as name → source path pairs, in the order
    /// builds process them.
    pub entrypoints: Vec<(String, String)>,
    /// Output configuration.
    pub output: OutputConfig,
    /// Feature switches.
    pub features: FeaturesConfig,
    /// Development server settings.
    pub dev: DevConfig,
    /// Root directory all relative paths resolve under.
    pub root: String,
}

impl Config {
    /// The canonical path of the entrypoint at a position.
    pub open spec fn entry_abs(self, k: int) -> Seq<char> {
        join_under(self.root@, self.entrypoints[k].1@)
    }

    /// Create a default configuration: one `main` entrypoint at
    /// `src/main.js`, everything else as `Default` has it.
    pub fn default_config() -> (r: Self)
        ensures
            r.project.name@ == "my-app"@,
            r.project.version@ == "0.1.0"@,
            r.entrypoints@.len() == 1,
            r.entrypoints@[0].0@ == "main"@,
            r.entrypoints@[0].1@ == "src/main.js"@,
            r.root@ == "."@,
            r.output.hash && r.output.manifest,
            !r.features.jsx && !r.features.typescript,
    {
        let mut name = String::new();
        name.append("my-app");
        let mut entry_name = String::new();
        entry_name.append("main");
        let mut entry_path = String::new();
        entry_path.append("src/main.js");
        let mut entrypoints: Vec<(String, String)> = Vec::new();
        entrypoints.push((entry_name, entry_path));
        let mut root = String::new();
        root.append(".");
        Config {
            project: ProjectConfig { name, version: default_version() },
            entrypoints,
            output: OutputConfig::default(),
            features: FeaturesConfig::default(),
            dev: DevConfig::default(),
            root,
        }
    }

    /// Validate the configuration against a file snapshot: there must be at
    /// least one entrypoint, and every entrypoint file must exist.
    pub fn validate(&self, fs: &FsSnapshot) -> (r: Result<(), BuildError>)
        ensures
            r is Ok <==> self.entrypoints@.len() > 0 && (forall|k: int|
                0 <= k < self.entrypoints@.len() ==> fs.contains_file(#[trigger] self.entry_abs(
                    k,
                ))),
            match r {
                Ok(_) => true,
                Err(e) => match e {
                    BuildError::NoEntrypoints => self.entrypoints@.len() == 0,
                    BuildError::MissingEntrypoint { name, path } => exists|k: int|
                        0 <= k < self.entrypoints@.len()
                            && name@ == self.entrypoints@[k].0@
                            && path@ == self.entry_abs(k)
                            && !fs.contains_file(self.entry_abs(k)),
                    _ => false,
                },
            },
    {
        if self.entrypoints.len() == 0 {
            return Err(BuildError::NoEntrypoints);
        }
        let root_chars = str_to_chars(self.root.as_str());
        let mut k: usize = 0;
        while k < self.entrypoints.len()
            invariant
                root_chars@ == self.root@,
                k <= self.entrypoints@.len(),
                forall|i: int| 0 <= i < k ==> fs.contains_file(#[trigger] self.entry_abs(i)),
            decreases self.entrypoints@.len() - k,
        {
            let rel = str_to_chars(self.entrypoints[k].1.as_str());
            let abs = join_under_chars(&root_chars, &rel);
            let abs_str = chars_to_string(&abs);
            if !fs.is_file(abs_str.as_str()) {
                let nm = self.entrypoints[k].0.clone();
                proof {
                    let ki = k as int;
                    assert(0 <= ki < self.entrypoints@.len() && nm@ == self.entrypoints@[ki].0@
                        && abs_str@ == self.entry_abs(ki) && !fs.contains_file(
                        self.entry_abs(ki),
                    ));
                }
                return Err(BuildError::MissingEntrypoint { name: nm, path: abs_str });
            }
            proof {
                assert(fs.contains_file(self.entry_abs(k as int)));
            }
            k = k + 1;
        }
        Ok(())
    }

    /// A copy of this configuration that carries the same values, field for
    /// field. (A derived clone would say nothing about the copy.)
    pub fn duplicate(&self) -> (r: Config)
        ensures
            r.project.name@ == self.project.name@,
            r.project.version@ == self.project.version@,
            r.entrypoints@.len() == self.entrypoints@.len(),
            forall|k: int| #![trigger r.entrypoints@[k]]
                0 <= k < r.entrypoints@.len() ==> r.entrypoints@[k].0@ == self.entrypoints@[k].0@
                    && r.entrypoints@[k].1@ == self.entrypoints@[k].1@,
            r.output.dir@ == self.output.dir@,
            r.output.public_url@ == self.output.public_url@,
            r.output.hash == self.output.hash,
            r.output.manifest == self.output.manifest,
            r.features.jsx == self.features.jsx,
            r.features.jsx_runtime@ == self.features.jsx_runtime@,
            r.features.jsx_import_source@ == self.features.jsx_import_source@,
            r.features.typescript == self.features.typescript,
            r.features.css_modules == self.features.css_modules,
            r.features.css_modules_pattern@ == self.features.css_modules_pattern@,
            r.features.tailwind == self.features.tailwind,
            r.features.tree_shaking == self.features.tree_shaking,
            r.features.code_splitting == self.features.code_splitting,
            r.dev.port == self.dev.port,
            r.dev.host@ == self.dev.host@,
            r.dev.open == self.dev.open,
            r.dev.hmr == self.dev.hmr,
            r.root@ == self.root@,
    {
        let mut entrypoints: Vec<(String, String)> = Vec::new();
        let mut k: usize = 0;
        while k < self.entrypoints.len()
            invariant
                k <= self.entrypoints@.len(),
                entrypoints@.len() == k,
                forall|i: int| #![trigger entrypoints@[i]]
                    0 <= i < k ==> entrypoints@[i].0@ == self.entrypoints@[i].0@
                        && entrypoints@[i].1@ == self.entrypoints@[i].1@,
            decreases self.entrypoints@.len() - k,
        {
            let ghost pre = entrypoints@;
            let pr = (self.entrypoints[k].0.clone(), self.entrypoints[k].1.clone());
            let ghost prv = pr;
            entrypoints.push(pr);
            proof {
                assert forall|i: int| #![trigger entrypoints@[i]]
                    0 <= i < k + 1 implies entrypoints@[i].0@ == self.entrypoints@[i].0@
                    && entrypoints@[i].1@ == self.entrypoints@[i].1@ by {
                    if i < k {
                        assert(entrypoints@[i] == pre[i]);
                        assert(pre[i].0@ == self.entrypoints@[i].0@);
                        assert(pre[i].1@ == self.entrypoints@[i].1@);
                    } else {
                        assert(entrypoints@[i] == prv);
                    }
                }
            }
            k = k + 1;
        }
        let mut proxy: Vec<ProxyConfig> = Vec::new();
        let mut j: usize = 0;
        while j < self.dev.proxy.len()
            decreases self.dev.proxy@.len() - j,
        {
            let rewrite = match &self.dev.proxy[j].rewrite {
                Some(s) => Some(s.clone()),
                None => None,
            };
            proxy.push(ProxyConfig {
                path: self.dev.proxy[j].path.clone(),
                target: self.dev.proxy[j].target.clone(),
                rewrite,
            });
            j = j + 1;
        }
        Config {
            project: ProjectConfig {
                name: self.project.name.clone(),
                version: self.project.version.clone(),
            },
            entrypoints,
            output: OutputConfig {
                dir: self.output.dir.clone(),
                public_url: self.output.public_url.clone(),
                hash: self.output.hash,
                manifest: self.output.manifest,
            },
            features: FeaturesConfig {
                jsx: self.features.jsx,
                jsx_runtime: self.features.jsx_runtime.clone(),
                jsx_import_source: self.features.jsx_import_source.clone(),
                typescript: self.features.typescript,
                css_modules: self.features.css_modules,
                css_modules_pattern: self.features.css_modules_pattern.clone(),
                tailwind: self.features.tailwind,
                tree_shaking: self.features.tree_shaking,
                code_splitting: self.features.code_splitting,
            },
            dev: DevConfig {
                port: self.dev.port,
                host: self.dev.host.clone(),
                open: self.dev.open,
                hmr: self.dev.hmr,
                proxy,
            },
            root: self.root.clone(),
        }
    }

    /// The absolute output directory path.
    pub fn output_dir(&self) -> (r: String)
        ensures
            r@ == join_under(self.root@, self.output.dir@),
    {
        let root_chars = str_to_chars(self.root.as_str());
        let rel = str_to_chars(self.output.dir.as_str());
        let joined = join_under_chars(&root_chars, &rel);
        chars_to_string(&joined)
    }

    /// The canonical path of the first entrypoint with this name, if any.
    pub fn entrypoint_path(&self, name: &str) -> (r: Option<String>)
        ensures
            match r {
                Some(p) => exists|k: int|
                    0 <= k < self.entrypoints@.len() && self.entrypoints@[k].0@ == name@
                        && p@ == self.entry_abs(k),
                None => forall|k: int|
                    0 <= k < self.entrypoints@.len() ==> self.entrypoints@[k].0@ != name@,
            },
    {
        let root_chars = str_to_chars(self.root.as_str());
        let mut k: usize = 0;
        while k < self.entrypoints.len()
            invariant
                root_chars@ == self.root@,
                k <= self.entrypoints@.len(),
                forall|i: int| 0 <= i < k ==> self.entrypoints@[i].0@ != name@,
            decreases self.entrypoints@.len() - k,
        {
            if crate::strutil::str_eq(self.entrypoints[k].0.as_str(), name) {
                let rel = str_to_chars(self.entrypoints[k].1.as_str());
                let abs = join_under_chars(&root_chars, &rel);
                let p = chars_to_string(&abs);
                proof {
                    let ki = k as int;
                    assert(0 <= ki < self.entrypoints@.len() && self.entrypoints@[ki].0@
                        == name@ && p@ == self.entry_abs(ki));
                }
                return Some(p);
            }
            k = k + 1;
        }
        None
    }

    /// All entrypoints, as name → canonical path pairs, in configured order.
    pub fn all_entrypoints(&self) -> (r: Vec<(String, String)>)
        ensures
            r@.len() == self.entrypoints@.len(),
            forall|k: int|
                0 <= k < r@.len() ==> r@[k].0@ == self.entrypoints@[k].0@ && r@[k].1@
                    == self.entry_abs(k),
    {
        let root_chars = str_to_chars(self.root.as_str());
        let mut out: Vec<(String, String)> = Vec::new();
        let mut k: usize = 0;
        while k < self.entrypoints.len()
            invariant
                root_chars@ == self.root@,
                k <= self.entrypoints@.len(),
                out@.len() == k,
                forall|i: int| #![trigger out@[i]]
                    0 <= i < k ==> out@[i].0@ == self.entrypoints@[i].0@ && out@[i].1@
                        == self.entry_abs(i),
            decreases self.entrypoints@.len() - k,
        {
            let rel = str_to_chars(self.entrypoints[k].1.as_str());
            let abs = join_under_chars(&root_chars, &rel);
            let ghost preout = out@;
            let name_c = self.entrypoints[k].0.clone();
            let path_c = chars_to_string(&abs);
            proof {
                assert(name_c@ == self.entrypoints@[k as int].0@);
                assert(path_c@ == self.entry_abs(k as int));
            }
            let pr = (name_c, path_c);
            let ghost prv = pr;
            out.push(pr);
            proof {
                assert forall|i: int| #![trigger out@[i]]
                    0 <= i < k + 1 implies out@[i].0@ == self.entrypoints@[i].0@ && out@[i].1@
                    == self.entry_abs(i) by {
                    if i < k {
                        assert(preout[i].1@ == self.entry_abs(i));
                        assert(preout[i].0@ == self.entrypoints@[i].0@);
                        assert(out@[i] == preout[i]);
                    } else {
                        assert(out@[i] == prv);
                    }
                }
            }
            k = k + 1;
        }
        out
    }
}

} // verus!
