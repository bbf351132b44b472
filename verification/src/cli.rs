//! The command-line surface as plain data: commands, their options, and the
//! text that project scaffolding generates.
//!
//! Argument parsing and file writing live in the binary front-end; it fills
//! these structs and writes these strings out.

use vstd::prelude::*;

verus! {

use vstd::string::StringExecFns;
use crate::strutil::str_eq;

/// Build the project for production.
#[derive(Debug, Clone)]
pub struct BuildCommand {
    /// Output directory override.
    pub outdir: Option<String>,
    /// Enable minification.
    pub minify: bool,
    /// Enable source maps.
    pub sourcemap: bool,
    /// Target environment.
    pub target: String,
}

/// Build options derived from command arguments.
#[derive(Debug, Clone)]
pub struct BuildOptions {
    /// Output directory override.
    pub outdir: Option<String>,
    /// Enable minification.
    pub minify: bool,
    /// Enable source maps.
    pub sourcemap: bool,
    /// Target environment.
    pub target: String,
}

impl BuildCommand {
    /// The options this command asks for.
    pub fn to_options(&self) -> (r: BuildOptions)
        ensures
            match r.outdir {
                Some(d) => self.outdir is Some && d@ == self.outdir->0@,
                None => self.outdir is None,
            },
            r.minify == self.minify,
            r.sourcemap == self.sourcemap,
            r.target@ == self.target@,
    {
        let outdir = match &self.outdir {
            Some(d) => Some(d.clone()),
            None => None,
        };
        BuildOptions {
            outdir,
            minify: self.minify,
            sourcemap: self.sourcemap,
            target: self.target.clone(),
        }
    }
}

/// Start the development server with hot module replacement.
#[derive(Debug, Clone)]
pub struct DevCommand {
    /// Port to run the dev server on.
    pub port: u16,
    /// Host to bind to.
    pub host: String,
    /// Open a browser automatically.
    pub open: bool,
    /// Disable hot module replacement.
    pub no_hmr: bool,
}

/// Development server options.
#[derive(Debug, Clone)]
pub struct DevServerOptions {
    /// Host to bind to.
    pub host: String,
    /// Port to listen on.
    pub port: u16,
    /// Whether hot module replacement is on.
    pub hmr: bool,
    /// Open a browser automatically.
    pub open: bool,
}

/// Initialize a new project.
#[derive(Debug, Clone)]
pub struct InitCommand {
    /// Project name / directory.
    pub name: String,
    /// Project template (react, vue, svelte, vanilla).
    pub template: String,
    /// Use TypeScript.
    pub typescript: bool,
}

/// The top-level command-line interface.
#[derive(Debug, Clone)]
pub struct Cli {
    /// The chosen subcommand.
    pub command: Commands,
    /// Enable verbose output.
    pub verbose: bool,
    /// Path to the configuration file.
    pub config: String,
}

/// The subcommands.
#[derive(Debug, Clone)]
pub enum Commands {
    /// Build the project for production.
    Build(BuildCommand),
    /// Start the development server.
    Dev(DevCommand),
    /// Initialize a new project.
    Init(InitCommand),
}

/// `true` or `false`, as configuration text.
pub open spec fn bool_text(b: bool) -> Seq<char> {
    if b {
        "true"@
    } else {
        "false"@
    }
}

/// The project name a scaffold uses: the directory name, or a stand-in for
/// the current directory.
pub open spec fn effective_name(name: Seq<char>) -> Seq<char> {
    if name == "."@ {
        "my-app"@
    } else {
        name
    }
}

/// The main source file a template starts from.
pub open spec fn main_file_spec(template: Seq<char>, typescript: bool) -> Seq<char> {
    if template == "vanilla"@ {
        if typescript {
            "src/main.ts"@
        } else {
            "src/main.js"@
        }
    } else {
        if typescript {
            "src/main.tsx"@
        } else {
            "src/main.jsx"@
        }
    }
}

/// What `generate_config` writes.
pub open spec fn generate_config_spec(c: InitCommand) -> Seq<char> {
    "# Component Reborn Configuration\n# https://github.com/componentjs/component\n\n[project]\nname = \""@
        + effective_name(c.name@)
        + "\"\nversion = \"0.1.0\"\n\n[entrypoints]\nmain = \""@ + main_file_spec(
        c.template@,
        c.typescript,
    ) + "\"\n\n[output]\ndir = \"dist\"\npublic_url = \"/\"\n\n[features]\njsx = "@ + bool_text(
        c.template@ != "vanilla"@,
    ) + "\ntypescript = "@ + bool_text(c.typescript)
        + "\ncss_modules = true\n\n[dev]\nport = 3000\nopen = false\n"@
}

/// The dependencies block a template needs.
pub open spec fn package_deps_spec(template: Seq<char>) -> Seq<char> {
    if template == "react"@ {
        "\"react\": \"^18.2.0\",\n    \"react-dom\": \"^18.2.0\""@
    } else if template == "vue"@ {
        "\"vue\": \"^3.3.0\""@
    } else if template == "svelte"@ {
        "\"svelte\": \"^4.0.0\""@
    } else {
        ""@
    }
}

/// The development dependencies block a template needs.
pub open spec fn package_dev_deps_spec(template: Seq<char>, typescript: bool) -> Seq<char> {
    if typescript {
        if template == "react"@ {
            "\"@types/react\": \"^18.2.0\",\n    \"@types/react-dom\": \"^18.2.0\",\n    \"typescript\": \"^5.0.0\""@
        } else {
            "\"typescript\": \"^5.0.0\""@
        }
    } else {
        ""@
    }
}

/// What `generate_package_json` writes.
pub open spec fn generate_package_json_spec(c: InitCommand) -> Seq<char> {
    let deps = package_deps_spec(c.template@);
    let dev_deps = package_dev_deps_spec(c.template@, c.typescript);
    let deps_part = if deps.len() == 0 {
        Seq::<char>::empty()
    } else {
        ",\n  \"dependencies\": {\n    "@ + deps + "\n  }"@
    };
    let dev_part = if dev_deps.len() == 0 {
        Seq::<char>::empty()
    } else {
        ",\n  \"devDependencies\": {\n    "@ + dev_deps + "\n  }"@
    };
    "{\n  \"name\": \""@ + effective_name(c.name@)
        + "\",\n  \"private\": true,\n  \"version\": \"0.1.0\",\n  \"type\": \"module\",\n  \"scripts\": {\n    \"dev\": \"component dev\",\n    \"build\": \"component build\",\n    \"preview\": \"component preview\"\n  }"@
        + deps_part + dev_part + "\n}\n"@
}

/// The title a scaffolded page gets.
pub open spec fn page_title_spec(name: Seq<char>) -> Seq<char> {
    if name == "."@ {
        "My App"@
    } else {
        name
    }
}

/// The source extension a template's entry uses.
pub open spec fn entry_ext_spec(template: Seq<char>, typescript: bool) -> Seq<char> {
    if typescript {
        if template == "vanilla"@ {
            "ts"@
        } else {
            "tsx"@
        }
    } else {
        if template == "vanilla"@ {
            "js"@
        } else {
            "jsx"@
        }
    }
}

/// What `generate_index_html` writes.
pub open spec fn generate_index_html_spec(c: InitCommand) -> Seq<char> {
    "<!DOCTYPE html>\n<html lang=\"en\">\n  <head>\n    <meta charset=\"UTF-8\" />\n    <meta name=\"viewport\" content=\"width=device-width, initial-scale=1.0\" />\n    <title>"@
        + page_title_spec(c.name@)
        + "</title>\n  </head>\n  <body>\n    <div id=\"app\"></div>\n    <script type=\"module\" src=\"/src/main."@
        + entry_ext_spec(c.template@, c.typescript) + "\"></script>\n  </body>\n</html>\n"@
}

impl InitCommand {
    /// The configuration file a new project starts with.
    pub fn generate_config(&self) -> (r: String)
        ensures
            r@ == generate_config_spec(*self),
    {
        let mut s = String::new();
        s.append(
            "# Component Reborn Configuration\n# https://github.com/componentjs/component\n\n[project]\nname = \"",
        );
        if str_eq(self.name.as_str(), ".") {
            s.append("my-app");
        } else {
            s.append(self.name.as_str());
        }
        s.append("\"\nversion = \"0.1.0\"\n\n[entrypoints]\nmain = \"");
        let vanilla = str_eq(self.template.as_str(), "vanilla");
        if vanilla {
            if self.typescript {
                s.append("src/main.ts");
            } else {
                s.append("src/main.js");
            }
        } else {
            if self.typescript {
                s.append("src/main.tsx");
            } else {
                s.append("src/main.jsx");
            }
        }
        s.append("\"\n\n[output]\ndir = \"dist\"\npublic_url = \"/\"\n\n[features]\njsx = ");
        if !vanilla {
            s.append("true");
        } else {
            s.append("false");
        }
        s.append("\ntypescript = ");
        if self.typescript {
            s.append("true");
        } else {
            s.append("false");
        }
        s.append("\ncss_modules = true\n\n[dev]\nport = 3000\nopen = false\n");
        assert(s@ =~= generate_config_spec(*self));
        s
    }

    /// The npm manifest a new project starts with.
    pub fn generate_package_json(&self) -> (r: String)
        ensures
            r@ == generate_package_json_spec(*self),
    {
        let mut s = String::new();
        s.append("{\n  \"name\": \"");
        if str_eq(self.name.as_str(), ".") {
            s.append("my-app");
        } else {
            s.append(self.name.as_str());
        }
        s.append(
            "\",\n  \"private\": true,\n  \"version\": \"0.1.0\",\n  \"type\": \"module\",\n  \"scripts\": {\n    \"dev\": \"component dev\",\n    \"build\": \"component build\",\n    \"preview\": \"component preview\"\n  }",
        );
        let react = str_eq(self.template.as_str(), "react");
        let vue = str_eq(self.template.as_str(), "vue");
        let svelte = str_eq(self.template.as_str(), "svelte");
        proof {
            reveal_strlit("");
            reveal_strlit("\"react\": \"^18.2.0\",\n    \"react-dom\": \"^18.2.0\"");
            reveal_strlit("\"vue\": \"^3.3.0\"");
            reveal_strlit("\"svelte\": \"^4.0.0\"");
            reveal_strlit(
                "\"@types/react\": \"^18.2.0\",\n    \"@types/react-dom\": \"^18.2.0\",\n    \"typescript\": \"^5.0.0\"",
            );
            reveal_strlit("\"typescript\": \"^5.0.0\"");
        }
        if react || vue || svelte {
            s.append(",\n  \"dependencies\": {\n    ");
            if react {
                s.append("\"react\": \"^18.2.0\",\n    \"react-dom\": \"^18.2.0\"");
            } else if vue {
                s.append("\"vue\": \"^3.3.0\"");
            } else {
                s.append("\"svelte\": \"^4.0.0\"");
            }
            s.append("\n  }");
        }
        if self.typescript {
            s.append(",\n  \"devDependencies\": {\n    ");
            if react {
                s.append(
                    "\"@types/react\": \"^18.2.0\",\n    \"@types/react-dom\": \"^18.2.0\",\n    \"typescript\": \"^5.0.0\"",
                );
            } else {
                s.append("\"typescript\": \"^5.0.0\"");
            }
            s.append("\n  }");
        }
        s.append("\n}\n");
        assert(s@ =~= generate_package_json_spec(*self));
        s
    }

    /// The page a new project starts with.
    pub fn generate_index_html(&self) -> (r: String)
        ensures
            r@ == generate_index_html_spec(*self),
    {
        let mut s = String::new();
        s.append(
            "<!DOCTYPE html>\n<html lang=\"en\">\n  <head>\n    <meta charset=\"UTF-8\" />\n    <meta name=\"viewport\" content=\"width=device-width, initial-scale=1.0\" />\n    <title>",
        );
        if str_eq(self.name.as_str(), ".") {
            s.append("My App");
        } else {
            s.append(self.name.as_str());
        }
        s.append(
            "</title>\n  </head>\n  <body>\n    <div id=\"app\"></div>\n    <script type=\"module\" src=\"/src/main.",
        );
        let vanilla = str_eq(self.template.as_str(), "vanilla");
        if self.typescript {
            if vanilla {
                s.append("ts");
            } else {
                s.append("tsx");
            }
        } else {
            if vanilla {
                s.append("js");
            } else {
                s.append("jsx");
            }
        }
        s.append("\"></script>\n  </body>\n</html>\n");
        assert(s@ =~= generate_index_html_spec(*self));
        s
    }
}

} // verus!
