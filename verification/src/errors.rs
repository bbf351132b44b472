//! The build's failure taxonomy. Every failure aborts the whole build; the
//! variant carries the file, specifier or phase it arose from.

use vstd::prelude::*;

verus! {

use vstd::string::StringExecFns;

/// Why a build failed.
#[derive(Debug, Clone)]
pub enum BuildError {
    /// The configuration names no entrypoints at all.
    NoEntrypoints,
    /// A configured entrypoint does not exist in the file snapshot.
    MissingEntrypoint { name: String, path: String },
    /// A module file that the graph needs is not in the snapshot.
    FileMissing { path: String },
    /// A relative or absolute specifier that maps to no existing file.
    UnresolvedImport { specifier: String, importer: String },
    /// A module declared as JSON does not parse as JSON.
    InvalidJson { path: String },
    /// A plugin hook failed; the build aborts with the plugin's message.
    PluginFailed { message: String },
}

/// The text `describe` produces for an error.
pub open spec fn describe_spec(e: BuildError) -> Seq<char> {
    match e {
        BuildError::NoEntrypoints => "at least one entrypoint must be configured"@,
        BuildError::MissingEntrypoint { name, path } => "entrypoint '"@ + name@
            + "' points to a missing file: "@ + path@,
        BuildError::FileMissing { path } => "failed to read module: "@ + path@,
        BuildError::UnresolvedImport { specifier, importer } => "cannot resolve '"@ + specifier@
            + "' imported from "@ + importer@,
        BuildError::InvalidJson { path } => "invalid JSON in "@ + path@,
        BuildError::PluginFailed { message } => "plugin error: "@ + message@,
    }
}

impl BuildError {
    /// A short, plain-text description of the failure.
    pub fn describe(&self) -> (r: String)
        ensures
            r@ == describe_spec(*self),
    {
        match self {
            BuildError::NoEntrypoints => {
                let mut s = String::new();
                s.append("at least one entrypoint must be configured");
                assert(s@ =~= describe_spec(*self));
                s
            },
            BuildError::MissingEntrypoint { name, path } => {
                let mut s = String::new();
                s.append("entrypoint '");
                s.append(name.as_str());
                s.append("' points to a missing file: ");
                s.append(path.as_str());
                assert(s@ =~= describe_spec(*self));
                s
            },
            BuildError::FileMissing { path } => {
                let mut s = String::new();
                s.append("failed to read module: ");
                s.append(path.as_str());
                assert(s@ =~= describe_spec(*self));
                s
            },
            BuildError::UnresolvedImport { specifier, importer } => {
                let mut s = String::new();
                s.append("cannot resolve '");
                s.append(specifier.as_str());
                s.append("' imported from ");
                s.append(importer.as_str());
                assert(s@ =~= describe_spec(*self));
                s
            },
            BuildError::InvalidJson { path } => {
                let mut s = String::new();
                s.append("invalid JSON in ");
                s.append(path.as_str());
                assert(s@ =~= describe_spec(*self));
                s
            },
            BuildError::PluginFailed { message } => {
                let mut s = String::new();
                s.append("plugin error: ");
                s.append(message.as_str());
                assert(s@ =~= describe_spec(*self));
                s
            },
        }
    }
}

} // verus!
