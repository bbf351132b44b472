//! A frontend module bundler: module graph construction, import specifier
//! resolution, a plugin hook pipeline, chunking, and bundle assembly.
//!
//! The build pipeline is pure: it works over an in-memory snapshot of the
//! project's files, so every step from dependency extraction to the final
//! bundle text is specified and verified. Binary front-ends do the disk and
//! terminal work and hand plain values in and out.

pub mod strutil;
pub mod utils;
pub mod graph;
pub mod chunk;
pub mod fsview;
pub mod extract;
pub mod errors;
pub mod config;
pub mod json;
pub mod resolver;
pub mod transform;
pub mod plugins;
pub mod bundler;
pub mod cli;
pub mod server;

pub use bundler::Bundler;
pub use cli::Cli;
pub use config::Config;
