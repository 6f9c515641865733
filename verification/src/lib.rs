//! Package specifiers, version solving and lockfiles for Tangram packages.

pub mod text;
pub mod specifier;
pub mod dependency;
pub mod version;
pub mod collections;
pub mod solution;
pub mod model;
pub mod solve;
pub mod scan;
pub mod lockfile;
pub mod locking;
pub mod installer;
pub mod client;
pub mod module_url;
pub mod compiler;
pub mod lsp;
pub mod routes;
pub mod laws;
pub mod reading;
pub mod documents;
pub mod references;
pub mod report;
pub mod import;
pub mod walk;
pub mod keyed;
pub mod targets;
pub mod edits;
pub mod workspace;
pub mod loading;
pub mod soundness;
pub mod repl;
pub mod paths;
pub mod scanned;
