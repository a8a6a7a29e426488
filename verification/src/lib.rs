//! Keeps a fleet of related repositories in sync with the latest published
//! versions of a small set of shared packages.
//!
//! The crate covers three responsibilities: comparing version strings,
//! patching a version reference inside a dependency manifest or a CI workflow
//! file while leaving every other byte alone, and persisting a patched file
//! through a remote commit API with a local-checkout fallback.

pub mod git;
mod text;
pub mod toml_doc;
pub mod workflow;
pub mod updater;
pub mod versions;
