//! Package management for ptah projects: the rules behind
//! `ptah package add|remove|install|update` — the manifest, the root
//! `.luaurc` alias configuration, project discovery and the lockfile
//! freshness contract.

pub mod error;
pub mod manifest;
pub mod names;
pub mod driver;
pub mod luaurc;
pub mod fixtures;
pub mod project;
