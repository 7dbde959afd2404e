//! Verified core of ptah: rendering, the run record, package-project
//! rules and module resolution.

pub mod events;
pub mod luau;
pub mod package;
pub mod paths;
pub mod record;
pub mod render;
pub mod text;
