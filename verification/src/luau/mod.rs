//! The scripting runtime's own rules: module navigation and how a run's
//! end becomes its outcome.

pub mod bindings;
pub mod require;
pub mod state;
