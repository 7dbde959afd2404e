//! Test-fixture descriptions: the files of a fixture repository tree and
//! the versions a fixture registry index publishes. Building the
//! repositories is the test harness's work.

use vstd::prelude::*;

verus! {

/// One file in a fixture repository tree.
pub struct FileSpec<'a> {
    pub path: &'a str,
    pub contents: &'a str,
}

/// One published version in a fixture registry index.
pub struct IndexEntrySpec<'a> {
    /// Full package name, `scope/name`.
    pub name: &'a str,
    /// The published version, e.g. `0.1.0`.
    pub version: &'a str,
    /// The `lib` export path of the package (e.g. `init.luau`).
    pub lib: Option<&'a str>,
}

} // verus!
