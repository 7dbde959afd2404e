//! The package adapter's error surface: one enum the CLI maps onto the
//! package exit-code contract — usage failures exit 2, everything else
//! exits 1 — each variant naming the failing step or package.

use vstd::prelude::*;

use crate::paths::path_join;
use crate::text::push_str_chars;
use crate::paths::join_path;

verus! {

/// A package-management failure.
#[derive(Debug)]
pub enum Error {
    // Usage class (exit 2): the invocation or the project configuration
    // is wrong; retrying unchanged cannot succeed.
    /// No ancestor directory of the invocation point contains a `.ptah/`
    /// with `config.toml` or `pesde.toml`.
    NoProject { searched_from: String },
    /// The manifest is missing from the discovered project.
    ManifestMissing { ptah_dir: String },
    /// The manifest could not be parsed as a Pesde manifest.
    ManifestParse { source: String },
    /// A manifest edit could not be represented.
    ManifestEdit { source: String },
    /// The requested dependency spec or alias is not a valid form.
    InvalidSpec { source: String },
    /// `remove` was asked for an alias the manifest does not carry.
    UnknownAlias { alias: String },
    // Operational class (exit 1): the request was well-formed; the
    // operation failed.
    /// The manifest's target environment is not `luau`.
    UnsupportedTarget { found: String },
    /// `install --locked` with no lockfile present.
    LockfileMissing { ptah_dir: String },
    /// `install --locked` with a lockfile out of sync with the manifest.
    LockfileStale { reason: String },
    /// Building the dependency graph failed.
    Resolve { source: String },
    /// Refreshing or querying a package source failed.
    Source { step: String, source: String },
    /// Downloading and linking packages failed.
    Install { source: String },
    /// Reading or writing a ptah-managed file failed.
    Io { context: String, source: String },
    /// Synchronizing the root `.luaurc` failed.
    LuaurcSync { source: String },
}

/// The usage class (exit 2).
pub open spec fn usage_class(e: Error) -> bool {
    ||| e is NoProject
    ||| e is ManifestMissing
    ||| e is ManifestParse
    ||| e is ManifestEdit
    ||| e is InvalidSpec
    ||| e is UnknownAlias
}

/// The diagnostic text of each failure.
pub open spec fn error_text(e: Error) -> Seq<char> {
    match e {
        Error::NoProject { searched_from } => "no ptah project found: searched for .ptah/config.toml or .ptah/pesde.toml in "@
            + searched_from@ + " and every parent directory"@,
        Error::ManifestMissing { ptah_dir } => "no package manifest at "@ + path_join(
            ptah_dir@,
            "pesde.toml"@,
        ) + " (run `ptah init` to scaffold one)"@,
        Error::ManifestParse { source } => "cannot parse .ptah/pesde.toml: "@ + source@,
        Error::ManifestEdit { source } => "cannot edit .ptah/pesde.toml: "@ + source@,
        Error::InvalidSpec { source } => "invalid package specification: "@ + source@,
        Error::UnknownAlias { alias } => "no dependency with alias `"@ + alias@
            + "` in the manifest"@,
        Error::UnsupportedTarget { found } => "unsupported package target environment `"@ + found@
            + "` (ptah manages `luau` packages only)"@,
        Error::LockfileMissing { ptah_dir } => "the lockfile is missing: "@ + path_join(
            ptah_dir@,
            "pesde.lock"@,
        ) + " (--locked installs need an up-to-date lockfile)"@,
        Error::LockfileStale { reason } => "the lockfile is out of sync with the manifest ("@
            + reason@ + "); run `ptah package install` to update it"@,
        Error::Resolve { source } => "dependency resolution failed: "@ + source@,
        Error::Source { step, source } => "failed to "@ + step@ + ": "@ + source@,
        Error::Install { source } => "failed to install packages: "@ + source@,
        Error::Io { context, source } => context@ + ": "@ + source@,
        Error::LuaurcSync { source } => "failed to sync .luaurc: "@ + source@,
    }
}

impl Error {
    /// Whether this is a usage-class failure (exit 2) as opposed to an
    /// operational one (exit 1).
    pub fn is_usage(&self) -> (b: bool)
        ensures
            b == usage_class(*self),
    {
        match self {
            Error::NoProject { .. } | Error::ManifestMissing { .. } | Error::ManifestParse { .. }
            | Error::ManifestEdit { .. } | Error::InvalidSpec { .. } | Error::UnknownAlias {
                ..
            } => true,
            _ => false,
        }
    }

    /// The diagnostic text, naming the failing thing.
    pub fn message(&self) -> (s: String)
        ensures
            s@ == error_text(*self),
    {
        proof {
            reveal_strlit("no ptah project found: searched for .ptah/config.toml or .ptah/pesde.toml in ");
            reveal_strlit(" and every parent directory");
            reveal_strlit("no package manifest at ");
            reveal_strlit("pesde.toml");
            reveal_strlit(" (run `ptah init` to scaffold one)");
            reveal_strlit("cannot parse .ptah/pesde.toml: ");
            reveal_strlit("cannot edit .ptah/pesde.toml: ");
            reveal_strlit("invalid package specification: ");
            reveal_strlit("no dependency with alias `");
            reveal_strlit("` in the manifest");
            reveal_strlit("unsupported package target environment `");
            reveal_strlit("` (ptah manages `luau` packages only)");
            reveal_strlit("the lockfile is missing: ");
            reveal_strlit("pesde.lock");
            reveal_strlit(" (--locked installs need an up-to-date lockfile)");
            reveal_strlit("the lockfile is out of sync with the manifest (");
            reveal_strlit("); run `ptah package install` to update it");
            reveal_strlit("dependency resolution failed: ");
            reveal_strlit("failed to ");
            reveal_strlit(": ");
            reveal_strlit("failed to install packages: ");
            reveal_strlit("failed to sync .luaurc: ");
        }
        let mut s = String::new();
        match self {
            Error::NoProject { searched_from } => {
                push_str_chars(&mut s, "no ptah project found: searched for .ptah/config.toml or .ptah/pesde.toml in ");
                push_str_chars(&mut s, searched_from.as_str());
                push_str_chars(&mut s, " and every parent directory");
            },
            Error::ManifestMissing { ptah_dir } => {
                push_str_chars(&mut s, "no package manifest at ");
                let p = join_path(ptah_dir.as_str(), "pesde.toml");
                push_str_chars(&mut s, p.as_str());
                push_str_chars(&mut s, " (run `ptah init` to scaffold one)");
            },
            Error::ManifestParse { source } => {
                push_str_chars(&mut s, "cannot parse .ptah/pesde.toml: ");
                push_str_chars(&mut s, source.as_str());
            },
            Error::ManifestEdit { source } => {
                push_str_chars(&mut s, "cannot edit .ptah/pesde.toml: ");
                push_str_chars(&mut s, source.as_str());
            },
            Error::InvalidSpec { source } => {
                push_str_chars(&mut s, "invalid package specification: ");
                push_str_chars(&mut s, source.as_str());
            },
            Error::UnknownAlias { alias } => {
                push_str_chars(&mut s, "no dependency with alias `");
                push_str_chars(&mut s, alias.as_str());
                push_str_chars(&mut s, "` in the manifest");
            },
            Error::UnsupportedTarget { found } => {
                push_str_chars(&mut s, "unsupported package target environment `");
                push_str_chars(&mut s, found.as_str());
                push_str_chars(&mut s, "` (ptah manages `luau` packages only)");
            },
            Error::LockfileMissing { ptah_dir } => {
                push_str_chars(&mut s, "the lockfile is missing: ");
                let p = join_path(ptah_dir.as_str(), "pesde.lock");
                push_str_chars(&mut s, p.as_str());
                push_str_chars(&mut s, " (--locked installs need an up-to-date lockfile)");
            },
            Error::LockfileStale { reason } => {
                push_str_chars(&mut s, "the lockfile is out of sync with the manifest (");
                push_str_chars(&mut s, reason.as_str());
                push_str_chars(&mut s, "); run `ptah package install` to update it");
            },
            Error::Resolve { source } => {
                push_str_chars(&mut s, "dependency resolution failed: ");
                push_str_chars(&mut s, source.as_str());
            },
            Error::Source { step, source } => {
                push_str_chars(&mut s, "failed to ");
                push_str_chars(&mut s, step.as_str());
                push_str_chars(&mut s, ": ");
                push_str_chars(&mut s, source.as_str());
            },
            Error::Install { source } => {
                push_str_chars(&mut s, "failed to install packages: ");
                push_str_chars(&mut s, source.as_str());
            },
            Error::Io { context, source } => {
                push_str_chars(&mut s, context.as_str());
                push_str_chars(&mut s, ": ");
                push_str_chars(&mut s, source.as_str());
            },
            Error::LuaurcSync { source } => {
                push_str_chars(&mut s, "failed to sync .luaurc: ");
                push_str_chars(&mut s, source.as_str());
            },
        }
        s
    }
}

} // verus!
