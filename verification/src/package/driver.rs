//! The package operation driver's decisions: where linked packages live,
//! which alias a new dependency gets, whether the lockfile can be reused,
//! and what an operation reports. The operations themselves — resolving,
//! downloading and linking through the pesde engine — run around these
//! decisions.

use vstd::prelude::*;

use crate::package::error::Error;
use crate::package::manifest::DependencyEntry;
use crate::package::names::{
    alias_error, alias_valid, current_lockfile_format, default_index_name, luau_packages_folder, package_name_error,
    package_name_valid, parse_alias, parse_package_name, name_part_valid,
};
use crate::paths::{components, is_absolute, join_path, path_components, path_is_absolute, path_join};
use crate::text::{chars_of, dec, push_chars, push_dec, push_str_chars, string_of, text_eq};

verus! {

/// Backslashes written as forward slashes.
pub open spec fn forward_slashes(s: Seq<char>) -> Seq<char> {
    s.map_values(|c: char| if c == '\\' { '/' } else { c })
}

/// `Path::new("luau_packages").join(alias)`: an absolute alias replaces
/// the folder.
pub open spec fn packages_entry(alias: Seq<char>) -> Seq<char> {
    if is_absolute(alias) {
        alias
    } else {
        path_join("luau_packages"@, alias)
    }
}

/// The linker-module path of an alias, relative to the project root.
pub open spec fn linker_path(alias: Seq<char>) -> Seq<char> {
    "./.ptah/"@ + forward_slashes(packages_entry(alias))
}

/// Path to a package's linked linker module for `luau` targets
/// (`<project>/.ptah/luau_packages/<alias>`), relative to the project root
/// — the value ptah records in the root `.luaurc`. The `.luaurc` lives at
/// the project root, so the value is always this fixed relative form.
pub fn linker_module_path(alias: &str) -> (out: String)
    ensures
        out@ == linker_path(alias@),
{
    let folder = luau_packages_folder();
    let joined = if path_is_absolute(alias) {
        string_of(&chars_of(alias))
    } else {
        join_path(folder.as_str(), alias)
    };
    let v = chars_of(joined.as_str());
    let mut slashed: Vec<char> = Vec::new();
    let mut i: usize = 0;
    while i < v.len()
        invariant
            i <= v.len(),
            v@ == packages_entry(alias@),
            slashed@ == forward_slashes(v@).take(i as int),
        decreases v.len() - i,
    {
        let c = if v[i] == '\\' { '/' } else { v[i] };
        slashed.push(c);
        i += 1;
        assert(forward_slashes(v@).take(i as int) =~= forward_slashes(v@).take(i - 1).push(c));
    }
    assert(forward_slashes(v@).take(v.len() as int) =~= forward_slashes(v@));
    let mut out = String::new();
    push_str_chars(&mut out, "./.ptah/");
    push_chars(&mut out, &slashed);
    out
}

/// What one full package operation did, for the CLI's stage lines.
#[derive(Debug)]
pub struct InstallOutcome {
    /// Packages in the resolved dependency graph.
    pub packages: usize,
    /// Whether the lockfile was rewritten (bytes changed; an up-to-date
    /// install rewrites nothing).
    pub lockfile_written: bool,
}

/// `install`/`update` mode knobs.
#[derive(Debug, Clone, Copy, PartialEq, Eq, Structural)]
pub struct InstallOptions {
    /// `install --locked`: install exactly the lockfile's versions,
    /// failing when it is missing or stale.
    pub locked: bool,
    /// `update`: re-resolve every dependency from scratch (ignore the old
    /// graph's pinned versions for selection).
    pub fresh: bool,
}

impl Default for InstallOptions {
    fn default() -> (o: Self)
        ensures
            o == (InstallOptions { locked: false, fresh: false }),
    {
        InstallOptions { locked: false, fresh: false }
    }
}

/// The options of `ptah package update`: a full install with fresh
/// resolution.
pub fn update_options() -> (o: InstallOptions)
    ensures
        o == (InstallOptions { locked: false, fresh: true }),
{
    InstallOptions { locked: false, fresh: true }
}

/// The result of comparing the manifest against the lockfile.
#[derive(Debug)]
pub enum LockfileCheck<L> {
    /// Present and in sync; carries the lockfile.
    Fresh(L),
    /// No lockfile on disk.
    Missing,
    /// Out of sync; carries the reason for the diagnostic.
    Stale { reason: String },
}

/// The lockfile an install may reuse: with `locked`, only a fresh one,
/// and a missing or stale one fails before anything touches the network;
/// otherwise a fresh one is reused and anything else resolves anew.
pub fn reusable_lockfile<L>(check: LockfileCheck<L>, opts: &InstallOptions, ptah_dir: &str) -> (r:
    Result<Option<L>, Error>)
    ensures
        match check {
            LockfileCheck::Fresh(l) => r == Ok::<Option<L>, Error>(Some(l)),
            LockfileCheck::Missing => if opts.locked {
                r matches Err(Error::LockfileMissing { ptah_dir: d }) && d@ == ptah_dir@
            } else {
                r == Ok::<Option<L>, Error>(None)
            },
            LockfileCheck::Stale { reason } => if opts.locked {
                r == Err::<Option<L>, Error>(Error::LockfileStale { reason })
            } else {
                r == Ok::<Option<L>, Error>(None)
            },
        },
{
    match check {
        LockfileCheck::Fresh(l) => Ok(Some(l)),
        LockfileCheck::Missing => {
            if opts.locked {
                Err(Error::LockfileMissing { ptah_dir: string_of(&chars_of(ptah_dir)) })
            } else {
                Ok(None)
            }
        },
        LockfileCheck::Stale { reason } => {
            if opts.locked {
                Err(Error::LockfileStale { reason })
            } else {
                Ok(None)
            }
        },
    }
}

/// The old graph resolution starts from: the reused lockfile's, unless the
/// operation re-resolves from scratch.
pub fn graph_to_reuse<L>(previous: Option<L>, opts: &InstallOptions) -> (r: Option<L>)
    ensures
        r == if opts.fresh { None } else { previous },
{
    if opts.fresh {
        None
    } else {
        previous
    }
}

/// The facts of a manifest or lockfile the freshness contract compares,
/// each as pesde displays it.
#[derive(Debug)]
pub struct LockfileFacts {
    pub name: String,
    pub version: String,
    pub target: String,
}

/// Why a lockfile is stale, if it is: name, version, target, overrides and
/// the direct dependency specification sets must all match, checked in
/// that order.
pub open spec fn staleness(
    m: LockfileFacts,
    l: LockfileFacts,
    overrides_match: bool,
    specs_match: bool,
) -> Option<Seq<char>> {
    if m.name@ != l.name@ {
        Some("manifest names "@ + m.name@ + ", lockfile names "@ + l.name@)
    } else if m.version@ != l.version@ {
        Some("manifest version "@ + m.version@ + " != lockfile version "@ + l.version@)
    } else if m.target@ != l.target@ {
        Some("manifest target "@ + m.target@ + " != lockfile target "@ + l.target@)
    } else if !overrides_match {
        Some("overrides changed"@)
    } else if !specs_match {
        Some("dependency specifications changed"@)
    } else {
        None
    }
}

fn three_part(a: &str, x: &String, b: &str, y: &String) -> (s: String)
    ensures
        s@ == a@ + x@ + b@ + y@,
{
    let mut s = String::new();
    push_str_chars(&mut s, a);
    push_str_chars(&mut s, x.as_str());
    push_str_chars(&mut s, b);
    push_str_chars(&mut s, y.as_str());
    s
}

/// Compare the manifest against the lockfile (ptah's `--locked`
/// contract; pesde's own CLI only checks that every manifest dependency
/// appears in the lockfile): the reason it is stale, or `None` when it
/// is in sync.
pub fn lockfile_staleness(
    manifest: &LockfileFacts,
    lockfile: &LockfileFacts,
    overrides_match: bool,
    specs_match: bool,
) -> (r: Option<String>)
    ensures
        crate::text::opt_string_view(r) == staleness(*manifest, *lockfile, overrides_match, specs_match),
{
    if !text_eq(manifest.name.as_str(), lockfile.name.as_str()) {
        return Some(three_part("manifest names ", &manifest.name, ", lockfile names ", &lockfile.name));
    }
    if !text_eq(manifest.version.as_str(), lockfile.version.as_str()) {
        return Some(
            three_part("manifest version ", &manifest.version, " != lockfile version ", &lockfile.version),
        );
    }
    if !text_eq(manifest.target.as_str(), lockfile.target.as_str()) {
        return Some(
            three_part("manifest target ", &manifest.target, " != lockfile target ", &lockfile.target),
        );
    }
    if !overrides_match {
        return Some("overrides changed".to_string());
    }
    if !specs_match {
        return Some("dependency specifications changed".to_string());
    }
    None
}

/// The freshness check's verdict on a lockfile that was read.
pub fn check_lockfile<L>(
    lockfile: L,
    manifest_facts: &LockfileFacts,
    lockfile_facts: &LockfileFacts,
    overrides_match: bool,
    specs_match: bool,
) -> (c: LockfileCheck<L>)
    ensures
        match staleness(*manifest_facts, *lockfile_facts, overrides_match, specs_match) {
            Some(reason) => c matches LockfileCheck::Stale { reason: r } && r@ == reason,
            None => c == LockfileCheck::Fresh(lockfile),
        },
{
    match lockfile_staleness(manifest_facts, lockfile_facts, overrides_match, specs_match) {
        Some(reason) => LockfileCheck::Stale { reason },
        None => LockfileCheck::Fresh(lockfile),
    }
}

/// The lockfile text pesde's writer produces for a serialized body.
pub open spec fn lockfile_text_of(body: Seq<char>) -> Seq<char> {
    "# This file is automatically @generated by pesde.\n# It is not intended for manual editing.\nformat = "@
        + dec(2) + seq!['\n'] + body
}

/// Serialize a lockfile body to exactly the bytes pesde's own writer
/// produces (header, format line, body) — used for the nothing-changed
/// check so an up-to-date install rewrites no file.
pub fn lockfile_text(body: &str) -> (out: String)
    ensures
        out@ == lockfile_text_of(body@),
{
    let mut out = String::new();
    push_str_chars(
        &mut out,
        "# This file is automatically @generated by pesde.\n# It is not intended for manual editing.\nformat = ",
    );
    let format = current_lockfile_format();
    push_dec(&mut out, format as u64);
    out.push('\n');
    push_str_chars(&mut out, body);
    out
}

/// What an install reports: the graph's size, and whether the lockfile
/// was rewritten — exactly when the existing file (`None` when it could
/// not be read) differs from the new text.
pub fn install_outcome(packages: usize, existing: Option<&str>, new_text: &str) -> (o: InstallOutcome)
    ensures
        o.packages == packages,
        o.lockfile_written == (crate::text::opt_view(existing) != Some(new_text@)),
{
    let unchanged = match existing {
        Some(e) => text_eq(e, new_text),
        None => false,
    };
    InstallOutcome { packages, lockfile_written: !unchanged }
}

/// Where an added package comes from.
#[derive(Debug)]
pub enum AddSource {
    /// A registry package `scope/name[@version-req]`.
    Registry { name: String, version: Option<String> },
    /// A git repository, optionally pinned to a rev and subdirectory.
    Git { repo: String, rev: Option<String>, path: Option<String> },
    /// A local directory package.
    Path { path: String },
}

/// A parsed `ptah package add` request.
#[derive(Debug)]
pub struct AddRequest {
    pub source: AddSource,
    /// `--as <alias>`; defaults per source form (package name's last
    /// segment, repository name, or directory name).
    pub alias: Option<String>,
}

/// What `add` recorded and whether it went on to install.
#[derive(Debug)]
pub struct AddOutcome {
    pub alias: String,
    pub entry: DependencyEntry,
    pub install: Option<InstallOutcome>,
}

/// What `remove` did.
#[derive(Debug)]
pub struct RemoveOutcome {
    pub alias: String,
    pub install: Option<InstallOutcome>,
}

/// The default alias of a registry package: the name part of a valid
/// `scope/name`; an invalid name is a usage error.
pub fn registry_default_alias(name: &str) -> (r: Result<String, Error>)
    ensures
        r is Ok <==> package_name_valid(name@),
        r matches Ok(a) ==> exists|k: int|
            0 <= k < name@.len() && name@[k] == '/' && name_part_valid(#[trigger] name@.take(k), 3)
                && a@ == name@.skip(k + 1),
        r matches Err(e) ==> e matches Error::InvalidSpec { source } && source@ == package_name_error(name@),
{
    match parse_package_name(name) {
        Ok(n) => Ok(n),
        Err(e) => Err(Error::InvalidSpec { source: e }),
    }
}

/// The segment after the last `/` (the whole text when there is none).
pub open spec fn last_segment(p: Seq<char>) -> Seq<char>
    decreases p.len(),
{
    if p.len() == 0 {
        p
    } else if p.last() == '/' {
        Seq::empty()
    } else {
        last_segment(p.drop_last()).push(p.last())
    }
}

/// Every trailing `.git` removed.
pub open spec fn trim_git_suffix(s: Seq<char>) -> Seq<char>
    decreases s.len(),
{
    if s.len() >= 4 && s.skip(s.len() - 4) == ".git"@ {
        trim_git_suffix(s.take(s.len() - 4))
    } else {
        s
    }
}

/// The repository name of a URL path: its last segment with `.git`
/// stripped, or `package` when nothing is left.
pub open spec fn repo_name_of(path: Seq<char>) -> Seq<char> {
    let t = trim_git_suffix(last_segment(path));
    if t.len() == 0 {
        "package"@
    } else {
        t
    }
}

/// The repository name of a git URL's path (last path segment, `.git`
/// stripped) — the default alias for git dependencies.
pub fn repo_name(path: &str) -> (out: String)
    ensures
        out@ == repo_name_of(path@),
{
    proof {
        reveal_strlit(".git");
        reveal_strlit("package");
    }
    let v = chars_of(path);
    // The start of the last segment.
    let mut start: usize = v.len();
    assert(v@.take(v.len() as int) =~= v@);
    assert(v@.skip(v.len() as int) =~= Seq::<char>::empty());
    while start > 0 && v[start - 1] != '/'
        invariant
            start <= v.len(),
            v@ == path@,
            last_segment(path@) == last_segment(v@.take(start as int)) + v@.skip(start as int),
        decreases start,
    {
        assert(v@.take(start as int).drop_last() =~= v@.take(start - 1));
        assert(v@.skip(start - 1) =~= seq![v@[start - 1]] + v@.skip(start as int));
        assert(last_segment(v@.take(start as int)) == last_segment(v@.take(start - 1)).push(v@[start - 1]));
        assert(last_segment(v@.take(start - 1)).push(v@[start - 1]) + v@.skip(start as int)
            =~= last_segment(v@.take(start - 1)) + v@.skip(start - 1));
        start -= 1;
    }
    proof {
        if start > 0 {
            assert(v@.take(start as int).last() == '/');
        }
        assert(last_segment(v@.take(start as int)) =~= Seq::<char>::empty());
        assert(last_segment(path@) =~= v@.skip(start as int));
    }
    // Strip `.git` suffixes.
    let mut end: usize = v.len();
    while end - start >= 4 && v[end - 4] == '.' && v[end - 3] == 'g' && v[end - 2] == 'i' && v[end - 1] == 't'
        invariant
            start <= end <= v.len(),
            v@ == path@,
            trim_git_suffix(last_segment(path@)) == trim_git_suffix(v@.subrange(start as int, end as int)),
        decreases end,
    {
        let ghost seg = v@.subrange(start as int, end as int);
        proof {
            reveal_strlit(".git");
        }
        assert(seg.skip(seg.len() - 4) =~= ".git"@);
        assert(seg.take(seg.len() - 4) =~= v@.subrange(start as int, end - 4));
        end -= 4;
    }
    let ghost seg = v@.subrange(start as int, end as int);
    proof {
        if seg.len() >= 4 {
            assert(seg.skip(seg.len() - 4) != ".git"@) by {
                if seg.skip(seg.len() - 4) == ".git"@ {
                    assert(seg.skip(seg.len() - 4)[0] == v@[end - 4]);
                    assert(seg.skip(seg.len() - 4)[1] == v@[end - 3]);
                    assert(seg.skip(seg.len() - 4)[2] == v@[end - 2]);
                    assert(seg.skip(seg.len() - 4)[3] == v@[end - 1]);
                }
            }
        }
    }
    if end == start {
        return "package".to_string();
    }
    let mut out: Vec<char> = Vec::new();
    let mut j: usize = start;
    while j < end
        invariant
            start <= j <= end <= v.len(),
            out@ == v@.subrange(start as int, j as int),
        decreases end - j,
    {
        out.push(v[j]);
        j += 1;
        assert(v@.subrange(start as int, j as int) =~= v@.subrange(start as int, j - 1).push(v@[j - 1]));
    }
    string_of(&out)
}

/// The path component of a git URL as gix parses it, `None` when gix
/// rejects the URL.
pub uninterp spec fn git_url_path(url: Seq<char>) -> Option<Seq<char>>;

/// gix's diagnostic for a URL it rejects.
pub uninterp spec fn git_url_error(url: Seq<char>) -> Seq<char>;

/// `gix::Url::try_from(url)`, giving the parsed URL's `path` or the
/// error's text.
#[verifier::external_body]
fn parse_git_url_path(url: &str) -> (r: Result<String, String>)
    ensures
        match r {
            Ok(p) => git_url_path(url@) == Some(p@),
            Err(e) => git_url_path(url@).is_none() && e@ == git_url_error(url@),
        },
{
    match gix::Url::try_from(url) {
        Ok(u) => Ok(u.path.to_string()),
        Err(e) => Err(e.to_string()),
    }
}

/// The default alias of a git dependency: the repository name of the URL
/// (`url`, already made explicit for local paths); a URL gix rejects is a
/// usage error naming the repository as the user wrote it (`repo`).
pub fn git_default_alias(url: &str, repo: &str) -> (r: Result<String, Error>)
    ensures
        match git_url_path(url@) {
            Some(p) => r matches Ok(a) && a@ == repo_name_of(p),
            None => r matches Err(Error::InvalidSpec { source }) && source@ == "invalid git repository `"@
                + repo@ + "`: "@ + git_url_error(url@),
        },
{
    match parse_git_url_path(url) {
        Ok(p) => Ok(repo_name(p.as_str())),
        Err(e) => {
            let mut s = String::new();
            push_str_chars(&mut s, "invalid git repository `");
            push_str_chars(&mut s, repo);
            push_str_chars(&mut s, "`: ");
            push_str_chars(&mut s, e.as_str());
            Err(Error::InvalidSpec { source: s })
        },
    }
}

/// The name a path ends in (`Path::file_name`), when its last component
/// is a name.
pub open spec fn file_name_of(p: Seq<char>) -> Option<Seq<char>> {
    let c = components(p);
    if c.len() > 0 && c.last() != seq!['.', '.'] {
        Some(c.last())
    } else {
        None
    }
}

/// The default alias of a local path dependency: the directory's name,
/// or `package` when the path names none.
pub fn path_default_alias(abs: &str) -> (out: String)
    ensures
        out@ == match file_name_of(abs@) {
            Some(n) => n,
            None => "package"@,
        },
{
    proof {
        reveal_strlit("package");
    }
    let comps = path_components(abs);
    let ghost cv = comps@.map_values(|s: String| s@);
    if comps.len() == 0 {
        return "package".to_string();
    }
    let last = &comps[comps.len() - 1];
    assert(last@ == cv.last());
    if text_eq(last.as_str(), "..") {
        proof {
            reveal_strlit("..");
            assert(cv.last() =~= seq!['.', '.']);
        }
        return "package".to_string();
    }
    proof {
        reveal_strlit("..");
        assert(cv.last() != seq!['.', '.']) by {
            if cv.last() == seq!['.', '.'] {
                assert(cv.last() =~= ".."@);
            }
        }
    }
    string_of(&chars_of(last.as_str()))
}

/// The alias a dependency is recorded under: the requested one, else the
/// source's default — accepted only when Pesde accepts it as an alias.
pub fn choose_alias(requested: Option<&str>, default_alias: &str) -> (r: Result<String, Error>)
    ensures
        ({
            let a = match requested {
                Some(x) => x@,
                None => default_alias@,
            };
            &&& r is Ok <==> alias_valid(a)
            &&& r matches Ok(s) ==> s@ == a
            &&& r matches Err(e) ==> e matches Error::InvalidSpec { source } && source@ == alias_error(a)
        }),
{
    let a = match requested {
        Some(x) => x,
        None => default_alias,
    };
    match parse_alias(a) {
        Ok(()) => Ok(string_of(&chars_of(a))),
        Err(e) => Err(Error::InvalidSpec { source: e }),
    }
}

/// `remove`'s verdict on an alias: a syntactically invalid alias can never
/// have been recorded (a usage error before the manifest is touched), and
/// one no dependency table carried is unknown.
pub fn removal_verdict(alias: &str, removed: bool) -> (r: Result<(), Error>)
    ensures
        !alias_valid(alias@) ==> (r matches Err(Error::InvalidSpec { source }) && source@ == alias_error(alias@)),
        alias_valid(alias@) && !removed ==> (r matches Err(Error::UnknownAlias { alias: a }) && a@ == alias@),
        alias_valid(alias@) && removed ==> r is Ok,
{
    match parse_alias(alias) {
        Err(e) => Err(Error::InvalidSpec { source: e }),
        Ok(()) => {
            if removed {
                Ok(())
            } else {
                Err(Error::UnknownAlias { alias: string_of(&chars_of(alias)) })
            }
        },
    }
}


/// semver's diagnostic for a version requirement it rejects, `None` when
/// it accepts the text.
pub uninterp spec fn version_req_error(text: Seq<char>) -> Option<Seq<char>>;

/// `semver::VersionReq::from_str(text)`, giving nothing on success or the
/// error's text.
#[verifier::external_body]
fn version_req_check(text: &str) -> (r: Result<(), String>)
    ensures
        match r {
            Ok(()) => version_req_error(text@).is_none(),
            Err(e) => version_req_error(text@) == Some(e@),
        },
{
    match text.parse::<semver::VersionReq>() {
        Ok(_) => Ok(()),
        Err(e) => Err(e.to_string()),
    }
}

/// The version requirement of a registry `add`: none means any version;
/// a requirement semver rejects is a usage error carrying its diagnostic.
pub fn check_version_req(v: Option<&str>) -> (r: Result<(), Error>)
    ensures
        match v {
            None => r is Ok,
            Some(t) => match version_req_error(t@) {
                None => r is Ok,
                Some(msg) => r matches Err(Error::InvalidSpec { source }) && source@ == msg,
            },
        },
{
    match v {
        None => Ok(()),
        Some(t) => match version_req_check(t) {
            Ok(()) => Ok(()),
            Err(e) => Err(Error::InvalidSpec { source: e }),
        },
    }
}

/// The entry a registry dependency is recorded as: its name, a caret
/// requirement on the resolved version, and the resolved target only
/// when it differs from the project's.
pub fn registry_entry(name: &str, version: &str, resolved_target: &str, project_target: &str) -> (e: DependencyEntry)
    ensures
        e matches DependencyEntry::Pesde { name: n, version: v, target: t, index: i } && n@ == name@
            && v@ == seq!['^'] + version@ && i is None && (if resolved_target@ == project_target@ {
            t is None
        } else {
            t matches Some(x) && x@ == resolved_target@
        }),
{
    let mut v = String::new();
    v.push('^');
    push_str_chars(&mut v, version);
    let target = if text_eq(resolved_target, project_target) {
        None
    } else {
        Some(string_of(&chars_of(resolved_target)))
    };
    DependencyEntry::Pesde { name: string_of(&chars_of(name)), version: v, target, index: None }
}

/// The entry a git dependency is recorded as: the repository, the given
/// revision or `HEAD`, and the optional subdirectory.
pub fn git_entry(repo: &str, rev: Option<&str>, path: Option<&str>) -> (e: DependencyEntry)
    ensures
        e matches DependencyEntry::Git { repo: r, rev: v, path: p } && r@ == repo@ && v@ == (match rev {
            Some(x) => x@,
            None => "HEAD"@,
        }) && (match path {
            Some(x) => p matches Some(q) && q@ == x@,
            None => p is None,
        }),
{
    proof {
        reveal_strlit("HEAD");
    }
    let v = match rev {
        Some(x) => string_of(&chars_of(x)),
        None => "HEAD".to_string(),
    };
    let p = match path {
        Some(x) => Some(string_of(&chars_of(x))),
        None => None,
    };
    DependencyEntry::Git { repo: string_of(&chars_of(repo)), rev: v, path: p }
}

/// Only `luau` projects are managed: any other target environment (as
/// Pesde names it) is refused, naming it.
pub fn luau_target_gate(kind: &str) -> (r: Result<(), Error>)
    ensures
        kind@ == "luau"@ ==> r is Ok,
        kind@ != "luau"@ ==> (r matches Err(Error::UnsupportedTarget { found }) && found@ == kind@),
{
    if text_eq(kind, "luau") {
        Ok(())
    } else {
        Err(Error::UnsupportedTarget { found: string_of(&chars_of(kind)) })
    }
}


/// The error text when a manifest has an `[indices]` table without the
/// default index.
pub open spec fn missing_default_index_text() -> Seq<char> {
    "no index named `default` (add an [indices] entry or remove the empty one)"@
}

/// Which index a registry `add` resolves against: with no `[indices]`
/// table, ptah's default index (`None`); with one, the URL it gives the
/// default index, whose absence is a manifest error.
pub fn index_choice(has_indices: bool, default_url: Option<&str>) -> (r: Result<Option<String>, Error>)
    ensures
        !has_indices ==> r matches Ok(None),
        has_indices ==> match default_url {
            Some(u) => r matches Ok(Some(x)) && x@ == u@,
            None => r matches Err(Error::ManifestEdit { source }) && source@ == missing_default_index_text(),
        },
{
    if !has_indices {
        return Ok(None);
    }
    match default_url {
        Some(u) => Ok(Some(string_of(&chars_of(u)))),
        None => {
            proof {
                reveal_strlit("no index named `");
                reveal_strlit("` (add an [indices] entry or remove the empty one)");
                reveal_strlit("default");
                reveal_strlit("no index named `default` (add an [indices] entry or remove the empty one)");
            }
            let mut s = String::new();
            push_str_chars(&mut s, "no index named `");
            let name = default_index_name();
            push_str_chars(&mut s, name.as_str());
            push_str_chars(&mut s, "` (add an [indices] entry or remove the empty one)");
            assert(s@ =~= missing_default_index_text());
            Err(Error::ManifestEdit { source: s })
        },
    }
}

} // verus!
