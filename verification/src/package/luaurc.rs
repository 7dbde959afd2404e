//! `.luaurc` synchronization: the project-root alias configuration is a
//! derived artifact of the package manifest.
//!
//! Package commands that change the installed dependency set recompute the
//! alias map (`<alias> -> ./.ptah/luau_packages/<alias>`) and sync it into
//! `<project>/.luaurc`: created when absent, otherwise modified in place —
//! only entries whose values point into the project's `luau_packages/` are
//! ptah-owned and replaced or removed; every other key (inside and outside
//! `aliases`) survives untouched. A user alias colliding with a package
//! alias is reported and the user's entry wins.
//!
//! This module decides the sync: from what the existing file holds and the
//! desired alias map it computes the report and the edits to apply to the
//! file's `aliases` object.

use vstd::prelude::*;

use crate::package::error::Error;
use crate::paths::{components, is_absolute, normal_components, normalize_components, path_is_absolute};
use crate::text::{chars_of, push_str_chars, string_of, text_eq};

verus! {

/// What one sync did, for the CLI's diagnostics.
#[derive(Debug)]
pub struct LuaurcSync {
    /// The file was created (it did not exist).
    pub created: bool,
    /// The file was rewritten (entries added, updated, or removed).
    pub updated: bool,
    /// Aliases where a user-owned entry shadowed the package alias —
    /// reported as diagnostics; the user's entry stays untouched.
    pub collisions: Vec<String>,
}

/// One entry of an existing `aliases` object: its name and, when the value
/// is a JSON string, that string (`None` for any other JSON value).
#[derive(Debug)]
pub struct AliasEntry {
    pub name: String,
    pub value: Option<String>,
}

/// What the existing `.luaurc` holds, as far as the sync reads it.
#[derive(Debug)]
pub enum LuaurcState {
    /// There is no file.
    Absent,
    /// The file exists but could not be read; the read error's text.
    Unreadable(String),
    /// The text is not JSON; the parser's message.
    NotJson(String),
    /// The top-level value is not an object.
    NotObject,
    /// `aliases` exists and is not an object.
    AliasesNotObject,
    /// The entries of the `aliases` object (empty when the key is absent).
    Aliases(Vec<AliasEntry>),
}

/// An edit of the `aliases` object (created on the first `Assign` when the
/// key is absent).
#[derive(Debug)]
pub enum AliasEdit {
    Remove { name: String },
    Assign { name: String, target: String },
}

/// The outcome of a sync decision: the report and the edits that bring
/// the file to the synced state (none when nothing changes).
#[derive(Debug)]
pub struct LuaurcPlan {
    pub report: LuaurcSync,
    pub edits: Vec<AliasEdit>,
}

/// The text contains a URL scheme separator `://`.
pub open spec fn has_scheme(v: Seq<char>) -> bool {
    exists|i: int| #![trigger v[i]] 0 <= i && i + 2 < v.len() && v[i] == ':' && v[i + 1] == '/' && v[i + 2] == '/'
}

/// An alias target resolves inside `<root>/.ptah/luau_packages/`: a
/// relative, scheme-less path whose normalized components start with
/// `.ptah`, `luau_packages` and name something below it.
pub open spec fn into_luau_packages(v: Seq<char>) -> bool {
    let segs = normalize_components(components(v));
    &&& !is_absolute(v)
    &&& !has_scheme(v)
    &&& segs.len() > 2
    &&& segs[0] == ".ptah"@
    &&& segs[1] == "luau_packages"@
}

/// An entry value is ptah-owned: a string pointing into `luau_packages/`.
pub open spec fn ptah_owned(value: Option<Seq<char>>) -> bool {
    value matches Some(v) && into_luau_packages(v)
}

/// Does `value` (an alias target string) resolve inside
/// `<root>/.ptah/luau_packages/`? A pure lexical check, mirroring how the
/// runtime anchors `./` targets at the config directory.
pub fn looks_into_luau_packages(value: &str) -> (b: bool)
    ensures
        b == into_luau_packages(value@),
{
    proof {
        reveal_strlit(".ptah");
        reveal_strlit("luau_packages");
    }
    if path_is_absolute(value) {
        return false;
    }
    let v = chars_of(value);
    let mut i: usize = 0;
    while i < v.len() && v.len() - i > 2
        invariant
            i <= v.len(),
            v@ == value@,
            forall|j: int| #![trigger v@[j]] 0 <= j < i && j + 2 < v@.len() ==> !(v@[j] == ':' && v@[j + 1] == '/' && v@[j + 2] == '/'),
        decreases v.len() - i,
    {
        if v[i] == ':' && v[i + 1] == '/' && v[i + 2] == '/' {
            return false;
        }
        i += 1;
    }
    let segs = normal_components(value);
    let ghost sv = segs@.map_values(|s: String| s@);
    if segs.len() <= 2 {
        return false;
    }
    assert(segs@[0]@ == sv[0] && segs@[1]@ == sv[1]);
    text_eq(segs[0].as_str(), ".ptah") && text_eq(segs[1].as_str(), "luau_packages")
}

/// Whether an existing entry's value is ptah-owned.
pub fn is_ptah_owned(value: &Option<String>) -> (b: bool)
    ensures
        b == ptah_owned(crate::text::opt_string_view(*value)),
{
    match value {
        Some(v) => looks_into_luau_packages(v.as_str()),
        None => false,
    }
}

/// The view of an entry's value.
pub open spec fn value_view(e: AliasEntry) -> Option<Seq<char>> {
    crate::text::opt_string_view(e.value)
}

/// The `aliases` object as a map from name to value.
pub open spec fn entries_map(es: Seq<AliasEntry>) -> Map<Seq<char>, Option<Seq<char>>>
    decreases es.len(),
{
    if es.len() == 0 {
        Map::empty()
    } else {
        entries_map(es.drop_last()).insert(es.last().name@, value_view(es.last()))
    }
}

/// The desired alias map from name to target.
pub open spec fn desired_map(ds: Seq<(String, String)>) -> Map<Seq<char>, Seq<char>>
    decreases ds.len(),
{
    if ds.len() == 0 {
        Map::empty()
    } else {
        desired_map(ds.drop_last()).insert(ds.last().0@, ds.last().1@)
    }
}

/// No two entries share a name (a JSON object's keys are unique).
pub open spec fn entry_names_distinct(es: Seq<AliasEntry>) -> bool {
    forall|i: int, j: int| 0 <= i < j < es.len() ==> #[trigger] es[i].name@ != #[trigger] es[j].name@
}

/// No two desired aliases share a name (they come from a map).
pub open spec fn desired_names_distinct(ds: Seq<(String, String)>) -> bool {
    forall|i: int, j: int| 0 <= i < j < ds.len() ==> #[trigger] ds[i].0@ != #[trigger] ds[j].0@
}

/// An entry the user owns: present with a value that is not ptah-owned.
pub open spec fn user_owned(e: Map<Seq<char>, Option<Seq<char>>>, n: Seq<char>) -> bool {
    e.contains_key(n) && !ptah_owned(e[n])
}

/// The synced `aliases` object: user-owned entries stay as they are;
/// every other desired alias maps to its target; ptah-owned entries no
/// longer desired are gone.
pub open spec fn synced(e: Map<Seq<char>, Option<Seq<char>>>, d: Map<Seq<char>, Seq<char>>) -> Map<
    Seq<char>,
    Option<Seq<char>>,
> {
    Map::new(
        |n: Seq<char>| user_owned(e, n) || d.contains_key(n),
        |n: Seq<char>|
            if user_owned(e, n) {
                e[n]
            } else {
                Some(d[n])
            },
    )
}

/// Whether the sync changes the `aliases` object: a ptah-owned entry is
/// stale, or a desired alias is missing or carries another ptah-owned
/// value.
pub open spec fn sync_changes(e: Map<Seq<char>, Option<Seq<char>>>, d: Map<Seq<char>, Seq<char>>) -> bool {
    ||| exists|n: Seq<char>| #[trigger] e.contains_key(n) && ptah_owned(e[n]) && !d.contains_key(n)
    ||| exists|n: Seq<char>|
        #[trigger] d.contains_key(n) && (!e.contains_key(n) || (ptah_owned(e[n]) && e[n] != Some(
            d[n],
        )))
}

/// The desired aliases (in their order) that a user-owned entry shadows.
pub open spec fn collisions_of(e: Map<Seq<char>, Option<Seq<char>>>, ds: Seq<(String, String)>) -> Seq<
    Seq<char>,
>
    decreases ds.len(),
{
    if ds.len() == 0 {
        Seq::empty()
    } else {
        let init = collisions_of(e, ds.drop_last());
        if user_owned(e, ds.last().0@) {
            init.push(ds.last().0@)
        } else {
            init
        }
    }
}

/// One edit applied to the `aliases` object.
pub open spec fn apply_edit(m: Map<Seq<char>, Option<Seq<char>>>, edit: AliasEdit) -> Map<
    Seq<char>,
    Option<Seq<char>>,
> {
    match edit {
        AliasEdit::Remove { name } => m.remove(name@),
        AliasEdit::Assign { name, target } => m.insert(name@, Some(target@)),
    }
}

/// Edits applied in order.
pub open spec fn apply_edits(m: Map<Seq<char>, Option<Seq<char>>>, edits: Seq<AliasEdit>) -> Map<
    Seq<char>,
    Option<Seq<char>>,
>
    decreases edits.len(),
{
    if edits.len() == 0 {
        m
    } else {
        apply_edit(apply_edits(m, edits.drop_last()), edits.last())
    }
}

/// The diagnostic for each way an existing file cannot be synced.
pub open spec fn state_error(path: Seq<char>, state: LuaurcState) -> Option<Seq<char>> {
    match state {
        LuaurcState::Unreadable(e) => Some("cannot read "@ + path + ": "@ + e@),
        LuaurcState::NotJson(e) => Some(
            path + " is not valid JSON (.luaurc is a JSON file; fix or remove it): "@ + e@,
        ),
        LuaurcState::NotObject => Some(path + " must be a JSON object at the top level"@),
        LuaurcState::AliasesNotObject => Some(
            path + ": `aliases` must be a JSON object of name -> path"@,
        ),
        _ => None,
    }
}

proof fn lemma_entries_map(es: Seq<AliasEntry>)
    requires
        entry_names_distinct(es),
    ensures
        forall|j: int|
            0 <= j < es.len() ==> entries_map(es).contains_key(#[trigger] es[j].name@)
                && entries_map(es)[es[j].name@] == value_view(es[j]),
        forall|n: Seq<char>|
            #[trigger] entries_map(es).contains_key(n) ==> exists|j: int|
                0 <= j < es.len() && #[trigger] es[j].name@ == n,
    decreases es.len(),
{
    if es.len() > 0 {
        let init = es.drop_last();
        assert(entry_names_distinct(init)) by {
            assert forall|i: int, j: int| 0 <= i < j < init.len() implies #[trigger] init[i].name@
                != #[trigger] init[j].name@ by {
                assert(init[i] == es[i] && init[j] == es[j]);
            }
        }
        lemma_entries_map(init);
        assert forall|j: int| 0 <= j < es.len() implies entries_map(es).contains_key(
            #[trigger] es[j].name@,
        ) && entries_map(es)[es[j].name@] == value_view(es[j]) by {
            if j < es.len() - 1 {
                assert(init[j] == es[j]);
                assert(es[j].name@ != es[es.len() - 1].name@);
            }
        }
        assert forall|n: Seq<char>| #[trigger] entries_map(es).contains_key(n) implies exists|j: int|
            0 <= j < es.len() && #[trigger] es[j].name@ == n by {
            if n != es.last().name@ {
                assert(entries_map(init).contains_key(n));
                let j = choose|j: int| 0 <= j < init.len() && #[trigger] init[j].name@ == n;
                assert(es[j] == init[j]);
            } else {
                assert(es[es.len() - 1].name@ == n);
            }
        }
    }
}

pub proof fn lemma_desired_map(ds: Seq<(String, String)>)
    requires
        desired_names_distinct(ds),
    ensures
        forall|j: int|
            0 <= j < ds.len() ==> desired_map(ds).contains_key(#[trigger] ds[j].0@)
                && desired_map(ds)[ds[j].0@] == ds[j].1@,
        forall|n: Seq<char>|
            #[trigger] desired_map(ds).contains_key(n) ==> exists|j: int|
                0 <= j < ds.len() && #[trigger] ds[j].0@ == n,
    decreases ds.len(),
{
    if ds.len() > 0 {
        let init = ds.drop_last();
        assert(desired_names_distinct(init)) by {
            assert forall|i: int, j: int| 0 <= i < j < init.len() implies #[trigger] init[i].0@
                != #[trigger] init[j].0@ by {
                assert(init[i] == ds[i] && init[j] == ds[j]);
            }
        }
        lemma_desired_map(init);
        assert forall|j: int| 0 <= j < ds.len() implies desired_map(ds).contains_key(
            #[trigger] ds[j].0@,
        ) && desired_map(ds)[ds[j].0@] == ds[j].1@ by {
            if j < ds.len() - 1 {
                assert(init[j] == ds[j]);
                assert(ds[j].0@ != ds[ds.len() - 1].0@);
            }
        }
        assert forall|n: Seq<char>| #[trigger] desired_map(ds).contains_key(n) implies exists|j: int|
            0 <= j < ds.len() && #[trigger] ds[j].0@ == n by {
            if n != ds.last().0@ {
                assert(desired_map(init).contains_key(n));
                let j = choose|j: int| 0 <= j < init.len() && #[trigger] init[j].0@ == n;
                assert(ds[j] == init[j]);
            } else {
                assert(ds[ds.len() - 1].0@ == n);
            }
        }
    }
}

/// Find a desired alias by name.
fn find_desired(desired: &Vec<(String, String)>, name: &str) -> (r: Option<usize>)
    ensures
        match r {
            Some(j) => j < desired@.len() && desired@[j as int].0@ == name@,
            None => forall|j: int| 0 <= j < desired@.len() ==> #[trigger] desired@[j].0@ != name@,
        },
{
    let mut j: usize = 0;
    while j < desired.len()
        invariant
            j <= desired.len(),
            forall|k: int| 0 <= k < j ==> #[trigger] desired@[k].0@ != name@,
        decreases desired.len() - j,
    {
        if text_eq(desired[j].0.as_str(), name) {
            return Some(j);
        }
        j += 1;
    }
    None
}

/// Find an existing entry by name.
fn find_entry(entries: &Vec<AliasEntry>, name: &str) -> (r: Option<usize>)
    ensures
        match r {
            Some(j) => j < entries@.len() && entries@[j as int].name@ == name@,
            None => forall|j: int| 0 <= j < entries@.len() ==> #[trigger] entries@[j].name@ != name@,
        },
{
    let mut j: usize = 0;
    while j < entries.len()
        invariant
            j <= entries.len(),
            forall|k: int| 0 <= k < j ==> #[trigger] entries@[k].name@ != name@,
        decreases entries.len() - j,
    {
        if text_eq(entries[j].name.as_str(), name) {
            return Some(j);
        }
        j += 1;
    }
    None
}

fn copy_text(s: &String) -> (r: String)
    ensures
        r@ == s@,
{
    string_of(&chars_of(s.as_str()))
}

fn opt_text_eq(a: &Option<String>, b: &str) -> (r: bool)
    ensures
        r == (crate::text::opt_string_view(*a) == Some(b@)),
{
    match a {
        Some(s) => text_eq(s.as_str(), b),
        None => false,
    }
}

fn sync_error(path: &str, what: &str, e: Option<&String>) -> (err: Error)
    ensures
        err == (Error::LuaurcSync {
            source: err->LuaurcSync_source,
        }),
        err->LuaurcSync_source@ == match e {
            Some(x) => path@ + what@ + x@,
            None => path@ + what@,
        },
{
    let mut s = String::new();
    push_str_chars(&mut s, path);
    push_str_chars(&mut s, what);
    match e {
        Some(x) => push_str_chars(&mut s, x.as_str()),
        None => {},
    }
    Error::LuaurcSync { source: s }
}

/// Decide the sync of the root `.luaurc` at `path` (named in diagnostics)
/// for the desired alias map (alias → linker-module path, each alias
/// once). An absent file is created with exactly the desired aliases; an
/// existing `aliases` object is brought to the synced state; a file that
/// cannot be read or is not the expected JSON shape is an error naming it.
pub fn plan_sync(path: &str, state: LuaurcState, desired: &Vec<(String, String)>) -> (r: Result<
    LuaurcPlan,
    Error,
>)
    requires
        desired_names_distinct(desired@),
        state matches LuaurcState::Aliases(es) ==> entry_names_distinct(es@),
    ensures
        match state {
            LuaurcState::Absent => r matches Ok(plan) && {
                &&& plan.report.created
                &&& plan.report.updated
                &&& plan.report.collisions@.len() == 0
                &&& apply_edits(Map::empty(), plan.edits@) == synced(
                    Map::empty(),
                    desired_map(desired@),
                )
            },
            LuaurcState::Aliases(es) => r matches Ok(plan) && {
                let e = entries_map(es@);
                let d = desired_map(desired@);
                &&& !plan.report.created
                &&& plan.report.updated == sync_changes(e, d)
                &&& plan.report.collisions@.map_values(|s: String| s@) == collisions_of(
                    e,
                    desired@,
                )
                &&& apply_edits(e, plan.edits@) == synced(e, d)
                &&& (plan.edits@.len() == 0 <==> !plan.report.updated)
            },
            _ => r matches Err(err) && err is LuaurcSync && Some(err->LuaurcSync_source@)
                == state_error(path@, state),
        },
{
    proof {
        lemma_desired_map(desired@);
    }
    match state {
        LuaurcState::Absent => {
            let mut edits: Vec<AliasEdit> = Vec::new();
            let mut i: usize = 0;
            while i < desired.len()
                invariant
                    i <= desired.len(),
                    desired_names_distinct(desired@),
                    forall|j: int|
                        0 <= j < desired@.len() ==> desired_map(desired@).contains_key(
                            #[trigger] desired@[j].0@,
                        ) && desired_map(desired@)[desired@[j].0@] == desired@[j].1@,
                    forall|n: Seq<char>|
                        #[trigger] desired_map(desired@).contains_key(n) ==> exists|j: int|
                            0 <= j < desired@.len() && #[trigger] desired@[j].0@ == n,
                    apply_edits(Map::empty(), edits@) == Map::new(
                        |n: Seq<char>| exists|j: int| 0 <= j < i && #[trigger] desired@[j].0@ == n,
                        |n: Seq<char>| Some(desired_map(desired@)[n]),
                    ),
                decreases desired.len() - i,
            {
                let edit = AliasEdit::Assign {
                    name: copy_text(&desired[i].0),
                    target: copy_text(&desired[i].1),
                };
                let ghost before = edits@;
                edits.push(edit);
                proof {
                    assert(edits@.drop_last() =~= before);
                    let m = apply_edits(Map::empty(), edits@);
                    let want = Map::new(
                        |n: Seq<char>| exists|j: int| 0 <= j < i + 1 && #[trigger] desired@[j].0@ == n,
                        |n: Seq<char>| Some(desired_map(desired@)[n]),
                    );
                    assert forall|n: Seq<char>| #[trigger] m.contains_key(n) == want.contains_key(n) by {
                        if n == desired@[i as int].0@ {
                            assert(desired@[i as int].0@ == n);
                        } else if m.contains_key(n) {
                            let j = choose|j: int| 0 <= j < i && #[trigger] desired@[j].0@ == n;
                            assert(desired@[j].0@ == n);
                        } else if want.contains_key(n) {
                            let j = choose|j: int| 0 <= j < i + 1 && #[trigger] desired@[j].0@ == n;
                            assert(j != i);
                            assert(desired@[j].0@ == n);
                        }
                    }
                    assert(m =~= want);
                }
                i += 1;
            }
            proof {
                let m = apply_edits(Map::empty(), edits@);
                let s = synced(Map::empty(), desired_map(desired@));
                assert forall|n: Seq<char>| #[trigger] m.contains_key(n) == s.contains_key(n) by {
                    if m.contains_key(n) {
                        let j = choose|j: int| 0 <= j < desired@.len() && #[trigger] desired@[j].0@ == n;
                        assert(desired_map(desired@).contains_key(desired@[j].0@));
                    }
                    if s.contains_key(n) {
                        assert(desired_map(desired@).contains_key(n));
                        let j = choose|j: int| 0 <= j < desired@.len() && #[trigger] desired@[j].0@ == n;
                        assert(desired@[j].0@ == n);
                    }
                }
                assert(m =~= s);
            }
            Ok(
                LuaurcPlan {
                    report: LuaurcSync { created: true, updated: true, collisions: Vec::new() },
                    edits,
                },
            )
        },
        LuaurcState::Unreadable(e) => {
            proof {
                reveal_strlit("cannot read ");
                reveal_strlit(": ");
            }
            let mut s = String::new();
            push_str_chars(&mut s, "cannot read ");
            push_str_chars(&mut s, path);
            push_str_chars(&mut s, ": ");
            push_str_chars(&mut s, e.as_str());
            Err(Error::LuaurcSync { source: s })
        },
        LuaurcState::NotJson(e) => Err(
            sync_error(path, " is not valid JSON (.luaurc is a JSON file; fix or remove it): ", Some(&e)),
        ),
        LuaurcState::NotObject => Err(sync_error(path, " must be a JSON object at the top level", None)),
        LuaurcState::AliasesNotObject => Err(
            sync_error(path, ": `aliases` must be a JSON object of name -> path", None),
        ),
        LuaurcState::Aliases(entries) => Ok(plan_existing(&entries, desired)),
    }
}

/// One of the first `k` desired aliases is named `n`.
pub open spec fn named_in(ds: Seq<(String, String)>, k: int, n: Seq<char>) -> bool {
    exists|j: int| 0 <= j < k && #[trigger] ds[j].0@ == n
}

/// One of the first `k` entries is named `n`.
pub open spec fn entry_named_in(es: Seq<AliasEntry>, k: int, n: Seq<char>) -> bool {
    exists|j: int| 0 <= j < k && #[trigger] es[j].name@ == n
}

/// A ptah-owned entry no longer desired.
pub open spec fn stale(e: Map<Seq<char>, Option<Seq<char>>>, d: Map<Seq<char>, Seq<char>>, n: Seq<char>) -> bool {
    e.contains_key(n) && ptah_owned(e[n]) && !d.contains_key(n)
}

/// A desired alias that is missing or carries another ptah-owned value.
pub open spec fn desired_change(e: Map<Seq<char>, Option<Seq<char>>>, d: Map<Seq<char>, Seq<char>>, n: Seq<char>) -> bool {
    d.contains_key(n) && (!e.contains_key(n) || (ptah_owned(e[n]) && e[n] != Some(d[n])))
}

/// Sync decision over an existing `aliases` object: stale ptah-owned
/// entries are removed, then each desired alias is added, updated, or —
/// when a user entry holds its name — reported as a collision.
fn plan_existing(entries: &Vec<AliasEntry>, desired: &Vec<(String, String)>) -> (plan: LuaurcPlan)
    requires
        desired_names_distinct(desired@),
        entry_names_distinct(entries@),
    ensures
        ({
            let e = entries_map(entries@);
            let d = desired_map(desired@);
            &&& !plan.report.created
            &&& plan.report.updated == sync_changes(e, d)
            &&& plan.report.collisions@.map_values(|s: String| s@) == collisions_of(e, desired@)
            &&& apply_edits(e, plan.edits@) == synced(e, d)
            &&& (plan.edits@.len() == 0 <==> !plan.report.updated)
        }),
{
    proof {
        lemma_entries_map(entries@);
        lemma_desired_map(desired@);
    }
    let ghost e = entries_map(entries@);
    let ghost d = desired_map(desired@);
    let mut edits: Vec<AliasEdit> = Vec::new();
    let mut updated = false;
    // Remove ptah-owned entries for aliases no longer desired.
    let mut i: usize = 0;
    assert(apply_edits(e, edits@) =~= Map::new(
        |n: Seq<char>| e.contains_key(n) && !(stale(e, d, n) && entry_named_in(entries@, 0, n)),
        |n: Seq<char>| e[n],
    ));
    while i < entries.len()
        invariant
            i <= entries.len(),
            desired_names_distinct(desired@),
            entry_names_distinct(entries@),
            e == entries_map(entries@),
            d == desired_map(desired@),
            apply_edits(e, edits@) == Map::new(
                |n: Seq<char>| e.contains_key(n) && !(stale(e, d, n) && entry_named_in(entries@, i as int, n)),
                |n: Seq<char>| e[n],
            ),
            updated == exists|j: int| 0 <= j < i && stale(e, d, #[trigger] entries@[j].name@),
            updated == (edits@.len() > 0),
        decreases entries.len() - i,
    {
        proof {
            lemma_entries_map(entries@);
            lemma_desired_map(desired@);
        }
        let name = entries[i].name.as_str();
        assert(value_view(entries@[i as int]) == e[name@]);
        let owned = is_ptah_owned(&entries[i].value);
        let found = find_desired(desired, name);
        let ghost m = apply_edits(e, edits@);
        if owned && found.is_none() {
            assert(!d.contains_key(name@)) by {
                if d.contains_key(name@) {
                    let j = choose|j: int| 0 <= j < desired@.len() && #[trigger] desired@[j].0@ == name@;
                    assert(desired@[j].0@ != name@);
                }
            }
            assert(stale(e, d, name@));
            let edit = AliasEdit::Remove { name: copy_text(&entries[i].name) };
            let ghost before = edits@;
            edits.push(edit);
            updated = true;
            proof {
                assert(edits@.drop_last() =~= before);
                let want = Map::new(
                    |n: Seq<char>| e.contains_key(n) && !(stale(e, d, n) && entry_named_in(entries@, i + 1, n)),
                    |n: Seq<char>| e[n],
                );
                assert forall|n: Seq<char>| #[trigger] m.remove(name@).contains_key(n) == want.contains_key(n) by {
                    if n == name@ {
                        assert(entries@[i as int].name@ == n);
                    } else {
                        if exists|j: int| 0 <= j < i + 1 && #[trigger] entries@[j].name@ == n {
                            let j = choose|j: int| 0 <= j < i + 1 && #[trigger] entries@[j].name@ == n;
                            assert(j != i);
                            assert(entries@[j].name@ == n);
                        }
                        if exists|j: int| 0 <= j < i && #[trigger] entries@[j].name@ == n {
                            let j = choose|j: int| 0 <= j < i && #[trigger] entries@[j].name@ == n;
                            assert(entries@[j].name@ == n);
                        }
                    }
                }
                assert(m.remove(name@) =~= want);
                assert(exists|j: int| 0 <= j < i + 1 && stale(e, d, #[trigger] entries@[j].name@)) by {
                    assert(stale(e, d, entries@[i as int].name@));
                }
            }
        } else {
            proof {
                if owned {
                    let j = found.unwrap() as int;
                    assert(desired@[j].0@ == name@);
                    assert(d.contains_key(name@));
                }
                assert(!stale(e, d, name@));
                let want = Map::new(
                    |n: Seq<char>| e.contains_key(n) && !(stale(e, d, n) && entry_named_in(entries@, i + 1, n)),
                    |n: Seq<char>| e[n],
                );
                assert forall|n: Seq<char>| #[trigger] m.contains_key(n) == want.contains_key(n) by {
                    if n != name@ {
                        if exists|j: int| 0 <= j < i + 1 && #[trigger] entries@[j].name@ == n {
                            let j = choose|j: int| 0 <= j < i + 1 && #[trigger] entries@[j].name@ == n;
                            assert(j != i);
                            assert(entries@[j].name@ == n);
                        }
                        if exists|j: int| 0 <= j < i && #[trigger] entries@[j].name@ == n {
                            let j = choose|j: int| 0 <= j < i && #[trigger] entries@[j].name@ == n;
                            assert(entries@[j].name@ == n);
                        }
                    }
                }
                assert(m =~= want);
                if exists|j: int| 0 <= j < i + 1 && stale(e, d, #[trigger] entries@[j].name@) {
                    let j = choose|j: int| 0 <= j < i + 1 && stale(e, d, #[trigger] entries@[j].name@);
                    assert(j != i);
                }
            }
        }
        i += 1;
    }
    let ghost removed = apply_edits(e, edits@);
    proof {
        let want = Map::new(
            |n: Seq<char>| e.contains_key(n) && !stale(e, d, n),
            |n: Seq<char>| e[n],
        );
        assert forall|n: Seq<char>| #[trigger] removed.contains_key(n) == want.contains_key(n) by {
            if e.contains_key(n) {
                let j = choose|j: int| 0 <= j < entries@.len() && #[trigger] entries@[j].name@ == n;
                assert(entries@[j].name@ == n);
            }
        }
        assert(removed =~= want);
    }
    let ghost stale_any = updated;
    // Add or update the desired aliases; user-owned entries win.
    let mut collisions: Vec<String> = Vec::new();
    let mut k: usize = 0;
    assert(collisions_of(e, desired@.take(0)) =~= Seq::<Seq<char>>::empty());
    assert(collisions@.map_values(|s: String| s@) =~= Seq::<Seq<char>>::empty());
    assert(apply_edits(e, edits@) =~= Map::new(
        |n: Seq<char>| (e.contains_key(n) && !stale(e, d, n)) || (named_in(desired@, 0, n) && !user_owned(e, n)),
        |n: Seq<char>| if named_in(desired@, 0, n) && !user_owned(e, n) { Some(d[n]) } else { e[n] },
    ));
    while k < desired.len()
        invariant
            k <= desired.len(),
            desired_names_distinct(desired@),
            entry_names_distinct(entries@),
            e == entries_map(entries@),
            d == desired_map(desired@),
            stale_any == exists|j: int| 0 <= j < entries@.len() && stale(e, d, #[trigger] entries@[j].name@),
            apply_edits(e, edits@) == Map::new(
                |n: Seq<char>| (e.contains_key(n) && !stale(e, d, n)) || (named_in(desired@, k as int, n) && !user_owned(e, n)),
                |n: Seq<char>| if named_in(desired@, k as int, n) && !user_owned(e, n) { Some(d[n]) } else { e[n] },
            ),
            updated == (stale_any || exists|j: int| 0 <= j < k && desired_change(e, d, #[trigger] desired@[j].0@)),
            updated == (edits@.len() > 0),
            collisions@.map_values(|s: String| s@) == collisions_of(e, desired@.take(k as int)),
        decreases desired.len() - k,
    {
        proof {
            lemma_entries_map(entries@);
            lemma_desired_map(desired@);
        }
        let name = desired[k].0.as_str();
        let target = desired[k].1.as_str();
        assert(d.contains_key(name@) && d[name@] == target@);
        let ghost m = apply_edits(e, edits@);
        let ghost want = Map::new(
            |n: Seq<char>| (e.contains_key(n) && !stale(e, d, n)) || (named_in(desired@, k + 1, n) && !user_owned(e, n)),
            |n: Seq<char>| if named_in(desired@, k + 1, n) && !user_owned(e, n) { Some(d[n]) } else { e[n] },
        );
        proof {
            assert(desired@[k as int].0@ == name@);
            assert forall|n: Seq<char>| n != name@ implies
                named_in(desired@, k + 1, n) == named_in(desired@, k as int, n) by {
                if exists|j: int| 0 <= j < k + 1 && #[trigger] desired@[j].0@ == n {
                    let j = choose|j: int| 0 <= j < k + 1 && #[trigger] desired@[j].0@ == n;
                    assert(j != k);
                    assert(desired@[j].0@ == n);
                }
                if exists|j: int| 0 <= j < k && #[trigger] desired@[j].0@ == n {
                    let j = choose|j: int| 0 <= j < k && #[trigger] desired@[j].0@ == n;
                    assert(desired@[j].0@ == n);
                }
            }
            assert(desired@.take(k as int + 1).drop_last() =~= desired@.take(k as int));
            assert(desired@.take(k as int + 1).last() == desired@[k as int]);
        }
        let found = find_entry(entries, name);
        let ghost change_k = desired_change(e, d, name@);
        let mut set = false;
        match found {
            None => {
                assert(!e.contains_key(name@)) by {
                    if e.contains_key(name@) {
                        let j = choose|j: int| 0 <= j < entries@.len() && #[trigger] entries@[j].name@ == name@;
                        assert(entries@[j].name@ != name@);
                    }
                }
                set = true;
            },
            Some(x) => {
                assert(e[name@] == value_view(entries@[x as int]));
                if is_ptah_owned(&entries[x].value) {
                    if !opt_text_eq(&entries[x].value, target) {
                        set = true;
                    }
                } else {
                    let c = copy_text(&desired[k].0);
                    let ghost before = collisions@;
                    collisions.push(c);
                    proof {
                        crate::text::lemma_views_push(before, c);
                    }
                }
            },
        }
        proof {
            assert(set == change_k);
            assert(set ==> !user_owned(e, name@));
        }
        if set {
            let edit = AliasEdit::Assign { name: copy_text(&desired[k].0), target: copy_text(&desired[k].1) };
            let ghost before = edits@;
            edits.push(edit);
            updated = true;
            proof {
                assert(edits@.drop_last() =~= before);
                assert(apply_edits(e, edits@) == m.insert(name@, Some(target@)));
                assert forall|n: Seq<char>| #[trigger] m.insert(name@, Some(target@)).contains_key(n) == want.contains_key(n) by {}
                assert(m.insert(name@, Some(target@)) =~= want);
            }
        } else {
            proof {
                assert forall|n: Seq<char>| #[trigger] m.contains_key(n) == want.contains_key(n) by {}
                assert(m =~= want);
            }
        }
        proof {
            if exists|j: int| 0 <= j < k + 1 && desired_change(e, d, #[trigger] desired@[j].0@) {
                if !change_k {
                    let j = choose|j: int| 0 <= j < k + 1 && desired_change(e, d, #[trigger] desired@[j].0@);
                    assert(j != k);
                }
            }
            if change_k {
                assert(desired_change(e, d, desired@[k as int].0@));
            }
        }
        k += 1;
    }
    proof {
        lemma_entries_map(entries@);
        lemma_desired_map(desired@);
        let m = apply_edits(e, edits@);
        let s = synced(e, d);
        assert forall|n: Seq<char>| #[trigger] m.contains_key(n) == s.contains_key(n) by {
            if d.contains_key(n) {
                let j = choose|j: int| 0 <= j < desired@.len() && #[trigger] desired@[j].0@ == n;
                assert(desired@[j].0@ == n);
            }
            if exists|j: int| 0 <= j < desired@.len() && #[trigger] desired@[j].0@ == n {
                let j = choose|j: int| 0 <= j < desired@.len() && #[trigger] desired@[j].0@ == n;
                assert(d.contains_key(desired@[j].0@));
            }
        }
        assert forall|n: Seq<char>| #[trigger] m.contains_key(n) implies m[n] == s[n] by {
            if d.contains_key(n) {
                let j = choose|j: int| 0 <= j < desired@.len() && #[trigger] desired@[j].0@ == n;
                assert(desired@[j].0@ == n);
            }
            if exists|j: int| 0 <= j < desired@.len() && #[trigger] desired@[j].0@ == n {
                let j = choose|j: int| 0 <= j < desired@.len() && #[trigger] desired@[j].0@ == n;
                assert(d.contains_key(desired@[j].0@));
            }
        }
        assert(m =~= s);
        assert(desired@.take(desired@.len() as int) =~= desired@);
        // The report's flag is the spec's change condition.
        if sync_changes(e, d) {
            if exists|n: Seq<char>| #[trigger] e.contains_key(n) && ptah_owned(e[n]) && !d.contains_key(n) {
                let n = choose|n: Seq<char>| #[trigger] e.contains_key(n) && ptah_owned(e[n]) && !d.contains_key(n);
                let j = choose|j: int| 0 <= j < entries@.len() && #[trigger] entries@[j].name@ == n;
                assert(stale(e, d, entries@[j].name@));
            } else {
                let n = choose|n: Seq<char>| #[trigger] d.contains_key(n) && (!e.contains_key(n) || (ptah_owned(e[n]) && e[n] != Some(d[n])));
                let j = choose|j: int| 0 <= j < desired@.len() && #[trigger] desired@[j].0@ == n;
                assert(desired_change(e, d, desired@[j].0@));
            }
        }
        if updated {
            if stale_any {
                let j = choose|j: int| 0 <= j < entries@.len() && stale(e, d, #[trigger] entries@[j].name@);
                let n = entries@[j].name@;
                assert(e.contains_key(n) && ptah_owned(e[n]) && !d.contains_key(n));
            } else {
                let j = choose|j: int| 0 <= j < desired@.len() && desired_change(e, d, #[trigger] desired@[j].0@);
                let n = desired@[j].0@;
                assert(d.contains_key(n));
            }
        }
    }
    LuaurcPlan { report: LuaurcSync { created: false, updated, collisions }, edits }
}

/// Ownership follows the `luau_packages` folder. An existing entry whose
/// value is not a string, or whose normalized path does not continue
/// `.ptah/luau_packages/...` (its second component is not
/// `luau_packages`), is the user's: a sync keeps it as it is. An entry
/// whose value is a relative, scheme-less path normalizing to
/// `.ptah/luau_packages/<something>` is ptah's: when its alias is no
/// longer desired, a sync drops it.
pub proof fn sync_owns_only_luau_packages_entries(
    e: Map<Seq<char>, Option<Seq<char>>>,
    d: Map<Seq<char>, Seq<char>>,
    n: Seq<char>,
)
    ensures
        e.contains_key(n) && (match e[n] {
            None => true,
            Some(v) => {
                let segs = normalize_components(components(v));
                segs.len() < 2 || segs[1] != "luau_packages"@
            },
        }) ==> synced(e, d).contains_key(n) && synced(e, d)[n] == e[n],
        e.contains_key(n) && !d.contains_key(n) && (match e[n] {
            None => false,
            Some(v) => {
                let segs = normalize_components(components(v));
                &&& !is_absolute(v)
                &&& !has_scheme(v)
                &&& segs.len() > 2
                &&& segs[0] == ".ptah"@
                &&& segs[1] == "luau_packages"@
            },
        }) ==> !synced(e, d).contains_key(n),
{
}

/// A user-owned alias entry survives a sync with its value unchanged,
/// whatever the desired aliases are.
pub proof fn sync_keeps_user_entries(
    e: Map<Seq<char>, Option<Seq<char>>>,
    d: Map<Seq<char>, Seq<char>>,
    n: Seq<char>,
)
    requires
        user_owned(e, n),
    ensures
        synced(e, d).contains_key(n),
        synced(e, d)[n] == e[n],
{
}

/// After a sync every desired alias that no user entry holds maps to its
/// target, and no ptah-owned entry for an alias no longer desired remains.
pub proof fn sync_installs_desired_and_drops_stale(
    e: Map<Seq<char>, Option<Seq<char>>>,
    d: Map<Seq<char>, Seq<char>>,
    n: Seq<char>,
)
    ensures
        d.contains_key(n) && !user_owned(e, n) ==> synced(e, d).contains_key(n) && synced(e, d)[n]
            == Some(d[n]),
        stale(e, d, n) ==> !synced(e, d).contains_key(n),
        synced(e, d).contains_key(n) ==> user_owned(e, n) || d.contains_key(n),
{
}

/// The sync reports a rewrite exactly when it changes the `aliases`
/// object.
pub proof fn sync_rewrites_exactly_on_change(e: Map<Seq<char>, Option<Seq<char>>>, d: Map<Seq<char>, Seq<char>>)
    ensures
        sync_changes(e, d) <==> synced(e, d) != e,
{
    let s = synced(e, d);
    if sync_changes(e, d) {
        if exists|n: Seq<char>| #[trigger] e.contains_key(n) && ptah_owned(e[n]) && !d.contains_key(n) {
            let n = choose|n: Seq<char>| #[trigger] e.contains_key(n) && ptah_owned(e[n]) && !d.contains_key(n);
            assert(!s.contains_key(n));
        } else {
            let n = choose|n: Seq<char>|
                #[trigger] d.contains_key(n) && (!e.contains_key(n) || (ptah_owned(e[n]) && e[n] != Some(d[n])));
            assert(s.contains_key(n) && s[n] == Some(d[n]));
        }
    } else {
        assert forall|n: Seq<char>| #[trigger] s.contains_key(n) == e.contains_key(n) by {
            if e.contains_key(n) && ptah_owned(e[n]) {
                assert(d.contains_key(n));
            }
            if d.contains_key(n) {
                assert(e.contains_key(n));
            }
        }
        assert forall|n: Seq<char>| #[trigger] s.contains_key(n) implies s[n] == e[n] by {
            if !user_owned(e, n) {
                assert(d.contains_key(n));
            }
        }
        assert(s =~= e);
    }
}

/// Syncing is idempotent: a second sync with the same aliases leaves the
/// `aliases` object as the first left it and reports no rewrite.
pub proof fn sync_is_idempotent(e: Map<Seq<char>, Option<Seq<char>>>, d: Map<Seq<char>, Seq<char>>)
    ensures
        synced(synced(e, d), d) == synced(e, d),
        !sync_changes(synced(e, d), d),
{
    let s = synced(e, d);
    assert forall|n: Seq<char>| #[trigger] s.contains_key(n) && ptah_owned(s[n]) implies d.contains_key(n) by {}
    assert(!sync_changes(s, d)) by {
        assert forall|n: Seq<char>| #[trigger] d.contains_key(n) implies s.contains_key(n) && !(ptah_owned(s[n]) && s[n] != Some(d[n])) by {}
    }
    sync_rewrites_exactly_on_change(s, d);
}

} // verus!
