//! The manifest: the package name `ptah init` derives from a directory,
//! the skeleton it writes, and the dependency entries ptah records.
//!
//! Pesde's `Manifest` does not round-trip the `[indices]` table, so every
//! manifest write is a surgical edit of the text; this module decides what
//! those edits carry.

use vstd::prelude::*;

use crate::package::driver::{linker_module_path, linker_path};
use crate::package::error::Error;
use crate::package::luaurc::{desired_map, desired_names_distinct, named_in};
use crate::package::names::{name_char, name_part_valid, package_name_valid};
use crate::text::{chars_of, lemma_text_less_total, lemma_text_less_trans, push_str_chars, string_of, text_eq, text_less, text_lt};

verus! {

/// A character as a package-name segment keeps it: lowercase letters and
/// digits stay, uppercase letters are lowered, everything else is `_`.
pub open spec fn segment_char(c: char) -> char {
    if ('a' <= c && c <= 'z') || ('0' <= c && c <= '9') {
        c
    } else if 'A' <= c && c <= 'Z' {
        ((c as u32) + 32) as char
    } else {
        '_'
    }
}

/// Every character is an ASCII digit (true of the empty text).
pub open spec fn all_digits(s: Seq<char>) -> bool {
    forall|i: int| 0 <= i < s.len() ==> '0' <= #[trigger] s[i] && s[i] <= '9'
}

/// Leading `_` removed.
pub open spec fn trim_leading_underscores(s: Seq<char>) -> Seq<char>
    decreases s.len(),
{
    if s.len() > 0 && s[0] == '_' {
        trim_leading_underscores(s.drop_first())
    } else {
        s
    }
}

/// Trailing `_` removed.
pub open spec fn trim_trailing_underscores(s: Seq<char>) -> Seq<char>
    decreases s.len(),
{
    if s.len() > 0 && s.last() == '_' {
        trim_trailing_underscores(s.drop_last())
    } else {
        s
    }
}

/// The mapped name, truncated to 32 characters, with leading and trailing
/// underscores trimmed.
pub open spec fn trimmed_segment(mapped: Seq<char>) -> Seq<char> {
    let cut = if mapped.len() <= 32 {
        mapped
    } else {
        mapped.take(32)
    };
    trim_trailing_underscores(trim_leading_underscores(cut))
}

/// The package-name segment a directory name sanitizes to; `project` when
/// nothing valid survives or what survives is all digits.
pub open spec fn sanitized(dir_name: Seq<char>) -> Seq<char> {
    let mapped = dir_name.map_values(|c: char| segment_char(c));
    let t = trimmed_segment(mapped);
    if t.len() == 0 || all_digits(t) {
        "project"@
    } else {
        t
    }
}

proof fn lemma_all_digits_push(s: Seq<char>, c: char)
    ensures
        all_digits(s.push(c)) == (all_digits(s) && '0' <= c && c <= '9'),
{
    let t = s.push(c);
    if all_digits(s) && '0' <= c && c <= '9' {
        assert forall|i: int| 0 <= i < t.len() implies '0' <= #[trigger] t[i] && t[i] <= '9' by {
            if i < s.len() {
                assert(t[i] == s[i]);
            }
        }
    } else if !('0' <= c && c <= '9') {
        assert(t[s.len() as int] == c);
    } else {
        let j = choose|j: int| 0 <= j < s.len() && !('0' <= #[trigger] s[j] && s[j] <= '9');
        assert(t[j] == s[j]);
    }
}

proof fn lemma_trim_leading(s: Seq<char>)
    ensures
        trim_leading_underscores(s).len() <= s.len(),
        trim_leading_underscores(s).len() > 0 ==> trim_leading_underscores(s)[0] != '_',
        exists|k: int|
            0 <= k <= s.len() && trim_leading_underscores(s) == #[trigger] s.skip(k),
    decreases s.len(),
{
    if s.len() > 0 && s[0] == '_' {
        lemma_trim_leading(s.drop_first());
        let k = choose|k: int|
            0 <= k <= s.drop_first().len() && trim_leading_underscores(s.drop_first())
                == #[trigger] s.drop_first().skip(k);
        assert(s.drop_first().skip(k) =~= s.skip(k + 1));
    } else {
        assert(s.skip(0) =~= s);
    }
}

proof fn lemma_trim_trailing(s: Seq<char>)
    ensures
        trim_trailing_underscores(s).len() <= s.len(),
        trim_trailing_underscores(s).len() > 0 ==> trim_trailing_underscores(s).last() != '_',
        exists|k: int| 0 <= k <= s.len() && trim_trailing_underscores(s) == #[trigger] s.take(k),
        s.len() > 0 && s[0] != '_' ==> trim_trailing_underscores(s).len() == 0 || trim_trailing_underscores(s)[0] == s[0],
    decreases s.len(),
{
    if s.len() > 0 && s.last() == '_' {
        lemma_trim_trailing(s.drop_last());
        let k = choose|k: int|
            0 <= k <= s.drop_last().len() && trim_trailing_underscores(s.drop_last())
                == #[trigger] s.drop_last().take(k);
        assert(s.drop_last().take(k) =~= s.take(k));
    } else {
        assert(s.take(s.len() as int) =~= s);
    }
}

/// Sanitize a directory name into a valid Pesde package-name segment
/// (`[a-z0-9_]`, 1–32 chars, no leading/trailing underscore, not all
/// digits). Falls back to `project` when nothing valid survives (empty or
/// digits-only names).
pub fn sanitize_name_segment(dir_name: &str) -> (out: String)
    ensures
        out@ == sanitized(dir_name@),
{
    proof {
        reveal_strlit("project");
    }
    let src = chars_of(dir_name);
    let ghost mapped = dir_name@.map_values(|c: char| segment_char(c));
    let mut name: Vec<char> = Vec::new();
    let mut i: usize = 0;
    while i < src.len()
        invariant
            i <= src.len(),
            src@ == dir_name@,
            mapped == dir_name@.map_values(|c: char| segment_char(c)),
            name@ == mapped.take(i as int),
        decreases src.len() - i,
    {
        let c = src[i];
        let m = if ('a' <= c && c <= 'z') || ('0' <= c && c <= '9') {
            c
        } else if 'A' <= c && c <= 'Z' {
            let lowered = ((c as u32) + 32) as u8;
            lowered as char
        } else {
            '_'
        };
        assert(m == segment_char(c)) by {
            if 'A' <= c && c <= 'Z' {
                assert((((c as u32) + 32) as u8) as char == ((c as u32) + 32) as char);
            }
        }
        name.push(m);
        i += 1;
        assert(mapped.take(i as int) =~= mapped.take(i - 1).push(m));
    }
    assert(mapped.take(src.len() as int) =~= mapped);
    // Truncate to 32 characters (all are ASCII, so also 32 bytes).
    let end: usize = if name.len() <= 32 { name.len() } else { 32 };
    let ghost cut = if mapped.len() <= 32 { mapped } else { mapped.take(32) };
    assert(name@.take(end as int) =~= cut);
    assert(cut.skip(0) =~= cut);
    // Trim leading underscores.
    let mut lo: usize = 0;
    while lo < end && name[lo] == '_'
        invariant
            lo <= end <= name.len(),
            name@ == mapped,
            trim_leading_underscores(cut) == trim_leading_underscores(cut.skip(lo as int)),
            cut == name@.take(end as int),
        decreases end - lo,
    {
        assert(cut.skip(lo as int).drop_first() =~= cut.skip(lo + 1));
        lo += 1;
    }
    let ghost lead = cut.skip(lo as int);
    assert(trim_leading_underscores(lead) == lead);
    assert(lead =~= name@.subrange(lo as int, end as int));
    // Trim trailing underscores.
    let mut hi: usize = end;
    while hi > lo && name[hi - 1] == '_'
        invariant
            lo <= hi <= end <= name.len(),
            name@ == mapped,
            cut == name@.take(end as int),
            lead == cut.skip(lo as int),
            trim_trailing_underscores(lead) == trim_trailing_underscores(
                name@.subrange(lo as int, hi as int),
            ),
        decreases hi - lo,
    {
        assert(name@.subrange(lo as int, hi as int).drop_last() =~= name@.subrange(
            lo as int,
            hi - 1,
        ));
        hi -= 1;
    }
    assert(lead =~= name@.subrange(lo as int, end as int));
    let ghost t = name@.subrange(lo as int, hi as int);
    assert(trim_trailing_underscores(t) == t);
    assert(trimmed_segment(mapped) == t);
    let mut out_chars: Vec<char> = Vec::new();
    let mut digits_only = true;
    let mut j: usize = lo;
    while j < hi
        invariant
            lo <= j <= hi <= name.len(),
            out_chars@ == name@.subrange(lo as int, j as int),
            digits_only == all_digits(out_chars@),
        decreases hi - j,
    {
        let m = name[j];
        if !('0' <= m && m <= '9') {
            digits_only = false;
        }
        proof {
            lemma_all_digits_push(out_chars@, m);
        }
        out_chars.push(m);
        j += 1;
        assert(name@.subrange(lo as int, j as int) =~= name@.subrange(lo as int, j - 1).push(
            name@[j - 1],
        ));
    }
    if hi == lo || digits_only {
        return "project".to_string();
    }
    string_of(&out_chars)
}

/// The text before the package name in the skeleton.
pub open spec fn skeleton_head() -> Seq<char> {
    "# ptah package manifest (Pesde format; managed by `ptah package`).\n#\n# Dependencies live under [dependencies], keyed by the alias scripts\n# require them as (`require(\"@alias\")`). ptah edits only the\n# dependency tables \u{2014} everything else in this file is yours.\n#\n# Usually you add packages with commands, not by hand:\n#\n#   ptah package add <scope>/<name>          from the default registry\n#   ptah package add --git <url> --rev <rev> from a git repository\n#   ptah package add --path ../local-pkg     from a local directory\n#\n# The default registry index is supplied by ptah at resolve time; add\n# an [indices] table only to override it:\n#\n#   [indices]\n#   default = \"https://github.com/pesde-pkg/index\"\n\nname = \"components/"@
}

/// The text after the package name in the skeleton.
pub open spec fn skeleton_tail() -> Seq<char> {
    "\"\nversion = \"0.1.0\"\nprivate = true\n\n[target]\nenvironment = \"luau\"\n"@
}

/// The skeleton for a directory name.
pub open spec fn skeleton_text(dir_name: Seq<char>) -> Seq<char> {
    skeleton_head() + sanitized(dir_name) + skeleton_tail()
}

/// The `.ptah/pesde.toml` skeleton `ptah init` writes: a private package
/// named `components/<sanitized directory name>` targeting the `luau`
/// environment, with no dependencies and no `[indices]` table (ptah
/// supplies the default index at resolve time; the comments document how
/// to override it).
pub fn skeleton(dir_name: &str) -> (out: String)
    ensures
        out@ == skeleton_text(dir_name@),
{
    let mut out = String::new();
    push_str_chars(&mut out, "# ptah package manifest (Pesde format; managed by `ptah package`).\n#\n# Dependencies live under [dependencies], keyed by the alias scripts\n# require them as (`require(\"@alias\")`). ptah edits only the\n# dependency tables \u{2014} everything else in this file is yours.\n#\n# Usually you add packages with commands, not by hand:\n#\n#   ptah package add <scope>/<name>          from the default registry\n#   ptah package add --git <url> --rev <rev> from a git repository\n#   ptah package add --path ../local-pkg     from a local directory\n#\n# The default registry index is supplied by ptah at resolve time; add\n# an [indices] table only to override it:\n#\n#   [indices]\n#   default = \"https://github.com/pesde-pkg/index\"\n\nname = \"components/");
    let name = sanitize_name_segment(dir_name);
    push_str_chars(&mut out, name.as_str());
    push_str_chars(&mut out, "\"\nversion = \"0.1.0\"\nprivate = true\n\n[target]\nenvironment = \"luau\"\n");
    out
}

/// A valid package-name segment: what Pesde accepts as the name half of
/// `scope/name`.
pub open spec fn valid_segment(s: Seq<char>) -> bool {
    name_part_valid(s, 1)
}

/// Sanitizing any directory name yields a valid package-name segment
/// (never all digits), and the skeleton's `components/<segment>` is a
/// valid Pesde package name.
pub proof fn sanitized_segment_is_valid(dir_name: Seq<char>)
    ensures
        valid_segment(sanitized(dir_name)),
        package_name_valid("components/"@ + sanitized(dir_name)),
{
    reveal_strlit("project");
    reveal_strlit("components/");
    let mapped = dir_name.map_values(|c: char| segment_char(c));
    let cut = if mapped.len() <= 32 {
        mapped
    } else {
        mapped.take(32)
    };
    let lead = trim_leading_underscores(cut);
    let t = trim_trailing_underscores(lead);
    lemma_trim_leading(cut);
    lemma_trim_trailing(lead);
    let s = sanitized(dir_name);
    if t.len() == 0 || all_digits(t) {
        assert(s == "project"@);
        assert(!all_digits(s)) by {
            assert(s[0] == 'p');
        }
    } else {
        assert(s == t);
        let k1 = choose|k: int| 0 <= k <= cut.len() && lead == #[trigger] cut.skip(k);
        let k2 = choose|k: int| 0 <= k <= lead.len() && t == #[trigger] lead.take(k);
        assert forall|i: int| 0 <= i < t.len() implies {
            let c = #[trigger] t[i];
            ('a' <= c && c <= 'z') || ('0' <= c && c <= '9') || c == '_'
        } by {
            assert(t[i] == lead[i]);
            assert(lead[i] == cut[i + k1]);
            assert(cut[i + k1] == mapped[i + k1]);
            let c = dir_name[i + k1];
            assert(mapped[i + k1] == segment_char(c));
        }
        assert(!all_digits(t));
    }
    let full = "components/"@ + s;
    assert(full.len() == 11 + s.len());
    assert(full[10] == '/');
    let scope = full.take(10);
    assert(!('0' <= scope[0] && scope[0] <= '9'));
    assert(forall|i: int| 0 <= i < scope.len() ==> name_char(#[trigger] scope[i]));
    assert(name_part_valid(scope, 3));
    assert(full.skip(11) =~= s);
    assert(name_part_valid(full.skip(11), 1));
}

/// A dependency entry as ptah records it in the manifest: exactly the
/// fields each source form needs, matching Pesde's own `add` output.
#[derive(Debug)]
pub enum DependencyEntry {
    /// A registry dependency: `name`, caret `version`, and (only when they
    /// differ from the defaults) `target` and `index`.
    Pesde { name: String, version: String, target: Option<String>, index: Option<String> },
    /// A git dependency: `repo`, resolved `rev`, optional `path`
    /// subdirectory.
    Git { repo: String, rev: String, path: Option<String> },
    /// A local path dependency (absolute, so resolution is
    /// invocation-directory independent).
    Path { path: String },
}

/// The one-line summary of an entry.
pub open spec fn summary_text(e: DependencyEntry) -> Seq<char> {
    match e {
        DependencyEntry::Pesde { name, version, .. } => name@ + seq![' '] + version@,
        DependencyEntry::Git { repo, rev, path } => match path {
            Some(p) => repo@ + seq!['#'] + rev@ + " ("@ + p@ + seq![')'],
            None => repo@ + seq!['#'] + rev@,
        },
        DependencyEntry::Path { path } => "path "@ + path@,
    }
}

/// The fields an entry writes into its `[dependencies.<alias>]` table, in
/// order.
pub open spec fn entry_fields(e: DependencyEntry) -> Seq<(Seq<char>, Seq<char>)> {
    match e {
        DependencyEntry::Pesde { name, version, target, index } => {
            let base = seq![("name"@, name@), ("version"@, version@)];
            let with_target = match target {
                Some(t) => base.push(("target"@, t@)),
                None => base,
            };
            match index {
                Some(i) => with_target.push(("index"@, i@)),
                None => with_target,
            }
        },
        DependencyEntry::Git { repo, rev, path } => {
            let base = seq![("repo"@, repo@), ("rev"@, rev@)];
            match path {
                Some(p) => base.push(("path"@, p@)),
                None => base,
            }
        },
        DependencyEntry::Path { path } => seq![("path"@, path@)],
    }
}

/// The views of a list of field pairs.
pub open spec fn pair_views(v: Seq<(String, String)>) -> Seq<(Seq<char>, Seq<char>)> {
    v.map_values(|p: (String, String)| (p.0@, p.1@))
}

fn text_of(s: &str) -> (out: String)
    ensures
        out@ == s@,
{
    string_of(&chars_of(s))
}

fn push_field(fields: &mut Vec<(String, String)>, key: &str, value: &str)
    ensures
        pair_views(final(fields)@) == pair_views(old(fields)@).push((key@, value@)),
{
    let pair = (text_of(key), text_of(value));
    let ghost before = fields@;
    fields.push(pair);
    assert(pair_views(before.push(pair)) =~= pair_views(before).push((key@, value@)));
}

impl DependencyEntry {
    /// A one-line human summary for command output.
    pub fn summary(&self) -> (out: String)
        ensures
            out@ == summary_text(*self),
    {
        let mut out = String::new();
        match self {
            DependencyEntry::Pesde { name, version, .. } => {
                push_str_chars(&mut out, name.as_str());
                out.push(' ');
                push_str_chars(&mut out, version.as_str());
            },
            DependencyEntry::Git { repo, rev, path } => {
                push_str_chars(&mut out, repo.as_str());
                out.push('#');
                push_str_chars(&mut out, rev.as_str());
                match path {
                    Some(p) => {
                        push_str_chars(&mut out, " (");
                        push_str_chars(&mut out, p.as_str());
                        out.push(')');
                    },
                    None => {},
                }
            },
            DependencyEntry::Path { path } => {
                push_str_chars(&mut out, "path ");
                push_str_chars(&mut out, path.as_str());
            },
        }
        out
    }

    /// The `key = "value"` fields the entry's table carries, in the order
    /// they are written.
    pub fn fields(&self) -> (out: Vec<(String, String)>)
        ensures
            pair_views(out@) == entry_fields(*self),
    {
        let mut out: Vec<(String, String)> = Vec::new();
        match self {
            DependencyEntry::Pesde { name, version, target, index } => {
                push_field(&mut out, "name", name.as_str());
                push_field(&mut out, "version", version.as_str());
                match target {
                    Some(t) => push_field(&mut out, "target", t.as_str()),
                    None => {},
                }
                match index {
                    Some(i) => push_field(&mut out, "index", i.as_str()),
                    None => {},
                }
            },
            DependencyEntry::Git { repo, rev, path } => {
                push_field(&mut out, "repo", repo.as_str());
                push_field(&mut out, "rev", rev.as_str());
                match path {
                    Some(p) => push_field(&mut out, "path", p.as_str()),
                    None => {},
                }
            },
            DependencyEntry::Path { path } => {
                push_field(&mut out, "path", path.as_str());
            },
        }
        assert(pair_views(out@) =~= entry_fields(*self));
        out
    }
}

/// The keys of a top-level table of a TOML document, in document order,
/// as toml_edit parses the text (none when the key is absent or not a
/// table); `None` when the text is not TOML.
pub uninterp spec fn toml_table_keys(text: Seq<char>, table: Seq<char>) -> Option<Seq<Seq<char>>>;

/// Whether a top-level table of a TOML document carries an entry that is
/// a value (not a sub-table), as toml_edit parses the text.
pub uninterp spec fn toml_table_has_value(text: Seq<char>, table: Seq<char>) -> bool;

/// toml_edit's diagnostic for text that is not TOML.
pub uninterp spec fn toml_parse_error(text: Seq<char>) -> Seq<char>;

/// The keys of `[table]`: `text.parse::<toml_edit::DocumentMut>()`, then
/// the keys of `doc.get(table)` when it is a table, in document order; the
/// parse error's text when the text is not TOML.
#[verifier::external_body]
fn table_keys(text: &str, table: &str) -> (r: Result<Vec<String>, String>)
    ensures
        match r {
            Ok(keys) => toml_table_keys(text@, table@) == Some(keys@.map_values(|k: String| k@)),
            Err(e) => toml_table_keys(text@, table@).is_none() && e@ == toml_parse_error(text@),
        },
{
    let doc = text.parse::<toml_edit::DocumentMut>().map_err(|e| e.to_string())?;
    Ok(doc
        .get(table)
        .and_then(toml_edit::Item::as_table)
        .map(|t| t.iter().map(|(k, _)| k.to_string()).collect())
        .unwrap_or_default())
}

/// Whether `[table]` carries a value entry:
/// `text.parse::<toml_edit::DocumentMut>()`, then whether `doc.get(table)`
/// is a table with an item whose `as_value()` is some.
#[verifier::external_body]
fn table_has_value(text: &str, table: &str) -> (r: Result<bool, String>)
    ensures
        match r {
            Ok(b) => toml_table_keys(text@, table@) is Some && b == toml_table_has_value(text@, table@),
            Err(e) => toml_table_keys(text@, table@).is_none() && e@ == toml_parse_error(text@),
        },
{
    let doc = text.parse::<toml_edit::DocumentMut>().map_err(|e| e.to_string())?;
    Ok(doc
        .get(table)
        .and_then(toml_edit::Item::as_table)
        .is_some_and(|t| t.iter().any(|(_, item)| item.as_value().is_some())))
}

/// `n` is a key of `[table]`.
pub open spec fn table_has_key(text: Seq<char>, table: Seq<char>, n: Seq<char>) -> bool {
    match toml_table_keys(text, table) {
        Some(keys) => keys.contains(n),
        None => false,
    }
}

/// An alias appears as a key of one of the dependency tables.
pub open spec fn is_dependency_key(text: Seq<char>, n: Seq<char>) -> bool {
    ||| table_has_key(text, "dependencies"@, n)
    ||| table_has_key(text, "peer_dependencies"@, n)
    ||| table_has_key(text, "dev_dependencies"@, n)
}

/// The pairs are in strictly increasing order of their names.
pub open spec fn names_sorted(v: Seq<(String, String)>) -> bool {
    forall|i: int, j: int| 0 <= i < j < v.len() ==> text_less(#[trigger] v[i].0@, #[trigger] v[j].0@)
}

proof fn lemma_sorted_distinct(v: Seq<(String, String)>)
    requires
        names_sorted(v),
    ensures
        desired_names_distinct(v),
{
    assert forall|i: int, j: int| 0 <= i < j < v.len() implies #[trigger] v[i].0@ != #[trigger] v[j].0@ by {
        lemma_text_less_total(v[i].0@, v[j].0@);
    }
}

/// Inserting a pair at the position its name sorts to keeps the pairs
/// sorted.
proof fn lemma_insert_sorted(v: Seq<(String, String)>, idx: int, x: (String, String))
    requires
        names_sorted(v),
        0 <= idx <= v.len(),
        forall|k: int| 0 <= k < idx ==> text_less(#[trigger] v[k].0@, x.0@),
        idx < v.len() ==> text_less(x.0@, v[idx].0@),
    ensures
        names_sorted(v.insert(idx, x)),
{
    let t = v.insert(idx, x);
    assert forall|i: int, j: int| 0 <= i < j < t.len() implies text_less(#[trigger] t[i].0@, #[trigger] t[j].0@) by {
        if j < idx {
            assert(t[i] == v[i] && t[j] == v[j]);
        } else if j == idx {
            assert(t[i] == v[i] && t[j] == x);
        } else if i < idx {
            assert(t[i] == v[i] && t[j] == v[j - 1]);
            assert(text_less(x.0@, v[idx].0@));
            if j - 1 > idx {
                lemma_text_less_trans(x.0@, v[idx].0@, v[j - 1].0@);
            }
            lemma_text_less_trans(v[i].0@, x.0@, v[j - 1].0@);
        } else if i == idx {
            assert(t[i] == x && t[j] == v[j - 1]);
            if j - 1 > idx {
                lemma_text_less_trans(x.0@, v[idx].0@, v[j - 1].0@);
            }
        } else {
            assert(t[i] == v[i - 1] && t[j] == v[j - 1]);
        }
    }
}

/// Add each key not yet present, mapped to its linker-module path, at the
/// position its name sorts to.
fn add_aliases(out: &mut Vec<(String, String)>, keys: &Vec<String>)
    requires
        names_sorted(old(out)@),
        forall|j: int| 0 <= j < old(out)@.len() ==> #[trigger] old(out)@[j].1@ == linker_path(old(out)@[j].0@),
    ensures
        names_sorted(final(out)@),
        forall|j: int| 0 <= j < final(out)@.len() ==> #[trigger] final(out)@[j].1@ == linker_path(final(out)@[j].0@),
        forall|n: Seq<char>|
            #[trigger] named_in(final(out)@, final(out)@.len() as int, n) <==> (
            named_in(old(out)@, old(out)@.len() as int, n)
                || keys@.map_values(|k: String| k@).contains(n)),
{
    let ghost start = out@;
    let ghost kv = keys@.map_values(|k: String| k@);
    let mut i: usize = 0;
    while i < keys.len()
        invariant
            i <= keys.len(),
            kv == keys@.map_values(|k: String| k@),
            names_sorted(out@),
            forall|j: int| 0 <= j < out@.len() ==> #[trigger] out@[j].1@ == linker_path(out@[j].0@),
            forall|n: Seq<char>|
                #[trigger] named_in(out@, out@.len() as int, n) <==> (
                named_in(start, start.len() as int, n)
                    || kv.take(i as int).contains(n)),
        decreases keys.len() - i,
    {
        let key = keys[i].as_str();
        assert(kv[i as int] == key@);
        assert(kv.take(i as int + 1) =~= kv.take(i as int).push(key@));
        let ghost before = out@;
        // The position the key sorts to.
        let mut j: usize = 0;
        while j < out.len() && text_lt(out[j].0.as_str(), key)
            invariant
                j <= out.len(),
                out@ == before,
                forall|k: int| 0 <= k < j ==> text_less(#[trigger] out@[k].0@, key@),
            decreases out.len() - j,
        {
            j += 1;
        }
        let found = j < out.len() && text_eq(out[j].0.as_str(), key);
        proof {
            if !found && named_in(before, before.len() as int, key@) {
                let m = choose|m: int| 0 <= m < before.len() && #[trigger] before[m].0@ == key@;
                if m < j {
                    lemma_text_less_total(key@, key@);
                } else if m > j {
                    assert(text_less(before[j as int].0@, before[m].0@));
                } else {
                    assert(before[m].0@ == key@);
                }
                assert(false);
            }
        }
        if !found {
            let pair = (string_of(&chars_of(key)), linker_module_path(key));
            assert(pair.1@ == linker_path(pair.0@));
            proof {
                if j < before.len() {
                    lemma_text_less_total(key@, before[j as int].0@);
                }
                lemma_insert_sorted(before, j as int, pair);
            }
            out.insert(j, pair);
            proof {
                assert forall|k: int| 0 <= k < out@.len() implies #[trigger] out@[k].1@ == linker_path(out@[k].0@) by {
                    if k < j {
                        assert(out@[k] == before[k]);
                        assert(before[k].1@ == linker_path(before[k].0@));
                    } else if k > j {
                        assert(out@[k] == before[k - 1]);
                        assert(before[k - 1].1@ == linker_path(before[k - 1].0@));
                    } else {
                        assert(out@[k] == pair);
                    }
                }
                assert forall|n: Seq<char>|
                    #[trigger] named_in(out@, out@.len() as int, n) <==> (
                    named_in(start, start.len() as int, n)
                        || kv.take(i as int + 1).contains(n)) by {
                    if named_in(out@, out@.len() as int, n) {
                        let k = choose|k: int| 0 <= k < out@.len() && #[trigger] out@[k].0@ == n;
                        if k == j {
                            assert(kv.take(i as int + 1)[i as int] == n);
                        } else {
                            let k2 = if k < j { k } else { k - 1 };
                            assert(out@[k] == before[k2]);
                            assert(before[k2].0@ == n);
                            assert(named_in(before, before.len() as int, n));
                            if kv.take(i as int).contains(n) {
                                let q = choose|q: int| 0 <= q < kv.take(i as int).len() && #[trigger] kv.take(i as int)[q] == n;
                                assert(kv.take(i as int + 1)[q] == n);
                            }
                        }
                    }
                    if kv.take(i as int + 1).contains(n) {
                        if n == key@ {
                            assert(out@[j as int].0@ == n);
                        } else {
                            let q = choose|q: int| 0 <= q < kv.take(i as int + 1).len() && #[trigger] kv.take(i as int + 1)[q] == n;
                            assert(q != i);
                            assert(kv.take(i as int)[q] == n);
                            assert(named_in(before, before.len() as int, n));
                            let k = choose|k: int| 0 <= k < before.len() && #[trigger] before[k].0@ == n;
                            let k2 = if k < j { k } else { k + 1 };
                            assert(out@[k2] == before[k]);
                            assert(out@[k2].0@ == n);
                        }
                    }
                    if named_in(start, start.len() as int, n) {
                        assert(named_in(before, before.len() as int, n));
                        let k = choose|k: int| 0 <= k < before.len() && #[trigger] before[k].0@ == n;
                        let k2 = if k < j { k } else { k + 1 };
                        assert(out@[k2] == before[k]);
                        assert(out@[k2].0@ == n);
                    }
                }
            }
        } else {
            proof {
                assert(before[j as int].0@ == key@);
                assert forall|n: Seq<char>|
                    #[trigger] named_in(out@, out@.len() as int, n) <==> (
                    named_in(start, start.len() as int, n)
                        || kv.take(i as int + 1).contains(n)) by {
                    if n == key@ {
                        assert(out@[j as int].0@ == n);
                    }
                    if kv.take(i as int + 1).contains(n) && n != key@ {
                        let q = choose|q: int| 0 <= q < kv.take(i as int + 1).len() && #[trigger] kv.take(i as int + 1)[q] == n;
                        assert(q != i);
                        assert(kv.take(i as int)[q] == n);
                    }
                    if kv.take(i as int).contains(n) {
                        let q = choose|q: int| 0 <= q < kv.take(i as int).len() && #[trigger] kv.take(i as int)[q] == n;
                        assert(kv.take(i as int + 1)[q] == n);
                    }
                }
            }
        }
        i += 1;
    }
    assert(kv.take(keys.len() as int) =~= kv);
}

/// The alias set from the manifest's dependency tables (the source for
/// `.luaurc` sync): every key of `dependencies`, `peer_dependencies` and
/// `dev_dependencies`, each once and in alias order, mapped to its
/// `luau_packages` linker-module path. Text that is not TOML is a parse
/// error.
pub fn dependency_aliases(text: &str) -> (r: Result<Vec<(String, String)>, Error>)
    ensures
        match r {
            Ok(v) => {
                &&& names_sorted(v@)
                &&& desired_names_distinct(v@)
                &&& forall|n: Seq<char>| #[trigger] desired_map(v@).contains_key(n) <==> is_dependency_key(text@, n)
                &&& forall|n: Seq<char>| #[trigger] desired_map(v@).contains_key(n) ==> desired_map(v@)[n] == linker_path(n)
            },
            Err(e) => e matches Error::ManifestParse { source } && source@ == toml_parse_error(text@)
                && (toml_table_keys(text@, "dependencies"@) is None || toml_table_keys(
                text@,
                "peer_dependencies"@,
            ) is None || toml_table_keys(text@, "dev_dependencies"@) is None),
        },
{
    let mut out: Vec<(String, String)> = Vec::new();
    let k1 = match table_keys(text, "dependencies") {
        Ok(k) => k,
        Err(e) => {
            return Err(Error::ManifestParse { source: e });
        },
    };
    let k2 = match table_keys(text, "peer_dependencies") {
        Ok(k) => k,
        Err(e) => {
            return Err(Error::ManifestParse { source: e });
        },
    };
    let k3 = match table_keys(text, "dev_dependencies") {
        Ok(k) => k,
        Err(e) => {
            return Err(Error::ManifestParse { source: e });
        },
    };
    let ghost o0 = out@;
    add_aliases(&mut out, &k1);
    let ghost o1 = out@;
    add_aliases(&mut out, &k2);
    let ghost o2 = out@;
    add_aliases(&mut out, &k3);
    proof {
        lemma_sorted_distinct(out@);
        crate::package::luaurc::lemma_desired_map(out@);
        assert forall|n: Seq<char>| #[trigger] desired_map(out@).contains_key(n) <==> is_dependency_key(text@, n) by {
            assert(named_in(out@, out@.len() as int, n) <==> named_in(o2, o2.len() as int, n)
                || k3@.map_values(|k: String| k@).contains(n));
            assert(named_in(o2, o2.len() as int, n) <==> named_in(o1, o1.len() as int, n)
                || k2@.map_values(|k: String| k@).contains(n));
            assert(named_in(o1, o1.len() as int, n) <==> named_in(o0, o0.len() as int, n)
                || k1@.map_values(|k: String| k@).contains(n));
            assert(!named_in(o0, o0.len() as int, n));
            if named_in(out@, out@.len() as int, n) {
                let j = choose|j: int| 0 <= j < out@.len() && #[trigger] out@[j].0@ == n;
                assert(desired_map(out@).contains_key(out@[j].0@));
            }
            if desired_map(out@).contains_key(n) {
                let j = choose|j: int| 0 <= j < out@.len() && #[trigger] out@[j].0@ == n;
                assert(named_in(out@, out@.len() as int, n));
            }
        }
        assert forall|n: Seq<char>| #[trigger] desired_map(out@).contains_key(n) implies desired_map(out@)[n] == linker_path(n) by {
            let j = choose|j: int| 0 <= j < out@.len() && #[trigger] out@[j].0@ == n;
            assert(out@[j].1@ == linker_path(out@[j].0@));
        }
    }
    Ok(out)
}

/// Whether the manifest's `[indices]` table carries any entry (i.e. the
/// user configured registry indices of their own). Text that is not TOML
/// is a parse error.
pub fn has_user_indices(text: &str) -> (r: Result<bool, Error>)
    ensures
        match toml_table_keys(text@, "indices"@) {
            Some(_) => r == Ok::<bool, Error>(toml_table_has_value(text@, "indices"@)),
            None => r matches Err(Error::ManifestParse { source }) && source@ == toml_parse_error(text@),
        },
{
    match table_has_value(text, "indices") {
        Ok(b) => Ok(b),
        Err(e) => Err(Error::ManifestParse { source: e }),
    }
}

/// The text of a TOML document after `[table.key]` is given the string
/// fields, in order (creating either table when absent); `None` when
/// `table` or `table.key` exists as something other than a table.
pub uninterp spec fn toml_with_fields(
    text: Seq<char>,
    table: Seq<char>,
    key: Seq<char>,
    fields: Seq<(Seq<char>, Seq<char>)>,
) -> Option<Seq<char>>;

/// The text of a TOML document after `key` is removed from `[table]`;
/// `None` when `[table]` is not a table carrying `key`.
pub uninterp spec fn toml_without_key(text: Seq<char>, table: Seq<char>, key: Seq<char>) -> Option<
    Seq<char>,
>;

/// The text of a TOML document after `table.key` is set to the string
/// `value` (an absent table is created inline); `None` when `table` exists
/// as something other than a table.
pub uninterp spec fn toml_with_value(
    text: Seq<char>,
    table: Seq<char>,
    key: Seq<char>,
    value: Seq<char>,
) -> Option<Seq<char>>;

/// Parse with toml_edit, then `doc[table].or_insert(table())`,
/// `[key].or_insert(table())` — each must be a table (`as_table_mut`) —
/// and `field = value(v)` for each field; the edited document's text.
#[verifier::external_body]
fn set_table_fields(text: &str, table: &str, key: &str, fields: &Vec<(String, String)>) -> (r: Result<
    Option<String>,
    String,
>)
    ensures
        match r {
            Ok(o) => toml_table_keys(text@, table@) is Some && crate::text::opt_string_view(o)
                == toml_with_fields(text@, table@, key@, pair_views(fields@)),
            Err(e) => toml_table_keys(text@, table@) is None && e@ == toml_parse_error(text@),
        },
{
    let mut doc = text.parse::<toml_edit::DocumentMut>().map_err(|e| e.to_string())?;
    let Some(t) = doc[table].or_insert(toml_edit::table()).as_table_mut() else { return Ok(None) };
    let Some(ft) = t[key].or_insert(toml_edit::table()).as_table_mut() else { return Ok(None) };
    for (k, v) in fields {
        ft[k.as_str()] = toml_edit::value(v.as_str());
    }
    Ok(Some(doc.to_string()))
}

/// Parse with toml_edit, then remove `key` from `doc[table]` when it is a
/// table (`as_table_mut`, `Table::remove`); the edited document's text
/// when something was removed. It fails only when the text is not TOML,
/// and then no table of it has keys.
#[verifier::external_body]
fn remove_table_key(text: &str, table: &str, key: &str) -> (r: Result<Option<String>, String>)
    ensures
        match r {
            Ok(o) => toml_table_keys(text@, table@) matches Some(keys) && (o is Some <==> keys.contains(
                key@,
            )) && crate::text::opt_string_view(o) == toml_without_key(text@, table@, key@),
            Err(e) => (forall|t: Seq<char>| #[trigger] toml_table_keys(text@, t) is None) && e@ == toml_parse_error(
                text@,
            ),
        },
{
    let mut doc = text.parse::<toml_edit::DocumentMut>().map_err(|e| e.to_string())?;
    let removed = doc.get_mut(table).and_then(toml_edit::Item::as_table_mut).and_then(|t| t.remove(key));
    match removed {
        Some(_) => Ok(Some(doc.to_string())),
        None => Ok(None),
    }
}

/// Parse with toml_edit, then `doc[table][key] = value(v)` when
/// `doc[table]` is absent or table-like (the indexing that would panic on
/// any other item is not attempted); the edited document's text.
#[verifier::external_body]
fn set_table_value(text: &str, table: &str, key: &str, value: &str) -> (r: Result<Option<String>, String>)
    ensures
        match r {
            Ok(o) => toml_table_keys(text@, table@) is Some && crate::text::opt_string_view(o)
                == toml_with_value(text@, table@, key@, value@),
            Err(e) => toml_table_keys(text@, table@) is None && e@ == toml_parse_error(text@),
        },
{
    let mut doc = text.parse::<toml_edit::DocumentMut>().map_err(|e| e.to_string())?;
    let item = &mut doc[table];
    match item.is_none() || item.is_table_like() {
        true => {
            item[key] = toml_edit::value(value);
            Ok(Some(doc.to_string()))
        },
        false => Ok(None),
    }
}

/// The diagnostic for a manifest whose shape cannot hold a dependency
/// entry.
pub open spec fn entry_shape_message(alias: Seq<char>) -> Seq<char> {
    "`dependencies."@ + alias + "` cannot be written: the manifest holds it as something other than a table"@
}

/// Record `alias -> entry` under `[dependencies]`, preserving every other
/// byte of the document (user tables, comments, formatting). Text that is
/// not TOML is a parse error; a `dependencies` or `dependencies.<alias>`
/// item that is not a table cannot take the entry.
pub fn set_dependency(text: &str, alias: &str, entry: &DependencyEntry) -> (r: Result<String, Error>)
    ensures
        match toml_table_keys(text@, "dependencies"@) {
            None => r matches Err(Error::ManifestParse { source }) && source@ == toml_parse_error(text@),
            Some(_) => match toml_with_fields(text@, "dependencies"@, alias@, entry_fields(*entry)) {
                Some(t) => r matches Ok(s) && s@ == t,
                None => r matches Err(Error::ManifestEdit { source }) && source@ == entry_shape_message(alias@),
            },
        },
{
    let fields = entry.fields();
    match set_table_fields(text, "dependencies", alias, &fields) {
        Err(e) => Err(Error::ManifestParse { source: e }),
        Ok(Some(t)) => Ok(t),
        Ok(None) => {
            let mut m = String::new();
            push_str_chars(&mut m, "`dependencies.");
            push_str_chars(&mut m, alias);
            push_str_chars(&mut m, "` cannot be written: the manifest holds it as something other than a table");
            Err(Error::ManifestEdit { source: m })
        },
    }
}

/// Remove the dependency with `alias` from the first dependency table that
/// carries it (`dependencies`, then `peer_dependencies`, then
/// `dev_dependencies`): the edited text, or `None` when no table had it.
pub fn remove_dependency(text: &str, alias: &str) -> (r: Result<Option<String>, Error>)
    ensures
        match r {
            Ok(Some(t)) => (table_has_key(text@, "dependencies"@, alias@) && toml_without_key(text@, "dependencies"@, alias@) == Some(t@))
                || (!table_has_key(text@, "dependencies"@, alias@) && table_has_key(text@, "peer_dependencies"@, alias@)
                    && toml_without_key(text@, "peer_dependencies"@, alias@) == Some(t@))
                || (!table_has_key(text@, "dependencies"@, alias@) && !table_has_key(text@, "peer_dependencies"@, alias@)
                    && table_has_key(text@, "dev_dependencies"@, alias@) && toml_without_key(text@, "dev_dependencies"@, alias@) == Some(t@)),
            Ok(None) => !is_dependency_key(text@, alias@) && toml_table_keys(text@, "dependencies"@) is Some,
            Err(e) => toml_table_keys(text@, "dependencies"@) is None && (e matches Error::ManifestParse {
                source,
            } && source@ == toml_parse_error(text@)),
        },
{
    match remove_table_key(text, "dependencies", alias) {
        Err(e) => {
            return Err(Error::ManifestParse { source: e });
        },
        Ok(Some(t)) => {
            return Ok(Some(t));
        },
        Ok(None) => {},
    }
    match remove_table_key(text, "peer_dependencies", alias) {
        Err(e) => {
            return Err(Error::ManifestParse { source: e });
        },
        Ok(Some(t)) => {
            return Ok(Some(t));
        },
        Ok(None) => {},
    }
    match remove_table_key(text, "dev_dependencies", alias) {
        Err(e) => Err(Error::ManifestParse { source: e }),
        Ok(Some(t)) => Ok(Some(t)),
        Ok(None) => Ok(None),
    }
}

/// The registry index used when the manifest declares no `[indices]`
/// entry: pesde's own default index.
pub const DEFAULT_INDEX_URL: &'static str = "https://github.com/pesde-pkg/index";

/// Materialize the default index (`url`) into the manifest when — and only
/// when — it declares no `[indices]` entries: the edited text, or `None`
/// when the user's table wins untouched. Text that is not TOML is a parse
/// error; an `indices` item that is not a table cannot take the entry.
pub fn materialize_default_index(text: &str, url: &str) -> (r: Result<Option<String>, Error>)
    ensures
        match toml_table_keys(text@, "indices"@) {
            None => r matches Err(Error::ManifestParse { source }) && source@ == toml_parse_error(text@),
            Some(_) => if toml_table_has_value(text@, "indices"@) {
                r == Ok::<Option<String>, Error>(None)
            } else {
                match toml_with_value(text@, "indices"@, "default"@, url@) {
                    Some(t) => r matches Ok(Some(s)) && s@ == t,
                    None => r matches Err(Error::ManifestEdit { source }) && source@
                        == "`indices` is not a table"@,
                }
            },
        },
{
    if has_user_indices(text)? {
        return Ok(None);
    }
    match set_table_value(text, "indices", "default", url) {
        Err(e) => Err(Error::ManifestParse { source: e }),
        Ok(Some(t)) => Ok(Some(t)),
        Ok(None) => Err(Error::ManifestEdit { source: "`indices` is not a table".to_string() }),
    }
}

} // verus!
