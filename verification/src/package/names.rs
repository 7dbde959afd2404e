//! Pesde's naming rules as ptah relies on them: package names
//! (`scope/name`), dependency aliases, the folder packages link into and
//! the lockfile format. Each is pesde's own code, called here; the rules
//! its source applies are stated beside each call.

use vstd::prelude::*;

verus! {

/// A character Pesde allows in a package-name part: `[a-z0-9_]`.
pub open spec fn name_char(c: char) -> bool {
    ('a' <= c && c <= 'z') || ('0' <= c && c <= '9') || c == '_'
}

/// A package-name part (scope or name) as Pesde accepts it: `min`..=32
/// characters from `[a-z0-9_]`, not only digits, no leading or trailing
/// `_`.
pub open spec fn name_part_valid(p: Seq<char>, min: nat) -> bool {
    &&& min <= p.len() <= 32
    &&& exists|i: int| 0 <= i < p.len() && !('0' <= #[trigger] p[i] && p[i] <= '9')
    &&& p[0] != '_'
    &&& p.last() != '_'
    &&& forall|i: int| 0 <= i < p.len() ==> name_char(#[trigger] p[i])
}

/// A valid `scope/name` package name: a 3–32 character scope and a 1–32
/// character name around the first `/`.
pub open spec fn package_name_valid(s: Seq<char>) -> bool {
    exists|k: int|
        0 <= k < s.len() && s[k] == '/' && name_part_valid(#[trigger] s.take(k), 3)
            && name_part_valid(s.skip(k + 1), 1)
}

/// Pesde's diagnostic for a package name it rejects.
pub uninterp spec fn package_name_error(s: Seq<char>) -> Seq<char>;

/// `s.parse::<pesde::names::PackageName>()`, giving the name part
/// (`PackageName::name`) or the error's text. Pesde's `from_str` splits at
/// the first `/` and checks each part's length, digits, underscores and
/// characters, as `package_name_valid` states.
#[verifier::external_body]
pub(crate) fn parse_package_name(s: &str) -> (r: Result<String, String>)
    ensures
        r is Ok <==> package_name_valid(s@),
        r matches Ok(n) ==> exists|k: int|
            0 <= k < s@.len() && s@[k] == '/' && name_part_valid(#[trigger] s@.take(k), 3)
                && n@ == s@.skip(k + 1),
        r matches Err(e) ==> e@ == package_name_error(s@),
{
    match s.parse::<pesde::names::PackageName>() {
        Ok(name) => Ok(name.name().to_string()),
        Err(e) => Err(e.to_string()),
    }
}

/// A character Pesde allows in an alias: ASCII letters, digits, `-`, `_`.
pub open spec fn alias_char(c: char) -> bool {
    ('a' <= c && c <= 'z') || ('A' <= c && c <= 'Z') || ('0' <= c && c <= '9') || c == '-'
        || c == '_'
}

/// ASCII lowercase of a text.
pub open spec fn ascii_lower(s: Seq<char>) -> Seq<char> {
    s.map_values(|c: char| if 'A' <= c && c <= 'Z' { ((c as u32) + 32) as char } else { c })
}

/// The names an alias may not take (compared lowercased): Windows
/// reserved file names, Luau's `self`, the Cart runtime, and the engine
/// names `pesde` and `lune`.
pub open spec fn reserved_alias(l: Seq<char>) -> bool {
    ||| l == "con"@ || l == "prn"@ || l == "aux"@ || l == "nul"@
    ||| l == "com1"@ || l == "com2"@ || l == "com3"@ || l == "com4"@ || l == "com5"@
    ||| l == "com6"@ || l == "com7"@ || l == "com8"@ || l == "com9"@
    ||| l == "lpt1"@ || l == "lpt2"@ || l == "lpt3"@ || l == "lpt4"@ || l == "lpt5"@
    ||| l == "lpt6"@ || l == "lpt7"@ || l == "lpt8"@ || l == "lpt9"@
    ||| l == "self"@ || l == "cart"@ || l == "pesde"@ || l == "lune"@
}

/// A valid dependency alias: 1–48 alias characters, not a reserved name.
pub open spec fn alias_valid(s: Seq<char>) -> bool {
    &&& 1 <= s.len() <= 48
    &&& forall|i: int| 0 <= i < s.len() ==> alias_char(#[trigger] s[i])
    &&& !reserved_alias(ascii_lower(s))
}

/// Pesde's diagnostic for an alias it rejects.
pub uninterp spec fn alias_error(s: Seq<char>) -> Seq<char>;

/// `s.parse::<pesde::manifest::Alias>()`: `Ok` exactly for the aliases
/// `alias_valid` describes (pesde checks emptiness, the 48-byte limit,
/// reserved names, the character set and the engine names), else the
/// error's text: `the alias is empty` for the empty text, and otherwise a
/// message that starts by naming the alias (`` alias `<s>` ``).
#[verifier::external_body]
pub(crate) fn parse_alias(s: &str) -> (r: Result<(), String>)
    ensures
        r is Ok <==> alias_valid(s@),
        r matches Err(e) ==> e@ == alias_error(s@),
        r matches Err(e) ==> (if s@.len() == 0 {
            e@ == "the alias is empty"@
        } else {
            e@.len() >= s@.len() + 8 && e@.take(s@.len() + 8 as int) == "alias `"@ + s@ + "`"@
        }),
{
    match s.parse::<pesde::manifest::Alias>() {
        Ok(_) => Ok(()),
        Err(e) => Err(e.to_string()),
    }
}

/// The name of the index a registry dependency resolves against by
/// default: `pesde::DEFAULT_INDEX_NAME`, which its source sets to
/// `default`.
#[verifier::external_body]
pub(crate) fn default_index_name() -> (s: String)
    ensures
        s@ == "default"@,
{
    pesde::DEFAULT_INDEX_NAME.to_string()
}

/// The folder `luau` packages link into, as pesde names it:
/// `TargetKind::Luau.packages_folder(TargetKind::Luau)`, which formats
/// `"{dependency}_packages"` with the target's display name `luau`.
#[verifier::external_body]
pub(crate) fn luau_packages_folder() -> (s: String)
    ensures
        s@ == "luau_packages"@,
{
    pesde::manifest::target::TargetKind::Luau.packages_folder(
        pesde::manifest::target::TargetKind::Luau,
    )
}

/// The lockfile format pesde writes: `pesde::lockfile::CURRENT_FORMAT`,
/// which its source sets to 2.
#[verifier::external_body]
pub(crate) fn current_lockfile_format() -> (n: usize)
    ensures
        n == 2,
{
    pesde::lockfile::CURRENT_FORMAT
}

} // verus!
