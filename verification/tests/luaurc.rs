use ptah::package::driver::linker_module_path;
use ptah::package::error::Error;
use ptah::package::luaurc::{
    looks_into_luau_packages, plan_sync, AliasEdit, AliasEntry, LuaurcPlan, LuaurcState,
};

fn pkg_aliases(names: &[&str]) -> Vec<(String, String)> {
    names.iter().map(|n| (n.to_string(), linker_module_path(n))).collect()
}

fn entries(pairs: &[(&str, Option<&str>)]) -> Vec<AliasEntry> {
    pairs
        .iter()
        .map(|(n, v)| AliasEntry { name: n.to_string(), value: v.map(str::to_string) })
        .collect()
}

/// The `aliases` object after applying a plan's edits, sorted by name.
fn applied(start: Vec<AliasEntry>, plan: &LuaurcPlan) -> Vec<AliasEntry> {
    let mut m: std::collections::BTreeMap<String, Option<String>> =
        start.into_iter().map(|e| (e.name, e.value)).collect();
    for edit in &plan.edits {
        match edit {
            AliasEdit::Remove { name } => {
                m.remove(name);
            }
            AliasEdit::Assign { name, target } => {
                m.insert(name.clone(), Some(target.clone()));
            }
        }
    }
    m.into_iter().map(|(name, value)| AliasEntry { name, value }).collect()
}

fn value_of(es: &[AliasEntry], name: &str) -> Option<Option<String>> {
    es.iter().find(|e| e.name == name).map(|e| e.value.clone())
}

#[test]
fn absent_file_is_created_with_the_alias_map() {
    let plan = plan_sync(".luaurc", LuaurcState::Absent, &pkg_aliases(&["hello"])).unwrap();
    assert!(plan.report.created && plan.report.updated);
    let after = applied(Vec::new(), &plan);
    assert_eq!(value_of(&after, "hello"), Some(Some("./.ptah/luau_packages/hello".to_string())));
}

#[test]
fn user_keys_and_user_aliases_are_preserved() {
    let existing = entries(&[("mine", Some("./my/own/module")), ("hello", Some("./.ptah/luau_packages/hello"))]);
    let plan = plan_sync(".luaurc", LuaurcState::Aliases(entries(&[("mine", Some("./my/own/module")), ("hello", Some("./.ptah/luau_packages/hello"))])), &pkg_aliases(&["hello", "util"])).unwrap();
    assert!(!plan.report.created, "{:?}", plan.report);
    assert!(plan.report.updated, "adding `util` rewrites: {:?}", plan.report);
    let after = applied(existing, &plan);
    assert_eq!(value_of(&after, "mine"), Some(Some("./my/own/module".to_string())));
    assert_eq!(value_of(&after, "util"), Some(Some("./.ptah/luau_packages/util".to_string())));
    assert!(plan.report.collisions.is_empty());
}

#[test]
fn user_alias_collision_leaves_the_user_entry_untouched() {
    let plan = plan_sync(
        ".luaurc",
        LuaurcState::Aliases(entries(&[("hello", Some("./custom/hello"))])),
        &pkg_aliases(&["hello"]),
    )
    .unwrap();
    assert_eq!(plan.report.collisions, vec!["hello".to_string()]);
    assert!(!plan.report.updated);
    assert!(plan.edits.is_empty(), "the user's file is left untouched");
}

#[test]
fn removing_the_dependency_deletes_the_ptah_owned_entry() {
    let first = plan_sync(".luaurc", LuaurcState::Absent, &pkg_aliases(&["hello", "gone"])).unwrap();
    let state = applied(Vec::new(), &first);
    let second = plan_sync(".luaurc", LuaurcState::Aliases(applied(Vec::new(), &first)), &pkg_aliases(&["hello"])).unwrap();
    assert!(!second.report.created && second.report.updated);
    let state = applied(state, &second);
    assert!(value_of(&state, "gone").is_none());
    assert_eq!(value_of(&state, "hello"), Some(Some("./.ptah/luau_packages/hello".to_string())));
    let third = plan_sync(".luaurc", LuaurcState::Aliases(state), &pkg_aliases(&["hello"])).unwrap();
    assert!(!third.report.updated, "{:?}", third.report);
}

#[test]
fn non_string_alias_values_are_user_owned() {
    let plan = plan_sync(".luaurc", LuaurcState::Aliases(entries(&[("hello", None)])), &pkg_aliases(&["hello"])).unwrap();
    assert_eq!(plan.report.collisions, vec!["hello".to_string()]);
    assert!(plan.edits.is_empty());
}

#[test]
fn ptah_owned_detection_is_lexical() {
    for (value, expect) in [
        ("./.ptah/luau_packages/hello", true),
        (".ptah/luau_packages/hello", true),
        ("./.ptah/luau_packages/nested/deep", true),
        ("./other/luau_packages/hello", false),
        ("./my/own/module", false),
        ("/abs/.ptah/luau_packages/hello", false),
        ("https://example.com", false),
    ] {
        assert_eq!(looks_into_luau_packages(value), expect, "{value:?}");
    }
    assert!(looks_into_luau_packages("../x/../.ptah/luau_packages/hello"));
    assert!(!looks_into_luau_packages("./.ptah/luau_packages"));
}

#[test]
fn unparseable_luaurc_is_an_error_naming_the_file() {
    let err = plan_sync("/p/.luaurc", LuaurcState::NotJson("expected value at line 1 column 1".into()), &pkg_aliases(&["hello"])).unwrap_err();
    assert!(matches!(err, Error::LuaurcSync { .. }), "{}", err.message());
    assert!(err.message().contains(".luaurc"), "{}", err.message());
    assert!(err.message().contains("JSON"), "{}", err.message());
    let err = plan_sync("/p/.luaurc", LuaurcState::AliasesNotObject, &pkg_aliases(&["hello"])).unwrap_err();
    assert!(err.message().contains("`aliases` must be a JSON object"), "{}", err.message());
}
