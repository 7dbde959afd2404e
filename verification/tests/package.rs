use ptah::package::driver::{
    check_lockfile, check_version_req, choose_alias, git_entry, index_choice, luau_target_gate, registry_entry, git_default_alias, graph_to_reuse, install_outcome,
    linker_module_path, lockfile_staleness, lockfile_text, path_default_alias,
    registry_default_alias, removal_verdict, repo_name, reusable_lockfile, update_options,
    InstallOptions, LockfileCheck, LockfileFacts,
};
use ptah::package::error::Error;
use ptah::package::manifest::{
    dependency_aliases, has_user_indices, materialize_default_index, remove_dependency,
    sanitize_name_segment, set_dependency, skeleton, DependencyEntry, DEFAULT_INDEX_URL,
};
use ptah::package::project::{discover_root, find_project_root, project_dirs};

#[test]
fn repo_name_extracts_last_segment() {
    assert_eq!(
        git_default_alias("https://github.com/patextreme/ptah-libs", "https://github.com/patextreme/ptah-libs").unwrap(),
        "ptah-libs"
    );
    assert_eq!(git_default_alias("https://github.com/x/y.git", "https://github.com/x/y.git").unwrap(), "y");
}

#[test]
fn repo_names_strip_every_git_suffix_and_fall_back() {
    assert_eq!(repo_name("/x/y.git.git"), "y");
    assert_eq!(repo_name("/x/"), "package");
    assert_eq!(repo_name("/x/.git"), "package");
    assert_eq!(repo_name("plain"), "plain");
}

#[test]
fn linker_module_path_points_into_luau_packages() {
    assert_eq!(linker_module_path("hello"), "./.ptah/luau_packages/hello");
}

#[test]
fn lockfile_text_carries_the_pesde_header() {
    let text = lockfile_text("name = \"abc/x\"\nversion = \"0.1.0\"\ntarget = \"luau\"\n");
    assert!(text.starts_with("# This file is automatically @generated by pesde.\n"));
    assert!(text.contains("format = 2"), "{text}");
    assert!(text.ends_with("target = \"luau\"\n"), "{text}");
}

#[test]
fn skeleton_carries_no_indices_table_textually() {
    let text = skeleton("anything");
    let active = text.lines().map(str::trim).filter(|line| !line.starts_with('#')).collect::<Vec<_>>();
    assert!(!active.iter().any(|l| l.contains("[indices]")), "indices table leaked into the skeleton: {text}");
    assert!(text.contains("environment = \"luau\""), "{text}");
    assert!(text.contains("private = true"), "{text}");
}

#[test]
fn skeleton_parses_as_a_valid_private_luau_manifest() {
    let text = skeleton("My_Project!");
    let doc = text.parse::<toml_edit::DocumentMut>().unwrap();
    assert_eq!(doc["name"].as_str(), Some("components/my_project"));
    assert_eq!(doc["private"].as_bool(), Some(true), "skeleton is private");
    assert_eq!(doc["target"]["environment"].as_str(), Some("luau"));
    assert!(doc.get("dependencies").is_none(), "skeleton has no dependency entries");
    assert!(doc.get("indices").is_none(), "skeleton has no indices");
}

#[test]
fn name_sanitization_covers_the_pesde_rules() {
    assert_eq!(sanitize_name_segment("my-project"), "my_project");
    assert_eq!(sanitize_name_segment("My Project!"), "my_project");
    assert_eq!(sanitize_name_segment("--x--"), "x");
    let long = "a".repeat(40);
    assert_eq!(sanitize_name_segment(&long).len(), 32);
    for dir_name in ["", "___", "123", "42"] {
        assert_eq!(sanitize_name_segment(dir_name), "project");
    }
    for dir_name in ["a", "A-b.c", "2fast2furious"] {
        let seg = sanitize_name_segment(dir_name);
        let full = format!("components/{seg}");
        assert_eq!(full.parse::<pesde::names::PackageName>().unwrap().to_string(), full, "{dir_name} -> {seg}");
    }
}

#[test]
fn digits_left_after_trimming_fall_back_to_project() {
    // The all-digits test looks at what survives trimming, so a name whose
    // only non-digits are trimmed underscores still falls back.
    for dir_name in ["_12", "-123", "12__", "__7__"] {
        assert_eq!(sanitize_name_segment(dir_name), "project");
    }
    assert_eq!(sanitize_name_segment("_1_2"), "1_2");
}

const USER_MANIFEST: &str = r#"# my project manifest
name = "abc/my_project"
version = "0.2.0"
private = true

[target]
environment = "luau"

# my own index
[indices]
default = "https://example.com/custom-index"
other = "https://example.com/other"
"#;

#[test]
fn user_indices_table_round_trips_byte_identically_through_edits() {
    let written = set_dependency(
        USER_MANIFEST,
        "hello",
        &DependencyEntry::Pesde { name: "pesde/hello".into(), version: "^0.2.0".into(), target: None, index: None },
    )
    .unwrap();
    let indices_start = USER_MANIFEST.find("# my own index").unwrap();
    let original_section = &USER_MANIFEST[indices_start..];
    let written_section = &written[written.find("# my own index").unwrap()..];
    assert!(written_section.starts_with(original_section), "indices table must round-trip byte-identically: {written}");
    assert!(written.contains("[dependencies.hello]"), "{written}");
    assert!(written.contains("version = \"^0.2.0\""), "{written}");
    let doc = written.parse::<toml_edit::DocumentMut>().unwrap();
    assert_eq!(doc["dependencies"]["hello"]["name"].as_str(), Some("pesde/hello"));
    assert_eq!(doc["indices"]["default"].as_str(), Some("https://example.com/custom-index"));
}

#[test]
fn unknown_tables_and_comments_survive_dependency_edits() {
    let manifest = "name = \"abc/x\"\nversion = \"0.1.0\"\n\n# a user field\n[extra_table]\nkeep = \"me\"\n\n[target]\nenvironment = \"luau\"\n";
    let written = set_dependency(manifest, "local", &DependencyEntry::Path { path: "/abs/pkg".into() }).unwrap();
    assert!(written.contains("# a user field"), "{written}");
    assert!(written.contains("keep = \"me\""), "{written}");
    assert!(written.contains("path = \"/abs/pkg\""), "{written}");
}

#[test]
fn git_entries_record_repo_rev_and_path() {
    let written = set_dependency(
        &skeleton("x"),
        "hello",
        &DependencyEntry::Git { repo: "https://example.com/repo".into(), rev: "deadbeef".into(), path: Some("pkg/hello".into()) },
    )
    .unwrap();
    assert!(written.contains("repo = \"https://example.com/repo\""), "{written}");
    assert!(written.contains("rev = \"deadbeef\""), "{written}");
    assert!(written.contains("path = \"pkg/hello\""), "{written}");
}

#[test]
fn a_dependency_held_as_a_value_cannot_take_an_entry() {
    let err = set_dependency("dependencies = 5\n", "hello", &DependencyEntry::Path { path: "/p".into() }).unwrap_err();
    assert!(matches!(err, Error::ManifestEdit { .. }), "{}", err.message());
    let err = set_dependency("not toml {{{", "hello", &DependencyEntry::Path { path: "/p".into() }).unwrap_err();
    assert!(matches!(err, Error::ManifestParse { .. }));
    assert!(err.is_usage());
}

#[test]
fn remove_dependency_finds_and_deletes_across_tables() {
    let text = r#"
name = "abc/x"
version = "0.1.0"

[target]
environment = "luau"

[dependencies]
hello = { name = "pesde/hello", version = "^0.1.0" }

[dev_dependencies]
tooling = { name = "pesde/tooling", version = "^1.0.0" }
"#;
    let text = remove_dependency(text, "hello").unwrap().expect("hello removed");
    assert!(remove_dependency(&text, "hello").unwrap().is_none());
    let text = remove_dependency(&text, "tooling").unwrap().expect("tooling removed");
    assert!(remove_dependency(&text, "never_there").unwrap().is_none());
    assert!(!text.contains("hello"), "{text}");
}

#[test]
fn default_index_injection_only_when_no_user_indices() {
    let injected = materialize_default_index(&skeleton("x"), DEFAULT_INDEX_URL).unwrap().expect("injected");
    let doc = injected.parse::<toml_edit::DocumentMut>().unwrap();
    assert_eq!(doc["indices"]["default"].as_str(), Some(DEFAULT_INDEX_URL));

    assert!(materialize_default_index(USER_MANIFEST, DEFAULT_INDEX_URL).unwrap().is_none());
    assert!(has_user_indices(USER_MANIFEST).unwrap());

    let empty = "name = \"abc/x\"\nversion = \"0.1.0\"\n\n[target]\nenvironment = \"luau\"\n\n[indices]\n";
    assert!(!has_user_indices(empty).unwrap());
    let injected = materialize_default_index(empty, DEFAULT_INDEX_URL).unwrap().expect("injected");
    let doc = injected.parse::<toml_edit::DocumentMut>().unwrap();
    assert_eq!(doc["indices"].as_table().map(|t| t.len()), Some(1));
}

#[test]
fn dependency_aliases_cover_every_dependency_table_once() {
    let text = "[dependencies]\nzeta = { path = \"/z\" }\nhello = { path = \"/a\" }\n\n[peer_dependencies]\nhello = { path = \"/b\" }\n\n[dev_dependencies]\ntooling = { path = \"/c\" }\n";
    let aliases = dependency_aliases(text).unwrap();
    assert_eq!(
        aliases,
        vec![
            ("hello".to_string(), "./.ptah/luau_packages/hello".to_string()),
            ("tooling".to_string(), "./.ptah/luau_packages/tooling".to_string()),
            ("zeta".to_string(), "./.ptah/luau_packages/zeta".to_string()),
        ]
    );
    assert!(matches!(dependency_aliases("[[[").unwrap_err(), Error::ManifestParse { .. }));
}

#[test]
fn entry_summaries_name_the_source() {
    let e = DependencyEntry::Pesde { name: "pesde/hello".into(), version: "^0.1.0".into(), target: None, index: None };
    assert_eq!(e.summary(), "pesde/hello ^0.1.0");
    let e = DependencyEntry::Git { repo: "https://x/r".into(), rev: "abc".into(), path: Some("p".into()) };
    assert_eq!(e.summary(), "https://x/r#abc (p)");
    let e = DependencyEntry::Git { repo: "https://x/r".into(), rev: "abc".into(), path: None };
    assert_eq!(e.summary(), "https://x/r#abc");
    assert_eq!(DependencyEntry::Path { path: "/p".into() }.summary(), "path /p");
}

#[test]
fn finds_the_project_at_the_invocation_root() {
    assert_eq!(find_project_root("/t/proj", &vec![true, false, false]).as_deref(), Some("/t/proj"));
    let dirs = project_dirs("/t/proj");
    assert_eq!(dirs.ptah_dir, "/t/proj/.ptah");
}

#[test]
fn finds_the_project_from_a_nested_directory() {
    let marks = vec![false, false, false, true, false, false];
    assert_eq!(find_project_root("/t/proj/.ptah/workflows/openspec", &marks).as_deref(), Some("/t/proj"));
}

#[test]
fn no_project_above_is_an_error_naming_the_search() {
    let err = discover_root("/t/none", &vec![false, false, false]).unwrap_err();
    assert!(err.is_usage(), "no-project is a usage error (exit 2)");
    let msg = err.message();
    assert!(msg.contains("/t/none"), "names the searched-from dir: {msg}");
    assert!(msg.contains("config.toml") && msg.contains("pesde.toml"), "names what was searched for: {msg}");
}

#[test]
fn caches_live_under_ptah_dot_pesde() {
    let dirs = project_dirs("/t/caches");
    assert_eq!(dirs.ptah_dir, "/t/caches/.ptah", "package dir is .ptah itself");
    assert_eq!(dirs.data_dir, "/t/caches/.ptah/.pesde/.data", "index/git caches are per-project");
    assert_eq!(dirs.cas_dir, "/t/caches/.ptah/.pesde/.cas", "CAS sits beside the packages it links into");
}

#[test]
fn default_aliases_per_source_form() {
    assert_eq!(registry_default_alias("pesde/hello").unwrap(), "hello");
    assert!(matches!(registry_default_alias("nope").unwrap_err(), Error::InvalidSpec { .. }));
    assert!(matches!(registry_default_alias("ab/x").unwrap_err(), Error::InvalidSpec { .. }));
    assert_eq!(path_default_alias("/home/u/pkgs/hello"), "hello");
    assert_eq!(path_default_alias("/"), "package");
}

#[test]
fn add_auto_alias_from_an_invalid_default_is_a_usage_error() {
    // A directory named `cart` is a reserved alias.
    let err = choose_alias(None, &path_default_alias("/tmp/cart")).unwrap_err();
    assert!(err.is_usage(), "{}", err.message());
    assert!(err.message().contains("alias"), "{}", err.message());
    assert_eq!(choose_alias(Some("mine"), "cart").unwrap(), "mine");
    assert!(choose_alias(Some("bad alias"), "x").is_err());
    assert!(choose_alias(Some("Lune"), "x").is_err());
}

#[test]
fn remove_unknown_alias_is_a_usage_error() {
    let err = removal_verdict("nope", false).unwrap_err();
    assert!(matches!(err, Error::UnknownAlias { .. }));
    assert!(err.is_usage());
    assert!(err.message().contains("nope"));
    assert!(matches!(removal_verdict("bad alias!", true).unwrap_err(), Error::InvalidSpec { .. }));
    assert!(removal_verdict("hello", true).is_ok());
}

#[test]
fn locked_install_requires_a_lockfile() {
    let locked = InstallOptions { locked: true, fresh: false };
    let err = reusable_lockfile::<u8>(LockfileCheck::Missing, &locked, "/t/p/.ptah").unwrap_err();
    assert!(!err.is_usage());
    assert!(err.message().contains("lockfile is missing"), "{}", err.message());
    assert_eq!(reusable_lockfile::<u8>(LockfileCheck::Missing, &InstallOptions::default(), "/t").unwrap(), None);
}

#[test]
fn locked_install_rejects_a_stale_lockfile() {
    let m = LockfileFacts { name: "abc/x".into(), version: "0.1.0".into(), target: "luau".into() };
    let l = LockfileFacts { name: "abc/x".into(), version: "0.1.0".into(), target: "luau".into() };
    let check = check_lockfile(7u8, &m, &l, true, false);
    let locked = InstallOptions { locked: true, fresh: false };
    let err = reusable_lockfile(check, &locked, "/t").unwrap_err();
    assert!(err.message().contains("out of sync"), "{}", err.message());
    assert!(err.message().contains("dependency specifications changed"), "{}", err.message());
}

#[test]
fn locked_install_succeeds_on_a_fresh_lockfile() {
    let m = LockfileFacts { name: "abc/x".into(), version: "0.1.0".into(), target: "luau".into() };
    let l = LockfileFacts { name: "abc/x".into(), version: "0.1.0".into(), target: "luau".into() };
    let check = check_lockfile(7u8, &m, &l, true, true);
    let locked = InstallOptions { locked: true, fresh: false };
    assert_eq!(reusable_lockfile(check, &locked, "/t").unwrap(), Some(7));
}

#[test]
fn staleness_reasons_follow_the_check_order() {
    let m = LockfileFacts { name: "abc/x".into(), version: "0.1.0".into(), target: "luau".into() };
    let other = LockfileFacts { name: "abc/y".into(), version: "0.2.0".into(), target: "lune".into() };
    assert_eq!(lockfile_staleness(&m, &other, true, true).as_deref(), Some("manifest names abc/x, lockfile names abc/y"));
    let v = LockfileFacts { name: "abc/x".into(), version: "0.2.0".into(), target: "lune".into() };
    assert_eq!(lockfile_staleness(&m, &v, true, true).as_deref(), Some("manifest version 0.1.0 != lockfile version 0.2.0"));
    let t = LockfileFacts { name: "abc/x".into(), version: "0.1.0".into(), target: "lune".into() };
    assert_eq!(lockfile_staleness(&m, &t, true, true).as_deref(), Some("manifest target luau != lockfile target lune"));
    let same = LockfileFacts { name: "abc/x".into(), version: "0.1.0".into(), target: "luau".into() };
    assert_eq!(lockfile_staleness(&m, &same, false, false).as_deref(), Some("overrides changed"));
    assert_eq!(lockfile_staleness(&m, &same, true, true), None);
}

#[test]
fn install_is_idempotent_when_up_to_date() {
    let text = lockfile_text("graph = {}\n");
    let outcome = install_outcome(1, Some(&text), &text);
    assert!(!outcome.lockfile_written, "nothing should change");
    assert_eq!(outcome.packages, 1);
    assert!(install_outcome(1, None, &text).lockfile_written);
    assert!(install_outcome(1, Some("old"), &text).lockfile_written);
}

#[test]
fn update_re_resolves_from_scratch() {
    let opts = update_options();
    assert!(opts.fresh && !opts.locked);
    assert_eq!(graph_to_reuse(Some(3u8), &opts), None);
    assert_eq!(graph_to_reuse(Some(3u8), &InstallOptions::default()), Some(3));
}

#[test]
fn version_requirements_are_checked_by_semver() {
    assert!(check_version_req(None).is_ok());
    assert!(check_version_req(Some("^0.2.0")).is_ok());
    assert!(check_version_req(Some(">=1, <2")).is_ok());
    match check_version_req(Some("not a version")) {
        Err(Error::InvalidSpec { source }) => {
            assert_eq!(source, "not a version".parse::<semver::VersionReq>().unwrap_err().to_string());
        }
        other => panic!("expected InvalidSpec, got {other:?}"),
    }
}

#[test]
fn registry_entries_record_a_caret_version_and_a_differing_target() {
    match registry_entry("pesde/hello", "0.2.1", "luau", "luau") {
        DependencyEntry::Pesde { name, version, target, index } => {
            assert_eq!(name, "pesde/hello");
            assert_eq!(version, "^0.2.1");
            assert_eq!(target, None);
            assert_eq!(index, None);
        }
        other => panic!("{other:?}"),
    }
    match registry_entry("pesde/hello", "1.0.0", "lune", "luau") {
        DependencyEntry::Pesde { target, .. } => assert_eq!(target.as_deref(), Some("lune")),
        other => panic!("{other:?}"),
    }
}

#[test]
fn git_entries_default_their_rev_to_head() {
    match git_entry("https://github.com/a/b.git", None, None) {
        DependencyEntry::Git { repo, rev, path } => {
            assert_eq!(repo, "https://github.com/a/b.git");
            assert_eq!(rev, "HEAD");
            assert_eq!(path, None);
        }
        other => panic!("{other:?}"),
    }
    match git_entry("https://github.com/a/b.git", Some("v1.2"), Some("pkg")) {
        DependencyEntry::Git { rev, path, .. } => {
            assert_eq!(rev, "v1.2");
            assert_eq!(path.as_deref(), Some("pkg"));
        }
        other => panic!("{other:?}"),
    }
}

#[test]
fn only_luau_targets_pass_the_gate() {
    assert!(luau_target_gate("luau").is_ok());
    match luau_target_gate("roblox") {
        Err(Error::UnsupportedTarget { found }) => assert_eq!(found, "roblox"),
        other => panic!("{other:?}"),
    }
}

#[test]
fn config_discovery_still_finds_registry_only_projects() {
    // The registry discovery case (config.toml only, no manifest) is also a
    // package project root: the caller's probe marks an ancestor whose
    // `.ptah/` holds either file.
    let marks = vec![true, false, false];
    assert_eq!(find_project_root("/t/registry-only", &marks).as_deref(), Some("/t/registry-only"));
    assert_eq!(discover_root("/t/registry-only", &marks).unwrap(), "/t/registry-only");
}

#[test]
fn missing_probes_count_as_unmarked() {
    // Fewer probes than ancestors: the unprobed ones are not project roots.
    assert_eq!(find_project_root("/t/a/b", &vec![false]), None);
    assert_eq!(find_project_root("/t/./a", &vec![false, true, false, false, false]).as_deref(), Some("/t"));
}

#[test]
fn target_gate_rejects_non_luau_environments() {
    let manifest = toml::from_str::<pesde::manifest::Manifest>(
        r#"
name = "abc/roblox_thing"
version = "0.1.0"

[target]
environment = "roblox"
"#,
    )
    .unwrap();
    let err = luau_target_gate(&manifest.target.kind().to_string()).unwrap_err();
    assert!(matches!(err, Error::UnsupportedTarget { .. }), "{}", err.message());
    assert!(!err.is_usage());
    assert!(err.message().contains("roblox"), "{}", err.message());
}

#[test]
fn the_default_index_is_chosen_from_the_indices_table() {
    assert!(matches!(index_choice(false, None), Ok(None)));
    assert_eq!(index_choice(true, Some("https://x/idx")).unwrap().as_deref(), Some("https://x/idx"));
    match index_choice(true, None) {
        Err(Error::ManifestEdit { source }) => {
            assert_eq!(source, "no index named `default` (add an [indices] entry or remove the empty one)")
        }
        other => panic!("{other:?}"),
    }
}

#[test]
fn alias_errors_name_the_alias() {
    match choose_alias(Some("bad alias"), "x") {
        Err(Error::InvalidSpec { source }) => assert!(source.starts_with("alias `bad alias`"), "{source}"),
        other => panic!("{other:?}"),
    }
    match choose_alias(Some(""), "x") {
        Err(Error::InvalidSpec { source }) => assert_eq!(source, "the alias is empty"),
        other => panic!("{other:?}"),
    }
}

#[test]
fn removing_from_text_that_is_not_toml_is_a_parse_error() {
    assert!(matches!(remove_dependency("this is [not toml", "x"), Err(Error::ManifestParse { .. })));
}
