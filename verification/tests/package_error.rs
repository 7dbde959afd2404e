use ptah::package::error::Error;

#[test]
fn usage_classification_matches_the_exit_code_contract() {
    for err in [
        Error::NoProject { searched_from: "/x".into() },
        Error::ManifestMissing { ptah_dir: "/x".into() },
        Error::ManifestParse { source: "bad".into() },
        Error::ManifestEdit { source: "bad".into() },
        Error::InvalidSpec { source: "bad".into() },
        Error::UnknownAlias { alias: "x".into() },
    ] {
        assert!(err.is_usage(), "{} must be usage-class (exit 2)", err.message());
    }
    for err in [
        Error::UnsupportedTarget { found: "roblox".into() },
        Error::LockfileMissing { ptah_dir: "/x".into() },
        Error::LockfileStale { reason: "r".into() },
        Error::Resolve { source: "s".into() },
        Error::Source { step: "refresh source".into(), source: "s".into() },
        Error::Install { source: "s".into() },
        Error::Io { context: "c".into(), source: "x".into() },
        Error::LuaurcSync { source: "s".into() },
    ] {
        assert!(!err.is_usage(), "{} must be operational (exit 1)", err.message());
    }
}

#[test]
fn diagnostics_name_the_failing_thing() {
    let e = Error::UnknownAlias { alias: "hello".into() };
    assert!(e.message().contains("hello"), "{}", e.message());
    let e = Error::UnsupportedTarget { found: "roblox".into() };
    assert!(e.message().contains("roblox"), "{}", e.message());
    let e = Error::NoProject { searched_from: "/tmp/here".into() };
    assert!(e.message().contains("/tmp/here"), "{}", e.message());
    assert!(e.message().contains(".ptah/pesde.toml"), "{}", e.message());
}
