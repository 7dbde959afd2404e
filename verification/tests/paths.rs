use ptah::paths::normalize;

#[test]
fn pure_helpers_normalize() {
    assert_eq!(normalize("/base/dir/./lib/../lib/x"), "/base/dir/lib/x");
    // `..` at the root pops.
    assert_eq!(normalize("/.."), "/");
}
