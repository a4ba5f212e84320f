use sampo_core::paths::clean_path;

#[test]
fn discovery_clean_path_collapses_segments() {
    let input = "/a/b/../c/./d";
    let expected = String::from("/a/c/d");
    assert_eq!(clean_path(input), expected);
}

#[test]
fn discovery_clean_path_prevents_escaping_root() {
    // Test that we can't escape beyond root directory
    let input = "/a/../..";
    let expected = String::from("/");
    assert_eq!(clean_path(input), expected);

    // Test with relative paths
    let input = "a/../..";
    let expected = String::from("");
    assert_eq!(clean_path(input), expected);
}
