use sampo_core::config::Config;
use sampo_core::filters::{
    filter_members, list_visible_packages, should_ignore_package, wildcard_match,
};
use sampo_core::paths::relative_path;
use sampo_core::types::{PackageInfo, PackageKind, Workspace};

#[test]
fn wildcard_basic() {
    assert!(wildcard_match("a*", "abc"));
    assert!(wildcard_match("*c", "abc"));
    assert!(wildcard_match("a*c", "abc"));
    assert!(!wildcard_match("ab", "abc"));
}

#[test]
fn wildcard_match_edge_cases() {
    // Empty pattern matches empty text
    assert!(wildcard_match("", ""));

    // Single wildcard matches anything
    assert!(wildcard_match("*", ""));
    assert!(wildcard_match("*", "anything"));

    // Multiple wildcards
    assert!(wildcard_match("a*b*c", "aXbYc"));
    assert!(wildcard_match("a*b*c", "abc"));
    assert!(!wildcard_match("a*b*c", "ab"));

    // No wildcards - exact match
    assert!(wildcard_match("exact", "exact"));
    assert!(!wildcard_match("exact", "different"));

    // Edge case: pattern ends with wildcard
    assert!(wildcard_match("prefix*", "prefix"));
    assert!(wildcard_match("prefix*", "prefixSUFFIX"));
}

#[test]
fn wildcard_pieces_do_not_overlap() {
    assert!(!wildcard_match("ab*ba", "aba"));
    assert!(wildcard_match("ab*ba", "abba"));
    assert!(wildcard_match("*a*a*", "banana"));
    assert!(!wildcard_match("*x*", "banana"));
    assert!(wildcard_match("a**b", "ab"));
}

fn package(name: &str, path: &str) -> PackageInfo {
    PackageInfo {
        name: name.into(),
        identifier: format!("cargo/{}", name),
        version: "0.1.0".into(),
        path: path.into(),
        internal_deps: Vec::new(),
        internal_dev_deps: Vec::new(),
        kind: PackageKind::Cargo,
    }
}

fn dummy_ws() -> Workspace {
    Workspace {
        root: "/repo".into(),
        members: vec![
            package("internal-tool", "/repo/tools/internal-tool"),
            package("examples-lib", "/repo/examples/lib"),
            package("normal", "/repo/crates/normal"),
        ],
    }
}

fn config_ignoring(patterns: &[&str]) -> Config {
    Config {
        ignore: patterns.iter().map(|p| p.to_string()).collect(),
        ..Default::default()
    }
}

#[test]
fn filters_by_name_and_path() {
    let ws = dummy_ws();
    let cfg = config_ignoring(&["internal-*", "examples/*"]);
    let names = list_visible_packages(&ws, &cfg, &[true, true, true]);
    assert_eq!(names, vec!["normal".to_string()]);
}

#[test]
fn should_ignore_package_by_name_pattern() {
    let ws = dummy_ws();
    let cfg = config_ignoring(&["internal-*"]);
    let internal_crate = &ws.members[0];
    let normal_crate = &ws.members[2];
    assert!(should_ignore_package(&cfg, &ws, internal_crate, true));
    assert!(!should_ignore_package(&cfg, &ws, normal_crate, true));
}

#[test]
fn should_ignore_package_by_path_pattern() {
    let ws = dummy_ws();
    let cfg = config_ignoring(&["examples/*"]);
    let examples_crate = &ws.members[1];
    let normal_crate = &ws.members[2];
    assert!(should_ignore_package(&cfg, &ws, examples_crate, true));
    assert!(!should_ignore_package(&cfg, &ws, normal_crate, true));
}

#[test]
fn filter_members_returns_non_ignored_crates() {
    let ws = dummy_ws();
    let cfg = config_ignoring(&["internal-*", "examples/*"]);
    let filtered = filter_members(&ws, &cfg, &[true, true, true]);
    assert_eq!(filtered.len(), 1);
    assert_eq!(ws.members[filtered[0]].name, "normal");
}

#[test]
fn unpublishable_packages_are_ignored_only_when_configured() {
    let ws = dummy_ws();
    let mut cfg = Config::default();
    assert!(!should_ignore_package(&cfg, &ws, &ws.members[0], false));
    cfg.ignore_unpublished = true;
    assert!(should_ignore_package(&cfg, &ws, &ws.members[0], false));
    assert!(!should_ignore_package(&cfg, &ws, &ws.members[0], true));
    let names = list_visible_packages(&ws, &cfg, &[false, true, true]);
    assert_eq!(names, vec!["examples-lib".to_string(), "normal".to_string()]);
}

#[test]
fn visible_names_are_sorted_and_unique() {
    let ws = Workspace {
        root: "/repo".into(),
        members: vec![
            package("zeta", "/repo/z"),
            package("alpha", "/repo/a"),
            package("zeta", "/repo/z2"),
        ],
    };
    let names = list_visible_packages(&ws, &Config::default(), &[true, true, true]);
    assert_eq!(names, vec!["alpha".to_string(), "zeta".to_string()]);
}

#[test]
fn relative_paths_follow_components() {
    assert_eq!(relative_path("/repo/examples/lib", "/repo"), "examples/lib");
    assert_eq!(relative_path("/repo//examples/./lib", "/repo/"), "examples/lib");
    assert_eq!(relative_path("/repository/x", "/repo"), "/repository/x");
    assert_eq!(relative_path("/repo", "/repo"), "");
    assert_eq!(relative_path("repo/x", "/repo"), "repo/x");
    assert_eq!(relative_path("/repo/a\\b", "/repo"), "a/b");
}

#[test]
fn wildcard_stars_match_any_run_including_none() {
    assert!(wildcard_match("*", ""));
    assert!(wildcard_match("a**b", "ab"));
    assert!(wildcard_match("a*b*c", "axxbyc"));
    assert!(wildcard_match("*a*", "bab"));
    assert!(!wildcard_match("a*b", "ba"));
    assert!(!wildcard_match("a*b", "abc"));
    assert!(wildcard_match("a*", "a*"));
}
