use sampo_core::config::Config;

fn short_tag_config() -> Config {
    Config { git_short_tags: Some("my-package".to_string()), ..Default::default() }
}

#[test]
fn defaults_when_missing() {
    let config = Config::default();
    assert_eq!(config.version, 1);
    assert!(config.github_repository.is_none());
    assert!(config.changelog_show_commit_hash);
    assert!(config.changelog_show_acknowledgments);
    assert!(config.changelog_show_release_date);
    assert_eq!(config.changelog_release_date_format, "%Y-%m-%d");
    assert!(config.changelog_release_date_timezone.is_none());
    assert!(config.changesets_tags.is_empty());
    assert_eq!(config.default_branch(), "main");
    assert!(config.is_release_branch("main"));
    assert_eq!(config.git_release_branches, Vec::<String>::new());
    assert!(config.git_short_tags.is_none());
}

#[test]
fn release_branches_are_sorted_and_distinct() {
    let config = Config {
        git_default_branch: Some("trunk".to_string()),
        git_release_branches: vec![
            "release/2".to_string(),
            "".to_string(),
            "next".to_string(),
            "trunk".to_string(),
            "release/2".to_string(),
        ],
        ..Default::default()
    };
    assert_eq!(config.default_branch(), "trunk");
    assert_eq!(config.release_branches(), vec!["next", "release/2", "trunk"]);
    assert!(config.is_release_branch("next"));
    assert!(!config.is_release_branch("main"));
    assert!(!config.is_release_branch(""));
}

#[test]
fn uses_short_tags_returns_true_for_matching_package() {
    let config = short_tag_config();
    assert!(config.uses_short_tags("my-package"));
    assert!(!config.uses_short_tags("other-package"));
}

#[test]
fn build_tag_name_uses_short_format_for_configured_package() {
    let config = short_tag_config();
    assert_eq!(config.build_tag_name("my-package", "1.2.3"), "v1.2.3");
    assert_eq!(
        config.build_tag_name("other-package", "1.2.3"),
        "other-package-v1.2.3"
    );
}

#[test]
fn parse_tag_handles_short_format() {
    let config = short_tag_config();
    assert_eq!(
        config.parse_tag("v1.2.3"),
        Some(("my-package".to_string(), "1.2.3".to_string()))
    );
    assert_eq!(
        config.parse_tag("v1.2.3-alpha.1"),
        Some(("my-package".to_string(), "1.2.3-alpha.1".to_string()))
    );
    assert_eq!(
        config.parse_tag("other-package-v1.2.3"),
        Some(("other-package".to_string(), "1.2.3".to_string()))
    );
}

#[test]
fn parse_tag_short_format_with_v_in_prerelease() {
    let config = short_tag_config();
    assert_eq!(
        config.parse_tag("v1.2.3-v1"),
        Some(("my-package".to_string(), "1.2.3-v1".to_string()))
    );
    assert_eq!(
        config.parse_tag("v1.0.0-preview1"),
        Some(("my-package".to_string(), "1.0.0-preview1".to_string()))
    );
    assert_eq!(
        config.parse_tag("v2.0.0-v2-beta"),
        Some(("my-package".to_string(), "2.0.0-v2-beta".to_string()))
    );
    assert_eq!(
        config.parse_tag("v1.2.3+build.123"),
        Some(("my-package".to_string(), "1.2.3+build.123".to_string()))
    );
    assert_eq!(
        config.parse_tag("v1.2.3-alpha.1+build.456"),
        Some(("my-package".to_string(), "1.2.3-alpha.1+build.456".to_string()))
    );
}

#[test]
fn parse_tag_rejects_invalid_short_tags() {
    let config = short_tag_config();
    assert_eq!(config.parse_tag("v1.2"), None);
    assert_eq!(config.parse_tag("vfoo"), None);
    assert_eq!(config.parse_tag("v01.2.3"), None);
    assert_eq!(config.parse_tag("v"), None);
}

#[test]
fn parse_tag_without_short_tags_config() {
    let config = Config::default();
    assert_eq!(config.parse_tag("v1.2.3"), None);
    assert_eq!(
        config.parse_tag("my-package-v1.2.3"),
        Some(("my-package".to_string(), "1.2.3".to_string()))
    );
    assert_eq!(
        config.parse_tag("my-package-v1.2.3-alpha.1"),
        Some(("my-package".to_string(), "1.2.3-alpha.1".to_string()))
    );
    assert_eq!(
        config.parse_tag("my-package-v1.2.3-v1"),
        Some(("my-package".to_string(), "1.2.3-v1".to_string()))
    );
    assert_eq!(config.parse_tag("my-package-vfoo"), None);
    assert_eq!(config.parse_tag("my-package-v1.2"), None);
}

#[test]
fn built_tags_read_back() {
    let config = Config::default();
    let tag = config.build_tag_name("core", "2.0.0-rc.1");
    assert_eq!(config.parse_tag(&tag), Some(("core".to_string(), "2.0.0-rc.1".to_string())));
    let short = short_tag_config();
    let tag = short.build_tag_name("my-package", "3.1.4");
    assert_eq!(short.parse_tag(&tag), Some(("my-package".to_string(), "3.1.4".to_string())));
}
