use sampo_core::config::Config;
use sampo_core::tree::Value;

fn table(entries: Vec<(&str, Value)>) -> Value {
    Value::Table(entries.into_iter().map(|(k, v)| (k.to_string(), v)).collect())
}

fn strs(items: &[&str]) -> Value {
    Value::List(items.iter().map(|s| Value::Str(s.to_string())).collect())
}

#[test]
fn reads_sections() {
    let doc = table(vec![
        ("version", Value::Int(2)),
        ("github", table(vec![("repository", Value::Str("o/r".to_string()))])),
        (
            "changelog",
            table(vec![
                ("show_commit_hash", Value::Bool(false)),
                ("release_date_format", Value::Str("%d/%m/%Y".to_string())),
                ("release_date_timezone", Value::Str("  +02:30 ".to_string())),
            ]),
        ),
        ("changesets", table(vec![("tags", strs(&[" Added ", "", "Fixed"]))])),
        (
            "packages",
            table(vec![
                ("fixed", Value::List(vec![strs(&["a", "b"]), strs(&["c"])])),
                ("linked", Value::List(vec![strs(&["d", "e"])])),
                ("ignore_unpublished", Value::Bool(true)),
                ("ignore", strs(&["internal-*"])),
            ]),
        ),
        (
            "git",
            table(vec![
                ("default_branch", Value::Str(" develop ".to_string())),
                ("release_branches", strs(&["main", " "])),
                ("short_tags", Value::Str("cli".to_string())),
            ]),
        ),
    ]);
    let config = Config::from_value(&doc).unwrap();
    assert_eq!(config.version, 2);
    assert_eq!(config.github_repository.as_deref(), Some("o/r"));
    assert!(!config.changelog_show_commit_hash);
    assert!(config.changelog_show_acknowledgments);
    assert_eq!(config.changelog_release_date_format, "%d/%m/%Y");
    assert_eq!(config.changelog_release_date_timezone.as_deref(), Some("+02:30"));
    assert_eq!(config.changesets_tags, vec!["Added", "Fixed"]);
    assert_eq!(config.fixed_dependencies, vec![vec!["a", "b"], vec!["c"]]);
    assert_eq!(config.linked_dependencies, vec![vec!["d", "e"]]);
    assert!(config.ignore_unpublished);
    assert_eq!(config.ignore, vec!["internal-*"]);
    assert_eq!(config.default_branch(), "develop");
    assert_eq!(config.git_release_branches, vec!["main"]);
    assert_eq!(config.git_short_tags.as_deref(), Some("cli"));
}

#[test]
fn empty_document_gives_defaults() {
    let config = Config::from_value(&table(vec![])).unwrap();
    assert_eq!(config.version, 1);
    assert_eq!(config.changelog_release_date_format, "%Y-%m-%d");
    assert!(config.fixed_dependencies.is_empty());
    let negative = Config::from_value(&table(vec![("version", Value::Int(-3))])).unwrap();
    assert_eq!(negative.version, 1);
}

#[test]
fn rejects_flat_and_mixed_groups() {
    let flat = table(vec![("packages", table(vec![("fixed", strs(&["a", "b"]))]))]);
    assert_eq!(
        Config::from_value(&flat).unwrap_err().to_string(),
        "Configuration error: packages.fixed must be an array of arrays. Use [[\"a\", \"b\"]] instead of [\"a\", \"b\"]"
    );
    let mixed = table(vec![(
        "packages",
        table(vec![("linked", Value::List(vec![strs(&["a"]), Value::Str("b".to_string())]))]),
    )]);
    assert_eq!(
        Config::from_value(&mixed).unwrap_err().to_string(),
        "Configuration error: packages.linked must be an array of arrays, found mixed format with: \"b\". Use [[\"a\", \"b\"]] instead of [\"a\", \"b\"]"
    );
}

#[test]
fn rejects_overlapping_groups() {
    let overlapping = table(vec![(
        "packages",
        table(vec![("fixed", Value::List(vec![strs(&["a", "b"]), strs(&["b", "c"])]))]),
    )]);
    assert!(Config::from_value(&overlapping)
        .unwrap_err()
        .to_string()
        .contains("Package 'b' appears in multiple fixed dependency groups"));
    let both = table(vec![(
        "packages",
        table(vec![
            ("fixed", Value::List(vec![strs(&["a", "b"])])),
            ("linked", Value::List(vec![strs(&["c", "b"])])),
        ]),
    )]);
    assert_eq!(
        Config::from_value(&both).unwrap_err().to_string(),
        "Configuration error: Package 'b' cannot appear in both packages.fixed and packages.linked"
    );
}
