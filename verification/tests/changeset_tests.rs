use sampo_core::changeset::{
    parse_change_type, parse_changeset, render_changeset_markdown,
    render_changeset_markdown_with_tags,
};
use sampo_core::errors::SampoError;
use sampo_core::types::{Bump, PackageSpecifier, ParsedChangeType};

#[test]
fn render_changeset_markdown_test() {
    let markdown = render_changeset_markdown(
        &[
            (PackageSpecifier::parse("a").unwrap(), Bump::Minor),
            (PackageSpecifier::parse("b").unwrap(), Bump::Minor),
        ],
        "feat: x",
    );
    assert!(markdown.starts_with("---\n"));
    assert!(markdown.contains("a: minor\n"));
    assert!(markdown.contains("b: minor\n"));
    assert!(markdown.contains("---\n\nfeat: x\n"));
}

#[test]
fn render_changeset_markdown_with_canonical_identifier() {
    let markdown = render_changeset_markdown(
        &[(
            PackageSpecifier::parse("cargo/example").unwrap(),
            Bump::Minor,
        )],
        "feat: canonical",
    );
    assert!(markdown.contains("cargo/example: minor\n"));
}

#[test]
fn render_changeset_markdown_compatibility() {
    let markdown = render_changeset_markdown(
        &[
            (PackageSpecifier::parse("a").unwrap(), Bump::Minor),
            (PackageSpecifier::parse("b").unwrap(), Bump::Minor),
        ],
        "feat: x",
    );
    assert!(markdown.starts_with("---\n"));
    assert!(markdown.contains("a: minor\n"));
    assert!(markdown.contains("b: minor\n"));
    assert!(markdown.ends_with("feat: x\n"));
}

#[test]
fn render_changeset_markdown_strips_quoted_names() {
    let markdown = render_changeset_markdown(
        &[(
            PackageSpecifier::parse("\"sampo-core\"").unwrap(),
            Bump::Minor,
        )],
        "feat: sanitized",
    );
    assert!(markdown.contains("sampo-core: minor\n"));
    assert!(!markdown.contains("\"sampo-core\""));
}

#[test]
fn render_changeset_markdown_with_tags_test() {
    let markdown = render_changeset_markdown_with_tags(
        &[
            (
                PackageSpecifier::parse("a").unwrap(),
                Bump::Minor,
                Some("Added".to_string()),
            ),
            (PackageSpecifier::parse("b").unwrap(), Bump::Patch, None),
        ],
        "feat: mixed",
    );
    assert!(markdown.contains("a: minor (Added)\n"));
    assert!(markdown.contains("b: patch\n"));
}

#[test]
fn render_changeset_markdown_exact_document() {
    let markdown = render_changeset_markdown(
        &[
            (PackageSpecifier::parse("npm/web").unwrap(), Bump::Major),
            (PackageSpecifier::parse("core").unwrap(), Bump::Patch),
        ],
        "fix: things",
    );
    assert_eq!(markdown, "---\nnpm/web: major\ncore: patch\n---\n\nfix: things\n");
}

#[test]
fn package_specifier_parse_reports_empty_references() {
    assert_eq!(
        PackageSpecifier::parse("  \"\"  ").unwrap_err(),
        "package reference cannot be empty"
    );
    assert_eq!(
        PackageSpecifier::parse("cargo/").unwrap_err(),
        "missing package name after ecosystem prefix"
    );
    let scoped = PackageSpecifier::parse("@scope/pkg").unwrap();
    assert_eq!(scoped.kind, None);
    assert_eq!(scoped.to_canonical_string(), "@scope/pkg");
}

fn sorted_entries(info: &sampo_core::changeset::ChangesetInfo) -> Vec<(String, Bump, Option<String>)> {
    let mut entries = info.entries.clone();
    entries.sort_by(|left, right| {
        left.0
            .to_canonical_string()
            .cmp(&right.0.to_canonical_string())
    });
    entries
        .into_iter()
        .map(|(spec, bump, tag)| (spec.to_canonical_string(), bump, tag))
        .collect()
}

#[test]
fn parse_valid_changeset() {
    let text = "---\na: minor\nb: minor\n---\n\nfeat: message\n";
    let changeset = parse_changeset(text, "/tmp/x.md", &[]).unwrap().unwrap();
    assert_eq!(
        sorted_entries(&changeset),
        vec![
            ("a".into(), Bump::Minor, None),
            ("b".into(), Bump::Minor, None)
        ]
    );
    assert_eq!(changeset.message, "feat: message");
}

#[test]
fn parse_changeset_strips_wrapping_quotes() {
    let text = "---\n\"sampo-core\": minor\n'sampo-cli': patch\n---\n\nfeat: message\n";
    let changeset = parse_changeset(text, "/tmp/quotes.md", &[]).unwrap().unwrap();
    assert_eq!(
        sorted_entries(&changeset),
        vec![
            ("sampo-cli".into(), Bump::Patch, None),
            ("sampo-core".into(), Bump::Minor, None)
        ]
    );
}

#[test]
fn parse_changeset_accepts_canonical_identifiers_with_slash() {
    let text = "---\ncargo/example: minor\n---\n\nfeat: canonical id\n";
    let changeset = parse_changeset(text, "/tmp/canonical-slash.md", &[])
        .unwrap()
        .unwrap();
    let collected: Vec<(String, Bump, Option<String>)> = changeset
        .entries
        .iter()
        .map(|(spec, bump, tag)| (spec.to_canonical_string(), *bump, tag.clone()))
        .collect();
    assert_eq!(collected, vec![("cargo/example".into(), Bump::Minor, None)]);
}

#[test]
fn parse_changeset_with_tags() {
    let allowed = vec!["Added".to_string(), "Fixed".to_string()];
    let text = "---\nmy-pkg: minor (Added)\n---\n\nfeat: new feature\n";
    let changeset = parse_changeset(text, "/tmp/tagged.md", &allowed)
        .unwrap()
        .unwrap();
    assert_eq!(changeset.entries.len(), 1);
    assert_eq!(changeset.entries[0].1, Bump::Minor);
    assert_eq!(changeset.entries[0].2, Some("Added".to_string()));
}

#[test]
fn parse_changeset_normalizes_tag_casing() {
    let allowed = vec!["Added".to_string(), "Fixed".to_string()];
    let text = "---\nmy-pkg: minor (added)\n---\n\nfeat: new feature\n";
    let path = "/tmp/lowercase-tag.md";
    let changeset = parse_changeset(text, path, &allowed).unwrap().unwrap();
    assert_eq!(changeset.entries[0].2, Some("Added".to_string()));

    let text = "---\nmy-pkg: patch (FIXED)\n---\n\nbug fix\n";
    let changeset = parse_changeset(text, path, &allowed).unwrap().unwrap();
    assert_eq!(changeset.entries[0].2, Some("Fixed".to_string()));
}

#[test]
fn parse_changeset_rejects_unknown_tag_when_configured() {
    let allowed = vec!["Added".to_string()];
    let text = "---\nmy-pkg: minor (Unknown)\n---\n\nfeat: something\n";
    let result = parse_changeset(text, "/tmp/unknown-tag.md", &allowed);
    assert!(result.is_err());
    let err = result.unwrap_err().to_string();
    assert!(err.contains("not in the configured changesets.tags list"));
}

#[test]
fn parse_changeset_rejects_custom_type_without_config() {
    let text = "---\nmy-pkg: minor (Added)\n---\n\nfeat: something\n";
    let result = parse_changeset(text, "/tmp/no-config.md", &[]);
    assert!(result.is_err());
    let err = result.unwrap_err().to_string();
    assert!(err.contains("configure changesets.tags"));
}

#[test]
fn parse_major_changeset() {
    let text = "---\nmypackage: major\n---\n\nBREAKING: API change\n";
    let changeset = parse_changeset(text, "/tmp/major.md", &[]).unwrap().unwrap();
    let collected: Vec<(String, Bump)> = changeset
        .entries
        .iter()
        .map(|(spec, bump, _)| (spec.to_canonical_string(), *bump))
        .collect();
    assert_eq!(collected, vec![("mypackage".into(), Bump::Major)]);
    assert_eq!(changeset.message, "BREAKING: API change");
}

#[test]
fn parse_empty_returns_error() {
    assert!(parse_changeset("", "/tmp/empty.md", &[]).is_err());
}

#[test]
fn parse_changeset_with_invalid_frontmatter() {
    let text = "packages:\n  - test\nrelease: patch\n---\n\nNo frontmatter delimiter\n";
    assert!(parse_changeset(text, "/tmp/invalid.md", &[]).is_err());
}

#[test]
fn parse_changeset_missing_packages() {
    let text = "---\n---\n\nNo packages defined\n";
    assert!(parse_changeset(text, "/tmp/no-packages.md", &[]).is_err());
}

#[test]
fn parse_changeset_missing_release() {
    let text = "---\n\"test\": none\n---\n\nNo release type\n";
    assert!(parse_changeset(text, "/tmp/no-release.md", &[]).is_err());
}

#[test]
fn parse_changeset_empty_message() {
    let text = "---\ntest: patch\n---\n\n";
    assert!(parse_changeset(text, "/tmp/empty-message.md", &[])
        .unwrap()
        .is_none());
}

#[test]
fn parse_changeset_keeps_the_path_and_trims_the_message() {
    let text = "---\ntest: patch\n---\n\n  fix: spaces  \n\n";
    let changeset = parse_changeset(text, "/repo/.sampo/changesets/fix.md", &[])
        .unwrap()
        .unwrap();
    assert_eq!(changeset.path, "/repo/.sampo/changesets/fix.md");
    assert_eq!(changeset.message, "fix: spaces");
}

#[test]
fn parse_changeset_rejects_a_path_without_file_name() {
    let text = "---\ntest: patch\n---\n\nmessage\n";
    match parse_changeset(text, "/", &[]) {
        Err(SampoError::Changeset(m)) => assert_eq!(m, "Invalid file path"),
        other => panic!("unexpected result: {:?}", other),
    }
}

#[test]
fn parse_changeset_reports_loading_errors() {
    match parse_changeset("no front matter", "/tmp/x.md", &[]) {
        Err(SampoError::Changeset(m)) => {
            assert!(m.starts_with("Failed to parse changeset: "), "{m}")
        }
        other => panic!("unexpected result: {:?}", other),
    }
}

#[test]
fn parse_changeset_rejects_an_empty_package_reference() {
    let text = "---\n\"\": patch\n---\n\nmessage\n";
    match parse_changeset(text, "/tmp/x.md", &[]) {
        Err(SampoError::Changeset(m)) => assert_eq!(
            m,
            "Invalid package reference '\"\"': package reference cannot be empty"
        ),
        other => panic!("unexpected result: {:?}", other),
    }
}

#[test]
fn parsed_change_type_reads_bump_and_tag() {
    let tags = vec!["Added".to_string(), "Fixed".to_string()];
    let parsed = ParsedChangeType::parse("major ( fixed )", &tags).unwrap();
    assert_eq!(parsed.bump, Bump::Major);
    assert_eq!(parsed.tag, Some("Fixed".to_string()));
    assert_eq!(ParsedChangeType::parse("patch", &tags).unwrap().tag, None);
    assert_eq!(
        ParsedChangeType::parse("huge (Added)", &tags).unwrap_err(),
        "unknown bump level 'huge'"
    );
    assert_eq!(
        ParsedChangeType::parse("minor ()", &tags).unwrap_err(),
        "tag must not be empty"
    );
    assert!(ParsedChangeType::parse("minor (Added", &tags).is_err());
}

#[test]
fn parse_change_type_wraps_errors_with_the_package() {
    let tags = vec!["Added".to_string()];
    match parse_change_type("minor (Other)", "pkg", &tags) {
        Err(SampoError::Changeset(m)) => assert_eq!(
            m,
            "Invalid change type 'minor (Other)' for package 'pkg': tag 'Other' is not in the configured changesets.tags list"
        ),
        other => panic!("unexpected result: {:?}", other),
    }
    assert_eq!(
        parse_change_type("minor", "pkg", &[]).unwrap(),
        (Bump::Minor, None)
    );
}
